//! The archive kinds, their filename suffixes and their capabilities.

use vstd::prelude::*;
use crate::text::str_eq;

verus! {

/// One archive kind: a multi-entry container or a single-stream compressor.
#[derive(Debug, Clone, Copy, PartialEq, Eq, Structural)]
pub enum CompressionType {
    Zip,
    TarGz,
    TarBr,
    Gz,
    Br,
    Gzip,
    Bzip2,
}

/// The canonical filename suffix of each kind.
pub open spec fn extension_of(t: CompressionType) -> Seq<char> {
    match t {
        CompressionType::Zip => ".zip"@,
        CompressionType::TarGz => ".tar.gz"@,
        CompressionType::TarBr => ".tar.br"@,
        CompressionType::Gz => ".gz"@,
        CompressionType::Br => ".br"@,
        CompressionType::Gzip => ".gzip"@,
        CompressionType::Bzip2 => ".bz2"@,
    }
}

/// The kind that a suffix, already in lower case, names.
pub open spec fn kind_of_suffix(s: Seq<char>) -> Option<CompressionType> {
    if s == ".zip"@ {
        Some(CompressionType::Zip)
    } else if s == ".tar.gz"@ || s == ".tgz"@ {
        Some(CompressionType::TarGz)
    } else if s == ".tar.br"@ {
        Some(CompressionType::TarBr)
    } else if s == ".gz"@ {
        Some(CompressionType::Gz)
    } else if s == ".br"@ {
        Some(CompressionType::Br)
    } else if s == ".gzip"@ {
        Some(CompressionType::Gzip)
    } else if s == ".bz2"@ || s == ".bzip2"@ {
        Some(CompressionType::Bzip2)
    } else {
        None
    }
}

/// The kinds whose container holds more than one entry.
pub open spec fn multi_entry(t: CompressionType) -> bool {
    t is Zip || t is TarGz || t is TarBr
}

/// The kind that a display name ("Zip", "TarGz", ...) selects.
pub open spec fn kind_of_name(s: Seq<char>) -> Option<CompressionType> {
    if s == "Zip"@ {
        Some(CompressionType::Zip)
    } else if s == "TarGz"@ {
        Some(CompressionType::TarGz)
    } else if s == "TarBr"@ {
        Some(CompressionType::TarBr)
    } else if s == "Gz"@ {
        Some(CompressionType::Gz)
    } else if s == "Br"@ {
        Some(CompressionType::Br)
    } else if s == "Gzip"@ {
        Some(CompressionType::Gzip)
    } else if s == "Bzip2"@ {
        Some(CompressionType::Bzip2)
    } else {
        None
    }
}

/// The display name of each kind.
pub open spec fn name_of(t: CompressionType) -> Seq<char> {
    match t {
        CompressionType::Zip => "Zip"@,
        CompressionType::TarGz => "TarGz"@,
        CompressionType::TarBr => "TarBr"@,
        CompressionType::Gz => "Gz"@,
        CompressionType::Br => "Br"@,
        CompressionType::Gzip => "Gzip"@,
        CompressionType::Bzip2 => "Bzip2"@,
    }
}

/// What `str::to_lowercase` returns for a text.
pub uninterp spec fn lower_of(s: Seq<char>) -> Seq<char>;

/// Relies on `str::to_lowercase`: the Unicode lower-case mapping of the text,
/// which depends on its characters alone.
#[verifier::external_body]
fn lowercase(s: &str) -> (r: String)
    ensures
        r@ == lower_of(s@),
{
    s.to_lowercase()
}

impl CompressionType {
    /// The canonical filename suffix, leading dot included.
    pub fn extension(&self) -> (r: &'static str)
        ensures
            r@ == extension_of(*self),
    {
        match self {
            CompressionType::Zip => ".zip",
            CompressionType::TarGz => ".tar.gz",
            CompressionType::TarBr => ".tar.br",
            CompressionType::Gz => ".gz",
            CompressionType::Br => ".br",
            CompressionType::Gzip => ".gzip",
            CompressionType::Bzip2 => ".bz2",
        }
    }

    /// The kind that a suffix names, compared without regard to case.
    pub fn from_extension(ext: &str) -> (r: Option<CompressionType>)
        ensures
            r == kind_of_suffix(lower_of(ext@)),
    {
        let lowered = lowercase(ext);
        CompressionType::from_lowercase_extension(lowered.as_str())
    }

    /// The kind that a suffix already in lower case names.
    pub fn from_lowercase_extension(ext: &str) -> (r: Option<CompressionType>)
        ensures
            r == kind_of_suffix(ext@),
    {
        if str_eq(ext, ".zip") {
            Some(CompressionType::Zip)
        } else if str_eq(ext, ".tar.gz") || str_eq(ext, ".tgz") {
            Some(CompressionType::TarGz)
        } else if str_eq(ext, ".tar.br") {
            Some(CompressionType::TarBr)
        } else if str_eq(ext, ".gz") {
            Some(CompressionType::Gz)
        } else if str_eq(ext, ".br") {
            Some(CompressionType::Br)
        } else if str_eq(ext, ".gzip") {
            Some(CompressionType::Gzip)
        } else if str_eq(ext, ".bz2") || str_eq(ext, ".bzip2") {
            Some(CompressionType::Bzip2)
        } else {
            None
        }
    }

    /// Whether the kind's container can hold several entries.
    pub fn supports_multiple_files(&self) -> (r: bool)
        ensures
            r == multi_entry(*self),
    {
        match self {
            CompressionType::Zip | CompressionType::TarGz | CompressionType::TarBr => true,
            CompressionType::Gz | CompressionType::Br | CompressionType::Gzip
            | CompressionType::Bzip2 => false,
        }
    }

    /// Whether the kind can take `count` inputs: any number for a container,
    /// at most one for a single-stream compressor.
    pub fn admits_file_count(&self, count: usize) -> (r: bool)
        ensures
            r == (multi_entry(*self) || count <= 1),
    {
        self.supports_multiple_files() || count <= 1
    }

    /// The kind that a display name selects.
    pub fn from_name(name: &str) -> (r: Option<CompressionType>)
        ensures
            r == kind_of_name(name@),
    {
        if str_eq(name, "Zip") {
            Some(CompressionType::Zip)
        } else if str_eq(name, "TarGz") {
            Some(CompressionType::TarGz)
        } else if str_eq(name, "TarBr") {
            Some(CompressionType::TarBr)
        } else if str_eq(name, "Gz") {
            Some(CompressionType::Gz)
        } else if str_eq(name, "Br") {
            Some(CompressionType::Br)
        } else if str_eq(name, "Gzip") {
            Some(CompressionType::Gzip)
        } else if str_eq(name, "Bzip2") {
            Some(CompressionType::Bzip2)
        } else {
            None
        }
    }

    /// The display name of the kind.
    pub fn name(&self) -> (r: &'static str)
        ensures
            r@ == name_of(*self),
    {
        match self {
            CompressionType::Zip => "Zip",
            CompressionType::TarGz => "TarGz",
            CompressionType::TarBr => "TarBr",
            CompressionType::Gz => "Gz",
            CompressionType::Br => "Br",
            CompressionType::Gzip => "Gzip",
            CompressionType::Bzip2 => "Bzip2",
        }
    }
}

/// The suffix of a kind names that kind again: `kind_of_suffix` is a left
/// inverse of `extension_of`.
pub proof fn lemma_extension_names_its_kind(t: CompressionType)
    ensures
        kind_of_suffix(extension_of(t)) == Some(t),
{
    reveal_strlit(".zip");
    reveal_strlit(".tar.gz");
    reveal_strlit(".tgz");
    reveal_strlit(".tar.br");
    reveal_strlit(".gz");
    reveal_strlit(".br");
    reveal_strlit(".gzip");
    reveal_strlit(".bz2");
    reveal_strlit(".bzip2");
    assert(".zip"@.len() == 4);
    assert(".tar.gz"@.len() == 7);
    assert(".tgz"@.len() == 4);
    assert(".tar.br"@.len() == 7);
    assert(".gz"@.len() == 3);
    assert(".br"@.len() == 3);
    assert(".gzip"@.len() == 5);
    assert(".bz2"@.len() == 4);
    assert(".bzip2"@.len() == 6);
    assert(".zip"@[1] != ".tgz"@[1]);
    assert(".zip"@[1] != ".bz2"@[1]);
    assert(".tar.gz"@[5] != ".tar.br"@[5]);
    assert(".tgz"@[1] != ".bz2"@[1]);
    assert(".gz"@[1] != ".br"@[1]);
}

/// The display name of a kind selects that kind again.
pub proof fn lemma_name_selects_its_kind(t: CompressionType)
    ensures
        kind_of_name(name_of(t)) == Some(t),
{
    reveal_strlit("Zip");
    reveal_strlit("TarGz");
    reveal_strlit("TarBr");
    reveal_strlit("Gz");
    reveal_strlit("Br");
    reveal_strlit("Gzip");
    reveal_strlit("Bzip2");
    assert("Zip"@.len() == 3);
    assert("TarGz"@.len() == 5);
    assert("TarBr"@.len() == 5);
    assert("Gz"@.len() == 2);
    assert("Br"@.len() == 2);
    assert("Gzip"@.len() == 4);
    assert("Bzip2"@.len() == 5);
    assert("TarGz"@[3] != "TarBr"@[3]);
    assert("TarGz"@[0] != "Bzip2"@[0]);
    assert("TarBr"@[0] != "Bzip2"@[0]);
    assert("Gz"@[0] != "Br"@[0]);
}

} // verus!
