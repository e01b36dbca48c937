//! Output names: the file recovered from a single-stream archive, and the
//! archive that a set of inputs is compressed into.

use vstd::prelude::*;
use vstd::utf8::{decode_utf8, valid_utf8};
use crate::kind::{extension_of, CompressionType};
use crate::path::{file_name_of, file_stem_of, parent_of, stem, stem_of, FsPath, PartView};
use crate::text::{concat, contains_char, ends_with, has_suffix, slice};

verus! {

/// The suffixes of single-stream compressors that a recovered name drops.
pub open spec fn stripped_base(name: Seq<char>) -> Option<Seq<char>> {
    if has_suffix(name, ".gz"@) {
        Some(name.subrange(0, name.len() - 3))
    } else if has_suffix(name, ".gzip"@) {
        Some(name.subrange(0, name.len() - 5))
    } else if has_suffix(name, ".br"@) {
        Some(name.subrange(0, name.len() - 3))
    } else if has_suffix(name, ".bz2"@) {
        Some(name.subrange(0, name.len() - 4))
    } else if has_suffix(name, ".bzip2"@) {
        Some(name.subrange(0, name.len() - 6))
    } else {
        None
    }
}

/// The name of the file inside a single-stream archive named `name`: the
/// name without its compression suffix, given `.txt` when nothing else marks
/// its type; without such a suffix, or when nothing is left, the stem.
pub open spec fn recovered_name(name: Seq<char>) -> Seq<char> {
    match stripped_base(name) {
        Some(base) => if base.len() > 0 {
            if base.contains('.') {
                base
            } else {
                base + ".txt"@
            }
        } else {
            stem_of(name)
        },
        None => stem_of(name),
    }
}

/// The text that the name stored in a gzip header stands for, when it is
/// valid UTF-8.
pub open spec fn header_text(bytes: Seq<u8>) -> Option<Seq<char>> {
    if valid_utf8(bytes) {
        Some(decode_utf8(bytes))
    } else {
        None
    }
}

/// The name of the file that a gzip archive decompresses to: the name in its
/// header when there is one in UTF-8, else the name recovered from the
/// archive's own name.
pub open spec fn gz_output_name_of(header: Option<Seq<u8>>, archive: Seq<PartView>) -> Seq<char> {
    let fallback = match file_name_of(archive) {
        Some(n) => recovered_name(n),
        None => Seq::empty(),
    };
    match header {
        Some(b) => match header_text(b) {
            Some(t) => t,
            None => fallback,
        },
        None => fallback,
    }
}

/// Relies on `std::str::from_utf8`: it accepts exactly the valid UTF-8 byte
/// strings, and then yields the characters they encode.
#[verifier::external_body]
fn utf8_text(bytes: &[u8]) -> (r: Option<String>)
    ensures
        match r {
            Some(s) => valid_utf8(bytes@) && s@ == decode_utf8(bytes@),
            None => !valid_utf8(bytes@),
        },
{
    std::str::from_utf8(bytes).ok().map(|s| s.to_string())
}

/// The name of the file inside a single-stream archive named `name`.
pub fn recover_name(name: &str) -> (r: String)
    ensures
        r@ == recovered_name(name@),
{
    let n = name.unicode_len();
    let cut: usize = if ends_with(name, ".gz") {
        3
    } else if ends_with(name, ".gzip") {
        5
    } else if ends_with(name, ".br") {
        3
    } else if ends_with(name, ".bz2") {
        4
    } else if ends_with(name, ".bzip2") {
        6
    } else {
        0
    };
    proof {
        reveal_strlit(".gz");
        reveal_strlit(".gzip");
        reveal_strlit(".br");
        reveal_strlit(".bz2");
        reveal_strlit(".bzip2");
    }
    if cut > 0 && cut < n {
        let base = slice(name, 0, n - cut);
        if contains_char(base.as_str(), '.') {
            base
        } else {
            concat(base.as_str(), ".txt")
        }
    } else {
        stem(name)
    }
}

/// The name of the file inside a single-stream archive at `file_path`.
pub fn fallback_filename_from_compressed(file_path: &FsPath) -> (r: String)
    ensures
        r@ == match file_name_of(file_path@) {
            Some(n) => recovered_name(n),
            None => Seq::empty(),
        },
{
    match file_path.file_name() {
        Some(n) => recover_name(n.as_str()),
        None => String::new(),
    }
}

/// The name of the file that the gzip archive at `archive` decompresses to,
/// given the file name stored in its header, if any.
pub fn gz_output_name(header_name: Option<&[u8]>, archive: &FsPath) -> (r: String)
    ensures
        r@ == gz_output_name_of(
            match header_name {
                Some(b) => Some(b@),
                None => None,
            },
            archive@,
        ),
{
    match header_name {
        Some(bytes) => match utf8_text(bytes) {
            Some(t) => t,
            None => fallback_filename_from_compressed(archive),
        },
        None => fallback_filename_from_compressed(archive),
    }
}

/// The archive that the inputs are compressed into by default: beside the
/// first input, named after it when it is alone and `archive` otherwise, with
/// the kind's suffix.
pub open spec fn output_path_of(files: Seq<Seq<PartView>>, kind: CompressionType) -> Seq<PartView> {
    let base = if files.len() == 1 {
        match file_stem_of(files[0]) {
            Some(s) => s,
            None => Seq::empty(),
        }
    } else {
        "archive"@
    };
    let dir = match parent_of(files[0]) {
        Some(p) => p,
        None => seq![PartView::CurDir],
    };
    dir.push(PartView::Normal(base + extension_of(kind)))
}

/// The default archive path for compressing `files` as `kind`.
pub fn generate_output_path(files: &Vec<FsPath>, kind: CompressionType) -> (r: FsPath)
    requires
        files@.len() > 0,
    ensures
        r@ == output_path_of(files@.map_values(|f: FsPath| f@), kind),
{
    let ghost views = files@.map_values(|f: FsPath| f@);
    assert(views[0] == files@[0]@);
    let base = if files.len() == 1 {
        match files[0].file_stem() {
            Some(s) => s,
            None => String::new(),
        }
    } else {
        String::from_str("archive")
    };
    let dir = match files[0].parent() {
        Some(p) => p,
        None => FsPath::cur_dir(),
    };
    let name = concat(base.as_str(), kind.extension());
    dir.join_name(name.as_str())
}

/// The first component of a path that makes it stand on its own: a root or
/// a prefix.
pub open spec fn anchored(p: Seq<PartView>) -> bool {
    p.len() > 0 && (p[0] is RootDir || p[0] is Prefix)
}

/// Where the archive named by the user goes: as given when it is anchored,
/// else beside the first input.
pub open spec fn resolved_output_of(files: Seq<Seq<PartView>>, output: Seq<PartView>) -> Seq<PartView> {
    if anchored(output) || files.len() == 0 {
        output
    } else {
        let dir = match parent_of(files[0]) {
            Some(p) => p,
            None => seq![PartView::CurDir],
        };
        dir + output
    }
}

/// The archive path for an output name given by the user.
pub fn resolve_output_path(files: &Vec<FsPath>, output: &FsPath) -> (r: FsPath)
    ensures
        r@ == resolved_output_of(files@.map_values(|f: FsPath| f@), output@),
{
    let ghost views = files@.map_values(|f: FsPath| f@);
    let anchored_output = output.parts.len() > 0 && match &output.parts[0] {
        crate::path::PathPart::RootDir | crate::path::PathPart::Prefix(_) => true,
        _ => false,
    };
    if anchored_output || files.len() == 0 {
        return output.copy();
    }
    assert(views[0] == files@[0]@);
    let mut r = match files[0].parent() {
        Some(p) => p,
        None => FsPath::cur_dir(),
    };
    let ghost dir = r@;
    let n = output.parts.len();
    let mut i: usize = 0;
    while i < n
        invariant
            n == output@.len(),
            i <= n,
            r@ == dir + output@.subrange(0, i as int),
        decreases n - i,
    {
        let ghost before = r@;
        r.parts.push(crate::path::copy_part(&output.parts[i]));
        assert(r@ =~= before.push(output@[i as int]));
        assert(r@ =~= dir + output@.subrange(0, i + 1));
        i = i + 1;
    }
    assert(output@.subrange(0, n as int) =~= output@);
    r
}

} // verus!
