//! The archive engine's decisions: which driver serves a request, what each
//! driver does with the inputs, and which format an archive is read as.

use vstd::prelude::*;
use crate::kind::{kind_of_name, multi_entry, CompressionType};
use crate::path::{
    base_dir, base_dir_for, entry_name, entry_name_of, extension_of_path, file_name_of, FsPath,
    PartView, PathPart,
};
use crate::progress::{full, percent_le, valid_percent, Percent};
use crate::size::{calculate_total_size, inputs_size, InputNode};
use crate::text::{ends_with, has_suffix, str_eq};

verus! {

/// Why an operation failed.
#[derive(Debug)]
pub enum ArchiveError {
    /// A single-stream kind was asked to hold more than one input.
    UnsupportedMultiInput,
    /// The archive's name has no suffix that a driver reads; the suffix seen.
    UnsupportedFormat(String),
    /// No kind has this display name.
    UnknownCompressionType(String),
    /// A single-stream kind was given no input.
    NoInput,
    /// A single-stream kind was given something other than a regular file.
    NotAFile,
    /// The inputs hold more bytes than a 64-bit count can hold.
    SizeOverflow,
    /// Reading or writing failed; the cause.
    Io(String),
    /// The container or compressor rejected the data; the cause.
    Codec(String),
}

/// The path that an input was found at.
pub open spec fn node_path(n: InputNode) -> Seq<PartView> {
    match n {
        InputNode::File { path, .. } => path@,
        InputNode::Dir { path, .. } => path@,
        InputNode::Other { path } => path@,
    }
}

/// The paths of a sequence of inputs.
pub open spec fn node_paths(s: Seq<InputNode>) -> Seq<Seq<PartView>> {
    s.map_values(|n: InputNode| node_path(n))
}

/// A path's file name, or nothing.
pub open spec fn name_or_empty(p: Seq<PartView>) -> Seq<char> {
    match file_name_of(p) {
        Some(n) => n,
        None => Seq::empty(),
    }
}

/// The path of an input.
pub fn input_path(n: &InputNode) -> (r: &FsPath)
    ensures
        r@ == node_path(*n),
{
    match n {
        InputNode::File { path, .. } => path,
        InputNode::Dir { path, .. } => path,
        InputNode::Other { path } => path,
    }
}

/// Copies of the paths of all inputs.
pub fn input_paths(inputs: &Vec<InputNode>) -> (r: Vec<FsPath>)
    ensures
        r@.map_values(|f: FsPath| f@) == node_paths(inputs@),
{
    let n = inputs.len();
    let mut paths: Vec<FsPath> = Vec::new();
    let mut p: usize = 0;
    while p < n
        invariant
            n == inputs@.len(),
            p <= n,
            paths@.len() == p,
            forall|j: int| 0 <= j < p ==> (#[trigger] paths@[j])@ == node_path(inputs@[j]),
        decreases n - p,
    {
        paths.push(input_path(&inputs[p]).copy());
        p = p + 1;
    }
    assert(paths@.map_values(|f: FsPath| f@) =~= node_paths(inputs@));
    paths
}

/// A path's file name, or the empty string.
pub fn file_name_or_empty(p: &FsPath) -> (r: String)
    ensures
        r@ == name_or_empty(p@),
{
    match p.file_name() {
        Some(n) => n,
        None => String::new(),
    }
}

/// Whether a kind can take `file_count` inputs; an error for an unknown kind
/// name.
pub fn validate_compression_type(file_count: usize, kind_name: &str) -> (r: Result<bool, ArchiveError>)
    ensures
        match kind_of_name(kind_name@) {
            Some(k) => r == Ok::<bool, ArchiveError>(multi_entry(k) || file_count <= 1),
            None => r matches Err(ArchiveError::UnknownCompressionType(s)) && s@ == kind_name@,
        },
{
    match CompressionType::from_name(kind_name) {
        Some(k) => Ok(k.supports_multiple_files() || file_count <= 1),
        None => Err(ArchiveError::UnknownCompressionType(String::from_str(kind_name))),
    }
}

/// The display names of all kinds, in the order they are offered.
pub fn get_compression_types() -> (r: Vec<String>)
    ensures
        r@.len() == 7,
        r@[0]@ == "Zip"@,
        r@[1]@ == "TarGz"@,
        r@[2]@ == "TarBr"@,
        r@[3]@ == "Gz"@,
        r@[4]@ == "Br"@,
        r@[5]@ == "Gzip"@,
        r@[6]@ == "Bzip2"@,
{
    let mut r: Vec<String> = Vec::new();
    r.push(String::from_str("Zip"));
    r.push(String::from_str("TarGz"));
    r.push(String::from_str("TarBr"));
    r.push(String::from_str("Gz"));
    r.push(String::from_str("Br"));
    r.push(String::from_str("Gzip"));
    r.push(String::from_str("Bzip2"));
    r
}

// ---------------------------------------------------------------- progress

/// The fraction reported before input `i` of `count` starts, `done` bytes of
/// `total` in: by bytes, or by inputs when the total is zero.
pub open spec fn before_input(total: nat, done: nat, i: nat, count: nat) -> Percent {
    if total > 0 {
        Percent { num: done as u64, den: total as u64 }
    } else {
        Percent { num: i as u64, den: count as u64 }
    }
}

/// The reports of a plan, in order, never go backwards.
pub open spec fn reports_monotone(s: Seq<Percent>) -> bool {
    forall|i: int, j: int| 0 <= i < j < s.len() ==> percent_le(#[trigger] s[i], #[trigger] s[j])
}

/// The reports of a plan are all between nothing and completion, and the
/// last is completion.
pub open spec fn ends_complete(s: Seq<Percent>) -> bool {
    &&& s.len() > 0
    &&& s.last() == full()
    &&& forall|i: int| 0 <= i < s.len() ==> valid_percent(#[trigger] s[i])
}

// ---------------------------------------------------------------- tar

/// The codec that a tar archive is wrapped in.
#[derive(Debug, Clone, Copy, PartialEq, Eq, Structural)]
pub enum TarCodec {
    Gzip,
    Brotli,
}

/// One step of writing a tar archive.
#[derive(Debug)]
pub enum TarAction {
    /// Report progress under a name.
    Report { percent: Percent, name: String },
    /// Append the file at `source` under `name`.
    AppendFile { source: FsPath, name: String },
    /// Append the directory at `source`, with all beneath it, under `name`.
    AppendDir { source: FsPath, name: String },
}

/// The view of a tar step.
pub enum TarActionView {
    Report { percent: Percent, name: Seq<char> },
    AppendFile { source: Seq<PartView>, name: Seq<char> },
    AppendDir { source: Seq<PartView>, name: Seq<char> },
}

impl View for TarAction {
    type V = TarActionView;

    open spec fn view(&self) -> TarActionView {
        match self {
            TarAction::Report { percent, name } => TarActionView::Report {
                percent: *percent,
                name: name@,
            },
            TarAction::AppendFile { source, name } => TarActionView::AppendFile {
                source: source@,
                name: name@,
            },
            TarAction::AppendDir { source, name } => TarActionView::AppendDir {
                source: source@,
                name: name@,
            },
        }
    }
}

/// The steps that put one input into a tar archive.
pub open spec fn tar_append(n: InputNode, base: Seq<PartView>) -> Seq<TarActionView> {
    match n {
        InputNode::File { path, .. } => seq![
            TarActionView::AppendFile { source: path@, name: entry_name_of(path@, base) },
        ],
        InputNode::Dir { path, .. } => seq![
            TarActionView::AppendDir { source: path@, name: entry_name_of(path@, base) },
        ],
        InputNode::Other { .. } => Seq::empty(),
    }
}

/// The steps for the first `k` inputs of a tar archive of `total` bytes:
/// before each input a report, then the input.
pub open spec fn tar_steps(
    inputs: Seq<InputNode>,
    base: Seq<PartView>,
    total: nat,
    k: nat,
) -> Seq<TarActionView>
    decreases k,
{
    if k == 0 || k > inputs.len() {
        Seq::empty()
    } else {
        let i = (k - 1) as nat;
        let done = inputs_size(inputs.subrange(0, i as int));
        tar_steps(inputs, base, total, i) + seq![
            TarActionView::Report {
                percent: before_input(total, done, i, inputs.len()),
                name: name_or_empty(node_path(inputs[i as int])),
            },
        ] + tar_append(inputs[i as int], base)
    }
}

/// The whole plan of a tar archive: the steps of every input, then a report
/// of completion.
pub open spec fn tar_plan(inputs: Seq<InputNode>) -> Seq<TarActionView> {
    tar_steps(inputs, base_dir(node_paths(inputs)), inputs_size(inputs), inputs.len()) + seq![
        TarActionView::Report { percent: full(), name: "Complete"@ },
    ]
}

/// The fractions that a tar plan reports, in order.
pub open spec fn tar_reports(s: Seq<TarActionView>) -> Seq<Percent>
    decreases s.len(),
{
    if s.len() == 0 {
        Seq::empty()
    } else {
        let rest = tar_reports(s.drop_last());
        match s.last() {
            TarActionView::Report { percent, .. } => rest.push(percent),
            _ => rest,
        }
    }
}

/// The reports of two plans one after the other are the reports of the first,
/// then those of the second.
proof fn lemma_tar_reports_concat(a: Seq<TarActionView>, b: Seq<TarActionView>)
    ensures
        tar_reports(a + b) == tar_reports(a) + tar_reports(b),
    decreases b.len(),
{
    if b.len() == 0 {
        assert(a + b =~= a);
        assert(tar_reports(a) + tar_reports(b) =~= tar_reports(a));
    } else {
        lemma_tar_reports_concat(a, b.drop_last());
        assert((a + b).drop_last() =~= a + b.drop_last());
        assert((a + b).last() == b.last());
        match b.last() {
            TarActionView::Report { percent, .. } => {
                assert(tar_reports(a) + tar_reports(b) =~= (tar_reports(a) + tar_reports(
                    b.drop_last(),
                )).push(percent));
            },
            _ => {},
        }
    }
}

/// The reports of the first `k` inputs of a tar plan: one per input, the
/// `i`-th as `before_input` gives it.
proof fn lemma_tar_reports(inputs: Seq<InputNode>, base: Seq<PartView>, total: nat, k: nat)
    requires
        k <= inputs.len(),
    ensures
        tar_reports(tar_steps(inputs, base, total, k)).len() == k,
        forall|i: int|
            0 <= i < k ==> #[trigger] tar_reports(tar_steps(inputs, base, total, k))[i] == before_input(
                total,
                inputs_size(inputs.subrange(0, i)),
                i as nat,
                inputs.len(),
            ),
    decreases k,
{
    if k > 0 {
        let i = (k - 1) as nat;
        lemma_tar_reports(inputs, base, total, i);
        let prev = tar_steps(inputs, base, total, i);
        let rep = TarActionView::Report {
            percent: before_input(total, inputs_size(inputs.subrange(0, i as int)), i, inputs.len()),
            name: name_or_empty(node_path(inputs[i as int])),
        };
        let with_rep = prev + seq![rep];
        assert(with_rep.drop_last() =~= prev);
        let tail = tar_append(inputs[i as int], base);
        assert(tar_reports(tail) =~= Seq::<Percent>::empty()) by {
            assert(tar_reports(Seq::<TarActionView>::empty()) =~= Seq::<Percent>::empty());
            if tail.len() == 1 {
                assert(tail.drop_last() =~= Seq::<TarActionView>::empty());
                assert(!(tail.last() is Report));
            } else {
                assert(tail =~= Seq::<TarActionView>::empty());
            }
        }
        lemma_tar_reports_concat(prev, seq![rep]);
        lemma_tar_reports_concat(with_rep, tail);
        assert(seq![rep].drop_last() =~= Seq::<TarActionView>::empty());
        let all = with_rep + tail;
        assert(all == tar_steps(inputs, base, total, k));
        assert(tar_reports(all) =~= tar_reports(prev).push(rep->Report_percent));
    }
}

/// Before-input fractions of later inputs are no smaller.
pub(crate) proof fn lemma_before_input_monotone(inputs: Seq<InputNode>, total: nat, i: int, j: int)
    requires
        0 <= i <= j < inputs.len(),
        total == inputs_size(inputs),
        total <= u64::MAX,
        inputs.len() <= u64::MAX,
    ensures
        percent_le(
            before_input(total, inputs_size(inputs.subrange(0, i)), i as nat, inputs.len()),
            before_input(total, inputs_size(inputs.subrange(0, j)), j as nat, inputs.len()),
        ),
        valid_percent(before_input(total, inputs_size(inputs.subrange(0, j)), j as nat, inputs.len())),
{
    let a = inputs_size(inputs.subrange(0, i));
    let b = inputs_size(inputs.subrange(0, j));
    crate::size::lemma_inputs_size_grows(inputs.subrange(0, j), i);
    assert(inputs.subrange(0, j).subrange(0, i) =~= inputs.subrange(0, i));
    crate::size::lemma_inputs_size_grows(inputs, j);
    let p = before_input(total, a, i as nat, inputs.len());
    let q = before_input(total, b, j as nat, inputs.len());
    if total > 0 {
        assert(p.num == a && q.num == b && p.den == total && q.den == total);
        assert(a * total <= b * total) by (nonlinear_arith)
            requires
                a <= b,
        ;
    } else {
        let n = inputs.len();
        assert(p.num == i && q.num == j && p.den == n && q.den == n);
        assert(i * n <= j * n) by (nonlinear_arith)
            requires
                i <= j,
        ;
    }
}

/// Progress reported by a tar plan never goes backwards and ends at
/// completion, whatever the sizes of the inputs.
pub proof fn lemma_tar_progress(inputs: Seq<InputNode>)
    requires
        inputs_size(inputs) <= u64::MAX,
        inputs.len() <= u64::MAX,
    ensures
        reports_monotone(tar_reports(tar_plan(inputs))),
        ends_complete(tar_reports(tar_plan(inputs))),
{
    let total = inputs_size(inputs);
    let n = inputs.len();
    let base = base_dir(node_paths(inputs));
    let steps = tar_steps(inputs, base, total, n);
    lemma_tar_reports(inputs, base, total, n);
    let fin = TarActionView::Report { percent: full(), name: "Complete"@ };
    let plan = steps + seq![fin];
    assert(plan.drop_last() =~= steps);
    let reps = tar_reports(plan);
    assert(reps == tar_reports(steps).push(full()));
    assert forall|i: int, j: int| 0 <= i < j < reps.len() implies percent_le(
        #[trigger] reps[i],
        #[trigger] reps[j],
    ) by {
        lemma_before_input_monotone(inputs, total, i, i);
        if j < n {
            lemma_before_input_monotone(inputs, total, i, j);
        } else {
            crate::progress::lemma_below_full(reps[i]);
        }
    }
    assert forall|i: int| 0 <= i < reps.len() implies valid_percent(#[trigger] reps[i]) by {
        if i < n {
            lemma_before_input_monotone(inputs, total, i, i);
        }
    }
}

/// The plan for writing `inputs` into a tar archive, and the codec around it.
pub fn plan_tar(inputs: &Vec<InputNode>) -> (r: Result<Vec<TarAction>, ArchiveError>)
    requires
        inputs@.len() <= u64::MAX,
    ensures
        match r {
            Ok(plan) => inputs_size(inputs@) <= u64::MAX && plan@.map_values(|a: TarAction| a@)
                == tar_plan(inputs@),
            Err(e) => e is SizeOverflow && inputs_size(inputs@) > u64::MAX,
        },
{
    let total = match calculate_total_size(inputs) {
        Some(t) => t,
        None => {
            return Err(ArchiveError::SizeOverflow);
        },
    };
    let n = inputs.len();
    let paths = input_paths(inputs);
    let base = base_dir_for(&paths);
    let mut plan: Vec<TarAction> = Vec::new();
    let mut done: u64 = 0;
    let mut i: usize = 0;
    while i < n
        invariant
            n == inputs@.len(),
            n <= u64::MAX,
            total == inputs_size(inputs@),
            total <= u64::MAX,
            i <= n,
            done == inputs_size(inputs@.subrange(0, i as int)),
            base@ == base_dir(node_paths(inputs@)),
            plan@.map_values(|a: TarAction| a@) == tar_steps(inputs@, base@, total as nat, i as nat),
        decreases n - i,
    {
        let ghost before = plan@.map_values(|a: TarAction| a@);
        proof {
            crate::size::lemma_inputs_size_grows(inputs@, i + 1);
            assert(inputs@.subrange(0, i + 1).drop_last() =~= inputs@.subrange(0, i as int));
        }
        let percent = if total > 0 {
            Percent { num: done, den: total }
        } else {
            Percent { num: i as u64, den: n as u64 }
        };
        let path = input_path(&inputs[i]);
        plan.push(TarAction::Report { percent, name: file_name_or_empty(path) });
        let ghost mid = plan@.map_values(|a: TarAction| a@);
        assert(mid =~= before + seq![
            TarActionView::Report {
                percent: before_input(total as nat, done as nat, i as nat, n as nat),
                name: name_or_empty(node_path(inputs@[i as int])),
            },
        ]);
        match &inputs[i] {
            InputNode::File { path, size } => {
                plan.push(TarAction::AppendFile { source: path.copy(), name: entry_name(path, &base) });
                done = done + *size;
            },
            InputNode::Dir { path, .. } => {
                let s = crate::size::calculate_path_size(&inputs[i]);
                plan.push(TarAction::AppendDir { source: path.copy(), name: entry_name(path, &base) });
                match s {
                    Some(s) => {
                        done = done + s;
                    },
                    None => {},
                }
            },
            InputNode::Other { .. } => {},
        }
        assert(plan@.map_values(|a: TarAction| a@) =~= mid + tar_append(inputs@[i as int], base@));
        i = i + 1;
    }
    plan.push(TarAction::Report { percent: Percent::complete(), name: String::from_str("Complete") });
    assert(inputs@.subrange(0, n as int) =~= inputs@);
    assert(plan@.map_values(|a: TarAction| a@) =~= tar_plan(inputs@));
    Ok(plan)
}

// ---------------------------------------------------------------- reading

/// The kind whose driver reads an archive of this name: compound tar
/// suffixes first, then the extension; gzip and `.gzip` alike read as gzip.
pub open spec fn format_of(name: Seq<char>, ext: Seq<char>) -> Option<CompressionType> {
    if has_suffix(name, ".tar.gz"@) || has_suffix(name, ".tgz"@) {
        Some(CompressionType::TarGz)
    } else if has_suffix(name, ".tar.br"@) {
        Some(CompressionType::TarBr)
    } else if ext == "zip"@ {
        Some(CompressionType::Zip)
    } else if ext == "gz"@ || ext == "gzip"@ {
        Some(CompressionType::Gz)
    } else if ext == "br"@ {
        Some(CompressionType::Br)
    } else if ext == "bz2"@ || ext == "bzip2"@ {
        Some(CompressionType::Bzip2)
    } else {
        None
    }
}

/// The extension of a path, or nothing.
pub open spec fn ext_or_empty(p: Seq<PartView>) -> Seq<char> {
    match extension_of_path(p) {
        Some(e) => e,
        None => Seq::empty(),
    }
}

/// The kind whose driver reads the archive at `file`; an error naming the
/// extension when there is none.
pub fn detect_archive_format(file: &FsPath) -> (r: Result<CompressionType, ArchiveError>)
    ensures
        match format_of(name_or_empty(file@), ext_or_empty(file@)) {
            Some(k) => r == Ok::<CompressionType, ArchiveError>(k),
            None => r matches Err(ArchiveError::UnsupportedFormat(e)) && e@ == ext_or_empty(file@),
        },
{
    let name = file_name_or_empty(file);
    let ext = match file.extension() {
        Some(e) => e,
        None => String::new(),
    };
    let n = name.as_str();
    let e = ext.as_str();
    if ends_with(n, ".tar.gz") || ends_with(n, ".tgz") {
        Ok(CompressionType::TarGz)
    } else if ends_with(n, ".tar.br") {
        Ok(CompressionType::TarBr)
    } else if str_eq(e, "zip") {
        Ok(CompressionType::Zip)
    } else if str_eq(e, "gz") || str_eq(e, "gzip") {
        Ok(CompressionType::Gz)
    } else if str_eq(e, "br") {
        Ok(CompressionType::Br)
    } else if str_eq(e, "bz2") || str_eq(e, "bzip2") {
        Ok(CompressionType::Bzip2)
    } else {
        Err(ArchiveError::UnsupportedFormat(ext))
    }
}

/// Whether a name marks a recognised archive: compound tar suffixes, or the
/// extension of a format that a driver reads.
pub open spec fn is_archive_name(name: Seq<char>, ext: Seq<char>) -> bool {
    has_suffix(name, ".tar.gz"@) || has_suffix(name, ".tgz"@) || has_suffix(name, ".tar.br"@)
        || ext == "zip"@ || ext == "gz"@ || ext == "br"@ || ext == "gzip"@ || ext == "bzip2"@
        || ext == "bz2"@
}

/// Whether the file at `path` is named like an archive; its content is not
/// looked at.
pub fn is_compressed_file(path: &FsPath) -> (r: bool)
    ensures
        r == is_archive_name(name_or_empty(path@), ext_or_empty(path@)),
{
    let name = file_name_or_empty(path);
    let n = name.as_str();
    if ends_with(n, ".tar.gz") || ends_with(n, ".tgz") || ends_with(n, ".tar.br") {
        return true;
    }
    let ext = match path.extension() {
        Some(e) => e,
        None => String::new(),
    };
    let e = ext.as_str();
    str_eq(e, "zip") || str_eq(e, "gz") || str_eq(e, "br") || str_eq(e, "gzip") || str_eq(e, "bzip2")
        || str_eq(e, "bz2")
}

/// An entry path that stays inside the directory it is extracted to: no root
/// or prefix, and no `..` that climbs above where it started.
pub open spec fn stays_inside(entry: Seq<PartView>, depth: int) -> bool
    decreases entry.len(),
{
    if entry.len() == 0 {
        true
    } else {
        match entry[0] {
            PartView::Prefix(_) | PartView::RootDir => false,
            PartView::ParentDir => depth > 0 && stays_inside(entry.drop_first(), depth - 1),
            PartView::Normal(_) => stays_inside(entry.drop_first(), depth + 1),
            PartView::CurDir => stays_inside(entry.drop_first(), depth),
        }
    }
}

/// Where a zip entry is written under `out_dir`: none when its path would
/// leave that directory.
pub fn entry_target(out_dir: &FsPath, entry: &FsPath) -> (r: Option<FsPath>)
    ensures
        match r {
            Some(t) => stays_inside(entry@, 0) && t@ == out_dir@ + entry@,
            None => !stays_inside(entry@, 0),
        },
{
    let n = entry.parts.len();
    let mut depth: u64 = 0;
    let mut i: usize = 0;
    assert(entry@.subrange(0, n as int) =~= entry@);
    while i < n
        invariant
            n == entry@.len(),
            i <= n,
            depth <= i,
            stays_inside(entry@, 0) == stays_inside(entry@.subrange(i as int, n as int), depth as int),
        decreases n - i,
    {
        let ghost rest = entry@.subrange(i as int, n as int);
        assert(rest.drop_first() =~= entry@.subrange(i + 1, n as int));
        assert(rest[0] == entry@[i as int]);
        match &entry.parts[i] {
            PathPart::Prefix(_) | PathPart::RootDir => {
                return None;
            },
            PathPart::ParentDir => {
                if depth == 0 {
                    return None;
                }
                depth = depth - 1;
            },
            PathPart::Normal(_) => {
                depth = depth + 1;
            },
            PathPart::CurDir => {},
        }
        i = i + 1;
    }
    assert(entry@.subrange(n as int, n as int) =~= Seq::<PartView>::empty());
    let mut t = out_dir.copy();
    let mut j: usize = 0;
    while j < n
        invariant
            n == entry@.len(),
            j <= n,
            t@ == out_dir@ + entry@.subrange(0, j as int),
        decreases n - j,
    {
        let ghost before = t@;
        t.parts.push(crate::path::copy_part(&entry.parts[j]));
        assert(t@ =~= before.push(entry@[j as int]));
        assert(t@ =~= out_dir@ + entry@.subrange(0, j + 1));
        j = j + 1;
    }
    assert(entry@.subrange(0, n as int) =~= entry@);
    Some(t)
}

/// The fraction reported before entry `index` of `count` is extracted.
pub fn entry_progress(index: usize, count: usize) -> (r: Percent)
    requires
        index < count,
    ensures
        r == (Percent { num: index as u64, den: count as u64 }),
        valid_percent(r),
{
    Percent { num: index as u64, den: count as u64 }
}

/// The fractions that extracting `count` entries reports: one before each
/// entry, counting the entries done, then completion.
pub open spec fn extraction_reports_of(count: nat) -> Seq<Percent> {
    Seq::new(count, |i: int| Percent { num: i as u64, den: count as u64 }).push(full())
}

/// The reports of extracting `count` entries, in order.
pub fn extraction_reports(count: usize) -> (r: Vec<Percent>)
    ensures
        r@ == extraction_reports_of(count as nat),
{
    let mut r: Vec<Percent> = Vec::new();
    let mut i: usize = 0;
    while i < count
        invariant
            i <= count,
            r@ =~= Seq::new(i as nat, |j: int| Percent { num: j as u64, den: count as u64 }),
        decreases count - i,
    {
        r.push(entry_progress(i, count));
        i = i + 1;
    }
    r.push(Percent::complete());
    assert(r@ =~= extraction_reports_of(count as nat));
    r
}

/// Progress reported while extracting entries never goes backwards and ends
/// at completion.
pub proof fn lemma_extraction_progress(count: usize)
    ensures
        reports_monotone(extraction_reports_of(count as nat)),
        ends_complete(extraction_reports_of(count as nat)),
{
    let reps = extraction_reports_of(count as nat);
    assert forall|i: int, j: int| 0 <= i < j < reps.len() implies percent_le(
        #[trigger] reps[i],
        #[trigger] reps[j],
    ) by {
        if j < count {
            lemma_entry_progress_monotone(i as usize, j as usize, count);
        } else {
            lemma_entry_progress_monotone(i as usize, i as usize, count);
        }
    }
    assert forall|i: int| 0 <= i < reps.len() implies valid_percent(#[trigger] reps[i]) by {}
}

/// Extraction reports of later entries are no smaller, and completion, which
/// follows the last entry, is never behind them.
pub proof fn lemma_entry_progress_monotone(i: usize, j: usize, count: usize)
    requires
        i <= j < count,
    ensures
        percent_le(
            Percent { num: i as u64, den: count as u64 },
            Percent { num: j as u64, den: count as u64 },
        ),
        percent_le(Percent { num: j as u64, den: count as u64 }, full()),
{
    assert(i * count <= j * count) by (nonlinear_arith)
        requires
            i <= j,
    ;
    crate::progress::lemma_below_full(Percent { num: j as u64, den: count as u64 });
}

} // verus!
