//! Paths as sequences of components, and the rules that the engine applies to
//! them: parents, file names, common bases and archive entry names.

use vstd::prelude::*;
use crate::text::{
    find_last, forward_slashed, last_index_of, lemma_last_index_of, replace_backslashes, slice,
    str_eq,
};

verus! {

/// One component of a path, as the platform's path parser yields it.
#[derive(Debug)]
pub enum PathPart {
    /// A drive or share prefix (`C:`), on platforms that have them.
    Prefix(String),
    /// The root separator of an absolute path.
    RootDir,
    /// `.` at the start of a relative path.
    CurDir,
    /// `..`.
    ParentDir,
    /// A file or directory name.
    Normal(String),
}

/// The mathematical view of a path component.
pub enum PartView {
    Prefix(Seq<char>),
    RootDir,
    CurDir,
    ParentDir,
    Normal(Seq<char>),
}

impl View for PathPart {
    type V = PartView;

    open spec fn view(&self) -> PartView {
        match self {
            PathPart::Prefix(s) => PartView::Prefix(s@),
            PathPart::RootDir => PartView::RootDir,
            PathPart::CurDir => PartView::CurDir,
            PathPart::ParentDir => PartView::ParentDir,
            PathPart::Normal(s) => PartView::Normal(s@),
        }
    }
}

/// A filesystem path, held as its components.
#[derive(Debug)]
pub struct FsPath {
    pub parts: Vec<PathPart>,
}

impl View for FsPath {
    type V = Seq<PartView>;

    open spec fn view(&self) -> Seq<PartView> {
        self.parts@.map_values(|p: PathPart| p@)
    }
}

/// The view of an optional path.
pub open spec fn opt_path_view(p: Option<FsPath>) -> Option<Seq<PartView>> {
    match p {
        Some(q) => Some(q@),
        None => None,
    }
}

/// The view of an optional string.
pub open spec fn opt_str_view(s: Option<String>) -> Option<Seq<char>> {
    match s {
        Some(t) => Some(t@),
        None => None,
    }
}

/// The path `.`: the current working directory.
pub open spec fn cur_dir_view() -> Seq<PartView> {
    seq![PartView::CurDir]
}

/// The parent of a path: the path without its last component, when that
/// component is a name, `.` or `..`; none for a root, a prefix or no path.
pub open spec fn parent_of(p: Seq<PartView>) -> Option<Seq<PartView>> {
    if p.len() == 0 {
        None
    } else {
        match p.last() {
            PartView::Normal(_) | PartView::CurDir | PartView::ParentDir => Some(p.drop_last()),
            _ => None,
        }
    }
}

/// The final name of a path, when its last component is a name.
pub open spec fn file_name_of(p: Seq<PartView>) -> Option<Seq<char>> {
    if p.len() > 0 && p.last() is Normal {
        Some(p.last()->Normal_0)
    } else {
        None
    }
}

/// The stem of a file name: the name without its last extension. A name
/// whose only dot leads it, or `..`, is its own stem.
pub open spec fn stem_of(name: Seq<char>) -> Seq<char> {
    let i = last_index_of(name, '.');
    if name == ".."@ || i <= 0 {
        name
    } else {
        name.subrange(0, i)
    }
}

/// The extension of a file name: what follows its last dot, when a dot
/// stands after the first character.
pub open spec fn ext_of(name: Seq<char>) -> Option<Seq<char>> {
    let i = last_index_of(name, '.');
    if name == ".."@ || i <= 0 {
        None
    } else {
        Some(name.subrange(i + 1, name.len() as int))
    }
}

/// The stem of a path's file name.
pub open spec fn file_stem_of(p: Seq<PartView>) -> Option<Seq<char>> {
    match file_name_of(p) {
        Some(n) => Some(stem_of(n)),
        None => None,
    }
}

/// The extension of a path's file name.
pub open spec fn extension_of_path(p: Seq<PartView>) -> Option<Seq<char>> {
    match file_name_of(p) {
        Some(n) => ext_of(n),
        None => None,
    }
}

/// The number of leading components that two paths share.
pub open spec fn common_len(a: Seq<PartView>, b: Seq<PartView>) -> nat
    decreases a.len(),
{
    if a.len() == 0 || b.len() == 0 || a[0] != b[0] {
        0
    } else {
        1 + common_len(a.drop_first(), b.drop_first())
    }
}

/// The longest run of leading components that two paths share.
pub open spec fn common_prefix(a: Seq<PartView>, b: Seq<PartView>) -> Seq<PartView> {
    a.subrange(0, common_len(a, b) as int)
}

/// `k` leading components agree and the next ones, if any, differ: then `k`
/// is the shared length.
pub proof fn lemma_common_len(a: Seq<PartView>, b: Seq<PartView>, k: nat)
    requires
        k <= a.len(),
        k <= b.len(),
        forall|i: int| 0 <= i < k ==> a[i] == b[i],
        k == a.len() || k == b.len() || a[k as int] != b[k as int],
    ensures
        common_len(a, b) == k,
    decreases k,
{
    if k > 0 {
        let a1 = a.drop_first();
        let b1 = b.drop_first();
        assert forall|i: int| 0 <= i < k - 1 implies a1[i] == b1[i] by {
            assert(a[i + 1] == b[i + 1]);
        }
        if k < a.len() && k < b.len() {
            assert(a1[k - 1] == a[k as int]);
            assert(b1[k - 1] == b[k as int]);
        }
        lemma_common_len(a1, b1, (k - 1) as nat);
        assert(a[0] == b[0]);
    }
}

/// The shared length never exceeds either path, and the shared components
/// agree.
pub proof fn lemma_common_len_bounds(a: Seq<PartView>, b: Seq<PartView>)
    ensures
        common_len(a, b) <= a.len(),
        common_len(a, b) <= b.len(),
        forall|i: int| 0 <= i < common_len(a, b) ==> a[i] == b[i],
    decreases a.len(),
{
    if !(a.len() == 0 || b.len() == 0 || a[0] != b[0]) {
        let a1 = a.drop_first();
        let b1 = b.drop_first();
        lemma_common_len_bounds(a1, b1);
        assert forall|i: int| 0 <= i < common_len(a, b) implies a[i] == b[i] by {
            if i > 0 {
                assert(a[i] == a1[i - 1]);
                assert(b[i] == b1[i - 1]);
            }
        }
    }
}

/// `pre` is a leading part of `p`.
pub open spec fn is_prefix_of(pre: Seq<PartView>, p: Seq<PartView>) -> bool {
    pre.len() <= p.len() && p.subrange(0, pre.len() as int) == pre
}

/// The base that the first `i` inputs leave, carried on over inputs `i..`:
/// each input with a parent narrows the base to what it shares with that
/// parent, and a parent that shares nothing makes the base `.`.
pub open spec fn common_base_from(
    files: Seq<Seq<PartView>>,
    i: int,
    base: Seq<PartView>,
) -> Seq<PartView>
    decreases files.len() - i,
{
    if i < 0 || i >= files.len() {
        base
    } else {
        match parent_of(files[i]) {
            None => common_base_from(files, i + 1, base),
            Some(q) => {
                let k = common_len(base, q);
                if k == 0 {
                    cur_dir_view()
                } else {
                    common_base_from(files, i + 1, base.subrange(0, k as int))
                }
            },
        }
    }
}

/// The common base directory of a set of inputs: none when there are no
/// inputs or the first has no parent.
pub open spec fn common_base(files: Seq<Seq<PartView>>) -> Option<Seq<PartView>> {
    if files.len() == 0 {
        None
    } else {
        match parent_of(files[0]) {
            None => None,
            Some(p) => Some(common_base_from(files, 1, p)),
        }
    }
}

/// The base directory that archive entry names are made relative to: the
/// parent of a single input, else the common base, and `.` when there is
/// neither.
pub open spec fn base_dir(files: Seq<Seq<PartView>>) -> Seq<PartView> {
    if files.len() == 1 {
        match parent_of(files[0]) {
            Some(p) => p,
            None => cur_dir_view(),
        }
    } else {
        match common_base(files) {
            Some(b) => b,
            None => cur_dir_view(),
        }
    }
}

/// The text of a component.
pub open spec fn part_text(p: PartView) -> Seq<char> {
    match p {
        PartView::Prefix(s) => s,
        PartView::RootDir => "/"@,
        PartView::CurDir => "."@,
        PartView::ParentDir => ".."@,
        PartView::Normal(s) => s,
    }
}

/// Component texts joined with `/`.
pub open spec fn slash_joined(parts: Seq<PartView>) -> Seq<char>
    decreases parts.len(),
{
    if parts.len() == 0 {
        Seq::empty()
    } else if parts.len() == 1 {
        part_text(parts[0])
    } else {
        slash_joined(parts.drop_last()) + seq!['/'] + part_text(parts.last())
    }
}

/// Every component is a name.
pub open spec fn all_names(parts: Seq<PartView>) -> bool {
    forall|i: int| 0 <= i < parts.len() ==> (#[trigger] parts[i]) is Normal
}

/// The name under which a file is stored in an archive: its components after
/// the base, joined with forward slashes; when the base does not lead the
/// file, or what follows it is empty or more than names, the file's own name.
pub open spec fn entry_name_of(file: Seq<PartView>, base: Seq<PartView>) -> Seq<char> {
    let rest = file.subrange(base.len() as int, file.len() as int);
    if is_prefix_of(base, file) && rest.len() > 0 && all_names(rest) {
        forward_slashed(slash_joined(rest))
    } else {
        match file_name_of(file) {
            Some(n) => forward_slashed(n),
            None => Seq::empty(),
        }
    }
}

/// A copy of a component.
pub fn copy_part(p: &PathPart) -> (r: PathPart)
    ensures
        r@ == p@,
{
    match p {
        PathPart::Prefix(s) => PathPart::Prefix(s.clone()),
        PathPart::RootDir => PathPart::RootDir,
        PathPart::CurDir => PathPart::CurDir,
        PathPart::ParentDir => PathPart::ParentDir,
        PathPart::Normal(s) => PathPart::Normal(s.clone()),
    }
}

/// Whether two components are the same.
pub fn same_part(a: &PathPart, b: &PathPart) -> (r: bool)
    ensures
        r == (a@ == b@),
{
    match (a, b) {
        (PathPart::Prefix(x), PathPart::Prefix(y)) => *x == *y,
        (PathPart::RootDir, PathPart::RootDir) => true,
        (PathPart::CurDir, PathPart::CurDir) => true,
        (PathPart::ParentDir, PathPart::ParentDir) => true,
        (PathPart::Normal(x), PathPart::Normal(y)) => *x == *y,
        _ => false,
    }
}

/// The text of a component.
pub fn part_str(p: &PathPart) -> (r: String)
    ensures
        r@ == part_text(p@),
{
    match p {
        PathPart::Prefix(s) => s.clone(),
        PathPart::RootDir => String::from_str("/"),
        PathPart::CurDir => String::from_str("."),
        PathPart::ParentDir => String::from_str(".."),
        PathPart::Normal(s) => s.clone(),
    }
}

impl FsPath {
    /// The path `.`.
    pub fn cur_dir() -> (r: FsPath)
        ensures
            r@ == cur_dir_view(),
    {
        let mut parts: Vec<PathPart> = Vec::new();
        parts.push(PathPart::CurDir);
        let r = FsPath { parts };
        assert(r@ =~= cur_dir_view());
        r
    }

    /// The first `n` components of the path.
    pub fn take(&self, n: usize) -> (r: FsPath)
        requires
            n <= self@.len(),
        ensures
            r@ == self@.subrange(0, n as int),
    {
        let mut parts: Vec<PathPart> = Vec::new();
        let mut i: usize = 0;
        while i < n
            invariant
                n <= self.parts@.len(),
                i <= n,
                parts@.len() == i,
                forall|j: int| 0 <= j < i ==> (#[trigger] parts@[j])@ == self.parts@[j]@,
            decreases n - i,
        {
            parts.push(copy_part(&self.parts[i]));
            i = i + 1;
        }
        let r = FsPath { parts };
        assert(r@ =~= self@.subrange(0, n as int));
        r
    }

    /// A copy of the path.
    pub fn copy(&self) -> (r: FsPath)
        ensures
            r@ == self@,
    {
        let r = self.take(self.parts.len());
        assert(self@.subrange(0, self@.len() as int) =~= self@);
        r
    }

    /// The path with `name` added as its last component.
    pub fn join_name(&self, name: &str) -> (r: FsPath)
        ensures
            r@ == self@.push(PartView::Normal(name@)),
    {
        let mut r = self.copy();
        r.parts.push(PathPart::Normal(String::from_str(name)));
        assert(r@ =~= self@.push(PartView::Normal(name@)));
        r
    }

    /// The parent directory.
    pub fn parent(&self) -> (r: Option<FsPath>)
        ensures
            opt_path_view(r) == parent_of(self@),
    {
        let n = self.parts.len();
        if n == 0 {
            return None;
        }
        match &self.parts[n - 1] {
            PathPart::Normal(_) | PathPart::CurDir | PathPart::ParentDir => {
                let r = self.take(n - 1);
                assert(self@.drop_last() =~= self@.subrange(0, n - 1));
                Some(r)
            },
            _ => None,
        }
    }

    /// The final name, when the last component is a name.
    pub fn file_name(&self) -> (r: Option<String>)
        ensures
            opt_str_view(r) == file_name_of(self@),
    {
        let n = self.parts.len();
        if n == 0 {
            return None;
        }
        match &self.parts[n - 1] {
            PathPart::Normal(s) => Some(s.clone()),
            _ => None,
        }
    }

    /// The file name without its last extension.
    pub fn file_stem(&self) -> (r: Option<String>)
        ensures
            opt_str_view(r) == file_stem_of(self@),
    {
        match self.file_name() {
            Some(name) => Some(stem(name.as_str())),
            None => None,
        }
    }

    /// The file name's last extension, without its dot.
    pub fn extension(&self) -> (r: Option<String>)
        ensures
            opt_str_view(r) == extension_of_path(self@),
    {
        match self.file_name() {
            Some(name) => extension(name.as_str()),
            None => None,
        }
    }
}

/// The stem of a file name.
pub fn stem(name: &str) -> (r: String)
    ensures
        r@ == stem_of(name@),
{
    if str_eq(name, "..") {
        return String::from_str(name);
    }
    proof {
        lemma_last_index_of(name@, '.');
    }
    match find_last(name, '.') {
        Some(i) => {
            if i == 0 {
                String::from_str(name)
            } else {
                slice(name, 0, i)
            }
        },
        None => String::from_str(name),
    }
}

/// The extension of a file name.
pub fn extension(name: &str) -> (r: Option<String>)
    ensures
        opt_str_view(r) == ext_of(name@),
{
    if str_eq(name, "..") {
        return None;
    }
    let n = name.unicode_len();
    proof {
        lemma_last_index_of(name@, '.');
    }
    match find_last(name, '.') {
        Some(i) => {
            if i == 0 {
                None
            } else {
                Some(slice(name, i + 1, n))
            }
        },
        None => None,
    }
}

/// The longest shared run of leading components of two paths, or none when
/// they share no component.
pub fn find_common_path(path1: &FsPath, path2: &FsPath) -> (r: Option<FsPath>)
    ensures
        match r {
            Some(c) => common_len(path1@, path2@) > 0 && c@ == common_prefix(path1@, path2@),
            None => common_len(path1@, path2@) == 0,
        },
{
    let n1 = path1.parts.len();
    let n2 = path2.parts.len();
    let mut k: usize = 0;
    while k < n1 && k < n2 && same_part(&path1.parts[k], &path2.parts[k])
        invariant
            n1 == path1@.len(),
            n2 == path2@.len(),
            k <= n1,
            k <= n2,
            forall|i: int| 0 <= i < k ==> path1@[i] == path2@[i],
        decreases n1 - k,
    {
        k = k + 1;
    }
    proof {
        lemma_common_len(path1@, path2@, k as nat);
    }
    if k == 0 {
        None
    } else {
        Some(path1.take(k))
    }
}

/// The common base directory of the inputs' parents: none when there are no
/// inputs or the first has no parent; `.` as soon as a parent shares no
/// component with the base found so far.
pub fn find_common_base_dir(files: &Vec<FsPath>) -> (r: Option<FsPath>)
    ensures
        opt_path_view(r) == common_base(files@.map_values(|f: FsPath| f@)),
{
    let ghost views = files@.map_values(|f: FsPath| f@);
    if files.len() == 0 {
        return None;
    }
    let mut base = match files[0].parent() {
        Some(p) => p,
        None => {
            return None;
        },
    };
    let n = files.len();
    let mut i: usize = 1;
    while i < n
        invariant
            n == files@.len(),
            views == files@.map_values(|f: FsPath| f@),
            1 <= i <= n,
            parent_of(views[0]) is Some,
            common_base(views) == Some(common_base_from(views, i as int, base@)),
        decreases n - i,
    {
        assert(views[i as int] == files@[i as int]@);
        match files[i].parent() {
            Some(q) => {
                match find_common_path(&base, &q) {
                    Some(c) => {
                        base = c;
                    },
                    None => {
                        return Some(FsPath::cur_dir());
                    },
                }
            },
            None => {},
        }
        i = i + 1;
    }
    Some(base)
}

/// The base directory for archive entry names: the parent of a single input,
/// else the common base of all inputs, and `.` when there is none.
pub fn base_dir_for(files: &Vec<FsPath>) -> (r: FsPath)
    ensures
        r@ == base_dir(files@.map_values(|f: FsPath| f@)),
{
    if files.len() == 1 {
        match files[0].parent() {
            Some(p) => p,
            None => FsPath::cur_dir(),
        }
    } else {
        match find_common_base_dir(files) {
            Some(b) => b,
            None => FsPath::cur_dir(),
        }
    }
}

/// Whether `base` is a leading part of `file`.
pub fn starts_with_path(file: &FsPath, base: &FsPath) -> (r: bool)
    ensures
        r == is_prefix_of(base@, file@),
{
    let nb = base.parts.len();
    if nb > file.parts.len() {
        return false;
    }
    let mut i: usize = 0;
    while i < nb
        invariant
            nb == base@.len(),
            nb <= file@.len(),
            i <= nb,
            forall|j: int| 0 <= j < i ==> file@[j] == base@[j],
        decreases nb - i,
    {
        if !same_part(&file.parts[i], &base.parts[i]) {
            assert(file@.subrange(0, nb as int)[i as int] != base@[i as int]);
            return false;
        }
        i = i + 1;
    }
    assert(file@.subrange(0, nb as int) =~= base@);
    true
}

/// The components of `file` from `from` on, joined with `/`, when they are all
/// names.
fn join_names_from(file: &FsPath, from: usize) -> (r: Option<String>)
    requires
        from < file@.len(),
    ensures
        match r {
            Some(s) => all_names(file@.subrange(from as int, file@.len() as int)) && s@
                == slash_joined(file@.subrange(from as int, file@.len() as int)),
            None => !all_names(file@.subrange(from as int, file@.len() as int)),
        },
{
    let n = file.parts.len();
    let mut out = String::new();
    let mut i: usize = from;
    while i < n
        invariant
            n == file@.len(),
            from < n,
            from <= i <= n,
            all_names(file@.subrange(from as int, i as int)),
            out@ == slash_joined(file@.subrange(from as int, i as int)),
        decreases n - i,
    {
        let ghost before = file@.subrange(from as int, i as int);
        let ghost after = file@.subrange(from as int, i + 1);
        assert(after.drop_last() =~= before);
        assert(after.last() == file@[i as int]);
        match &file.parts[i] {
            PathPart::Normal(name) => {
                if i > from {
                    proof {
                        reveal_strlit("/");
                        assert("/"@.len() == 1);
                        assert("/"@[0] == '/');
                        assert("/"@ =~= seq!['/']);
                    }
                    out.append("/");
                } else {
                    assert(before.len() == 0);
                }
                out.append(name.as_str());
                assert forall|j: int| 0 <= j < after.len() implies (#[trigger] after[j]) is Normal by {
                    if j < before.len() {
                        assert(after[j] == before[j]);
                    }
                }
            },
            _ => {
                assert(!(after.last() is Normal));
                assert(!(file@.subrange(from as int, n as int)[i - from] is Normal));
                return None;
            },
        }
        i = i + 1;
    }
    Some(out)
}

/// The name under which `file` is stored in an archive whose entries are
/// relative to `base`.
pub fn entry_name(file: &FsPath, base: &FsPath) -> (r: String)
    ensures
        r@ == entry_name_of(file@, base@),
{
    if starts_with_path(file, base) && base.parts.len() < file.parts.len() {
        match join_names_from(file, base.parts.len()) {
            Some(joined) => {
                return replace_backslashes(joined.as_str());
            },
            None => {},
        }
    }
    match file.file_name() {
        Some(n) => replace_backslashes(n.as_str()),
        None => {
            let r = String::new();
            assert(r@ =~= Seq::<char>::empty());
            r
        },
    }
}

/// Carrying the base on keeps it a leading part of every parent seen, unless
/// it falls back to `.`.
proof fn lemma_common_base_from_leads(files: Seq<Seq<PartView>>, i: int, base: Seq<PartView>)
    requires
        1 <= i <= files.len(),
        forall|j: int|
            0 <= j < i && (#[trigger] parent_of(files[j])) is Some ==> is_prefix_of(
                base,
                parent_of(files[j])->0,
            ),
    ensures
        common_base_from(files, i, base) == cur_dir_view() || forall|j: int|
            0 <= j < files.len() && (#[trigger] parent_of(files[j])) is Some ==> is_prefix_of(
                common_base_from(files, i, base),
                parent_of(files[j])->0,
            ),
    decreases files.len() - i,
{
    if i < files.len() {
        match parent_of(files[i]) {
            None => {
                lemma_common_base_from_leads(files, i + 1, base);
            },
            Some(q) => {
                let k = common_len(base, q);
                if k > 0 {
                    lemma_common_len_bounds(base, q);
                    let nb = base.subrange(0, k as int);
                    assert forall|j: int|
                        0 <= j < i + 1 && (#[trigger] parent_of(files[j])) is Some implies is_prefix_of(
                        nb,
                        parent_of(files[j])->0,
                    ) by {
                        let pj = parent_of(files[j])->0;
                        if j == i {
                            assert(pj.subrange(0, k as int) =~= nb);
                        } else {
                            assert(pj.subrange(0, base.len() as int) == base);
                            assert(pj.subrange(0, k as int) =~= nb);
                        }
                    }
                    lemma_common_base_from_leads(files, i + 1, nb);
                }
            },
        }
    }
}

/// The common base of the inputs is a leading part of the parent of every
/// input that has one, unless no component was shared and it fell back to
/// `.`: entry names relative to it never climb out of it.
pub proof fn lemma_common_base_leads_parents(files: Seq<Seq<PartView>>)
    ensures
        common_base(files) matches Some(b) ==> b == cur_dir_view() || forall|j: int|
            0 <= j < files.len() && (#[trigger] parent_of(files[j])) is Some ==> is_prefix_of(
                b,
                parent_of(files[j])->0,
            ),
{
    if files.len() > 0 {
        match parent_of(files[0]) {
            Some(p) => {
                assert(p.subrange(0, p.len() as int) =~= p);
                lemma_common_base_from_leads(files, 1, p);
            },
            None => {},
        }
    }
}

} // verus!
