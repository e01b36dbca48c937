//! Names that do not collide with what a directory already holds: the name
//! itself, then `stem (2).ext`, `stem (3).ext`, and so on.

use vstd::prelude::*;
use crate::path::{
    ext_of, file_name_of, file_stem_of, opt_str_view, parent_of, stem, stem_of, extension, FsPath, PartView,
};
use crate::text::{concat, lemma_last_index_of, last_index_of};

verus! {

/// The decimal digit for `d`.
pub open spec fn digit_char(d: nat) -> char {
    if d == 0 {
        '0'
    } else if d == 1 {
        '1'
    } else if d == 2 {
        '2'
    } else if d == 3 {
        '3'
    } else if d == 4 {
        '4'
    } else if d == 5 {
        '5'
    } else if d == 6 {
        '6'
    } else if d == 7 {
        '7'
    } else if d == 8 {
        '8'
    } else {
        '9'
    }
}

/// The decimal notation of `n`.
pub open spec fn decimal(n: nat) -> Seq<char>
    decreases n,
{
    if n < 10 {
        seq![digit_char(n)]
    } else {
        decimal(n / 10) + seq![digit_char(n % 10)]
    }
}

/// What follows the stem in a name with extension `ext`.
pub open spec fn ext_tail(ext: Option<Seq<char>>) -> Seq<char> {
    match ext {
        Some(e) => "."@ + e,
        None => Seq::empty(),
    }
}

/// The numbered name `stem (k)` followed by the extension, if any.
pub open spec fn numbered_name(stem: Seq<char>, k: nat, ext: Option<Seq<char>>) -> Seq<char> {
    stem + " ("@ + decimal(k) + ")"@ + ext_tail(ext)
}

/// The `k`-th name tried: the first one itself, then numbered names from 2 on.
pub open spec fn candidate(first: Seq<char>, stem: Seq<char>, ext: Option<Seq<char>>, k: nat) -> Seq<char> {
    if k <= 1 {
        first
    } else {
        numbered_name(stem, k, ext)
    }
}

/// Some string of `v` reads `x`.
pub open spec fn holds_name(v: Seq<String>, x: Seq<char>) -> bool {
    exists|i: int| 0 <= i < v.len() && (#[trigger] v[i])@ == x
}

/// A name that cannot be used in a directory listed by `v`: one that `v`
/// holds, or the empty name, which stands for the directory itself.
pub open spec fn taken(v: Seq<String>, x: Seq<char>) -> bool {
    x.len() == 0 || holds_name(v, x)
}

/// `k` is the first position whose candidate is not taken.
pub open spec fn first_free(
    v: Seq<String>,
    first: Seq<char>,
    stem: Seq<char>,
    ext: Option<Seq<char>>,
    k: nat,
) -> bool {
    &&& k >= 1
    &&& !taken(v, candidate(first, stem, ext, k))
    &&& forall|j: nat| 1 <= j < k ==> taken(v, #[trigger] candidate(first, stem, ext, j))
}

/// Decimal notations have at least one digit.
pub proof fn lemma_decimal_len(n: nat)
    ensures
        decimal(n).len() >= 1,
        n >= 10 ==> decimal(n).len() >= 2,
    decreases n,
{
    if n >= 10 {
        lemma_decimal_len(n / 10);
    }
}

/// Different digits have different characters.
pub proof fn lemma_digit_char_injective(x: nat, y: nat)
    requires
        x < 10,
        y < 10,
        digit_char(x) == digit_char(y),
    ensures
        x == y,
{
}

/// Different numbers have different decimal notations.
pub proof fn lemma_decimal_injective(a: nat, b: nat)
    requires
        decimal(a) == decimal(b),
    ensures
        a == b,
    decreases a,
{
    lemma_decimal_len(a);
    lemma_decimal_len(b);
    if a < 10 && b < 10 {
        assert(decimal(a) == seq![digit_char(a)]);
        assert(decimal(b) == seq![digit_char(b)]);
        assert(decimal(a)[0] == digit_char(a));
        assert(decimal(b)[0] == digit_char(b));
        lemma_digit_char_injective(a, b);
    } else if a >= 10 && b >= 10 {
        let da = decimal(a);
        let db = decimal(b);
        assert(da.last() == db.last());
        assert(da.drop_last() =~= decimal(a / 10));
        assert(db.drop_last() =~= decimal(b / 10));
        lemma_decimal_injective(a / 10, b / 10);
        lemma_digit_char_injective(a % 10, b % 10);
        assert(a == 10 * (a / 10) + a % 10);
        assert(b == 10 * (b / 10) + b % 10);
    } else {
        assert(decimal(a).len() != decimal(b).len());
    }
}

/// Numbered names with different numbers differ, and none equals the first
/// name when that is the stem followed by the extension.
pub proof fn lemma_candidates_distinct(
    first: Seq<char>,
    stem: Seq<char>,
    ext: Option<Seq<char>>,
    j: nat,
    k: nat,
)
    requires
        first == stem + ext_tail(ext),
        1 <= j,
        1 <= k,
        candidate(first, stem, ext, j) == candidate(first, stem, ext, k),
    ensures
        j == k,
{
    reveal_strlit(" (");
    reveal_strlit(")");
    lemma_decimal_len(j);
    lemma_decimal_len(k);
    let tail = ext_tail(ext);
    if j >= 2 && k >= 2 {
        let a = numbered_name(stem, j, ext);
        let b = numbered_name(stem, k, ext);
        let start: int = stem.len() as int + 2;
        assert(decimal(j).len() == decimal(k).len());
        assert(a.subrange(start, start + decimal(j).len() as int) =~= decimal(j));
        assert(b.subrange(start, start + decimal(k).len() as int) =~= decimal(k));
        lemma_decimal_injective(j, k);
    } else if j >= 2 {
        assert(numbered_name(stem, j, ext).len() > first.len());
    } else if k >= 2 {
        assert(numbered_name(stem, k, ext).len() > first.len());
    }
}

/// A file name is its stem followed by its extension.
pub proof fn lemma_name_is_stem_and_ext(name: Seq<char>)
    ensures
        name == stem_of(name) + ext_tail(ext_of(name)),
{
    reveal_strlit(".");
    reveal_strlit("..");
    lemma_last_index_of(name, '.');
    let i = last_index_of(name, '.');
    if !(name == ".."@ || i <= 0) {
        assert(name =~= name.subrange(0, i) + "."@ + name.subrange(i + 1, name.len() as int));
    } else {
        assert(name =~= name + Seq::<char>::empty());
    }
}

/// The string for one decimal digit.
fn digit_str(d: u64) -> (r: &'static str)
    requires
        d < 10,
    ensures
        r@ == seq![digit_char(d as nat)],
{
    proof {
        reveal_strlit("0");
        reveal_strlit("1");
        reveal_strlit("2");
        reveal_strlit("3");
        reveal_strlit("4");
        reveal_strlit("5");
        reveal_strlit("6");
        reveal_strlit("7");
        reveal_strlit("8");
        reveal_strlit("9");
    }
    let r = if d == 0 {
        "0"
    } else if d == 1 {
        "1"
    } else if d == 2 {
        "2"
    } else if d == 3 {
        "3"
    } else if d == 4 {
        "4"
    } else if d == 5 {
        "5"
    } else if d == 6 {
        "6"
    } else if d == 7 {
        "7"
    } else if d == 8 {
        "8"
    } else {
        "9"
    };
    assert(r@.len() == 1);
    assert(r@ =~= seq![digit_char(d as nat)]);
    r
}

/// The decimal notation of `n`.
pub fn decimal_string(n: u64) -> (r: String)
    ensures
        r@ == decimal(n as nat),
    decreases n,
{
    if n < 10 {
        String::from_str(digit_str(n))
    } else {
        let high = decimal_string(n / 10);
        concat(high.as_str(), digit_str(n % 10))
    }
}

/// The numbered name `stem (k)` with the extension, if any.
pub fn make_numbered_name(stem: &str, k: u64, ext: Option<&str>) -> (r: String)
    ensures
        r@ == numbered_name(stem@, k as nat, match ext {
            Some(e) => Some(e@),
            None => None,
        }),
{
    let mut r = concat(stem, " (");
    let digits = decimal_string(k);
    r.append(digits.as_str());
    r.append(")");
    match ext {
        Some(e) => {
            r.append(".");
            r.append(e);
            assert(r@ =~= numbered_name(stem@, k as nat, Some(e@)));
        },
        None => {
            assert(r@ =~= numbered_name(stem@, k as nat, None));
        },
    }
    r
}

/// Where `s` stands in `v`.
fn position_of(v: &Vec<String>, s: &str) -> (r: Option<usize>)
    ensures
        match r {
            Some(i) => i < v@.len() && v@[i as int]@ == s@,
            None => !holds_name(v@, s@),
        },
{
    let n = v.len();
    let mut i: usize = 0;
    while i < n
        invariant
            n == v@.len(),
            i <= n,
            forall|j: int| 0 <= j < i ==> v@[j]@ != s@,
        decreases n - i,
    {
        if crate::text::str_eq(v[i].as_str(), s) {
            return Some(i);
        }
        i = i + 1;
    }
    None
}

/// A copy of a list of names.
fn copy_names(v: &Vec<String>) -> (r: Vec<String>)
    ensures
        r@.len() == v@.len(),
        forall|i: int| 0 <= i < v@.len() ==> (#[trigger] r@[i])@ == v@[i]@,
{
    let mut r: Vec<String> = Vec::new();
    let n = v.len();
    let mut i: usize = 0;
    while i < n
        invariant
            n == v@.len(),
            i <= n,
            r@.len() == i,
            forall|j: int| 0 <= j < i ==> (#[trigger] r@[j])@ == v@[j]@,
        decreases n - i,
    {
        r.push(v[i].clone());
        i = i + 1;
    }
    r
}

/// The first candidate name that is not taken, with its position: `first`,
/// then `stem (2)` with the extension, `stem (3)`, and so on.
pub fn first_free_name(first: &str, stem: &str, ext: Option<&str>, existing: &Vec<String>) -> (r: (
    String,
    usize,
))
    requires
        first@ == stem@ + ext_tail(match ext {
            Some(e) => Some(e@),
            None => None,
        }),
        existing@.len() < usize::MAX - 1,
    ensures
        first_free(existing@, first@, stem@, match ext {
            Some(e) => Some(e@),
            None => None,
        }, r.1 as nat),
        r.0@ == candidate(first@, stem@, match ext {
            Some(e) => Some(e@),
            None => None,
        }, r.1 as nat),
{
    let ghost ev = match ext {
        Some(e) => Some(e@),
        None => None,
    };
    let ghost all = existing@;
    let mut remaining = copy_names(existing);
    assert forall|i: int| 0 <= i < all.len() implies holds_name(remaining@, (#[trigger] all[i])@) by {
        assert(remaining@[i]@ == all[i]@);
    }
    assert forall|i: int| 0 <= i < remaining@.len() implies holds_name(all, (#[trigger] remaining@[i])@) by {
        assert(remaining@[i]@ == all[i]@);
    }
    let mut k: usize = 1;
    let mut cand = String::from_str(first);
    loop
        invariant
            first@ == stem@ + ext_tail(ev),
            ev == match ext {
                Some(e) => Some(e@),
                None => None::<Seq<char>>,
            },
            all == existing@,
            all.len() < usize::MAX - 1,
            1 <= k,
            k + remaining@.len() <= all.len() + 2,
            remaining@.len() <= all.len(),
            cand@ == candidate(first@, stem@, ev, k as nat),
            k > 1 ==> cand@.len() > 0,
            forall|j: nat| 1 <= j < k ==> taken(all, #[trigger] candidate(first@, stem@, ev, j)),
            forall|i: int|
                0 <= i < all.len() ==> holds_name(remaining@, (#[trigger] all[i])@) || exists|
                    j: nat,
                |
                    1 <= j < k && all[i]@ == #[trigger] candidate(first@, stem@, ev, j),
            forall|i: int|
                0 <= i < remaining@.len() ==> holds_name(all, (#[trigger] remaining@[i])@),
        ensures
            first_free(existing@, first@, stem@, ev, k as nat),
            cand@ == candidate(first@, stem@, ev, k as nat),
        decreases remaining@.len() + if k == 1 {
            1int
        } else {
            0int
        },
    {
        if cand.as_str().unicode_len() == 0 {
            k = k + 1;
            cand = make_numbered_name(stem, k as u64, ext);
            proof {
                reveal_strlit(" (");
                assert(cand@.len() > 0);
            }
            continue;
        }
        match position_of(&remaining, cand.as_str()) {
            None => {
                assert(!holds_name(all, cand@)) by {
                    if holds_name(all, cand@) {
                        let i = choose|i: int| 0 <= i < all.len() && (#[trigger] all[i])@ == cand@;
                        if !holds_name(remaining@, all[i]@) {
                            let j = choose|j: nat|
                                1 <= j < k && all[i]@ == #[trigger] candidate(first@, stem@, ev, j);
                            lemma_candidates_distinct(first@, stem@, ev, j, k as nat);
                        }
                    }
                }
                break;
            },
            Some(idx) => {
                let ghost old_rem = remaining@;
                let ghost old_k = k;
                assert(taken(all, cand@)) by {
                    assert(holds_name(all, old_rem[idx as int]@));
                }
                remaining.remove(idx);
                k = k + 1;
                cand = make_numbered_name(stem, k as u64, ext);
                proof {
                    reveal_strlit(" (");
                    assert(cand@.len() > 0);
                }
                assert forall|i: int| 0 <= i < all.len() implies holds_name(
                    remaining@,
                    (#[trigger] all[i])@,
                ) || exists|j: nat|
                    1 <= j < k && all[i]@ == #[trigger] candidate(first@, stem@, ev, j) by {
                    if holds_name(old_rem, all[i]@) {
                        let p = choose|p: int| 0 <= p < old_rem.len() && (#[trigger] old_rem[p])@ == all[i]@;
                        if p == idx {
                            assert(all[i]@ == candidate(first@, stem@, ev, old_k as nat));
                        } else if p < idx {
                            assert(remaining@[p] == old_rem[p]);
                        } else {
                            assert(remaining@[p - 1] == old_rem[p]);
                        }
                    } else {
                        let j = choose|j: nat|
                            1 <= j < old_k && all[i]@ == #[trigger] candidate(first@, stem@, ev, j);
                        assert(1 <= j < k);
                    }
                }
                assert forall|i: int| 0 <= i < remaining@.len() implies holds_name(
                    all,
                    (#[trigger] remaining@[i])@,
                ) by {
                    if i < idx {
                        assert(remaining@[i] == old_rem[i]);
                    } else {
                        assert(remaining@[i] == old_rem[i + 1]);
                    }
                }
            },
        }
    }
    (cand, k)
}

/// The directory that candidates for `p` are placed in.
pub open spec fn unique_parent(p: Seq<PartView>) -> Seq<PartView> {
    match parent_of(p) {
        Some(q) => q,
        None => seq![PartView::CurDir],
    }
}

/// The `k`-th candidate name for `base` is the first that `existing` does not
/// hold.
pub open spec fn name_free_at(base: Seq<PartView>, existing: Seq<String>, k: nat) -> bool
    recommends
        file_name_of(base) is Some,
{
    let name = file_name_of(base)->0;
    first_free(existing, name, stem_of(name), ext_of(name), k)
}

/// The `k`-th candidate path for `base`.
pub open spec fn unique_path_at(base: Seq<PartView>, k: nat) -> Seq<PartView> {
    let name = file_name_of(base)->0;
    unique_parent(base).push(PartView::Normal(candidate(name, stem_of(name), ext_of(name), k)))
}

/// A path like `base_path` that `existing`, the names already present in its
/// directory, does not hold: the path itself when it is free, else the first
/// free `stem (n).ext` with `n` from 2 on, beside it. A path without a file
/// name has no other candidate and is returned as it is.
pub fn get_unique_name(base_path: &FsPath, existing: &Vec<String>) -> (r: FsPath)
    requires
        existing@.len() < usize::MAX - 1,
    ensures
        file_name_of(base_path@) is None ==> r@ == base_path@,
        file_name_of(base_path@) is Some ==> exists|k: nat|
            #[trigger] name_free_at(base_path@, existing@, k) && r@ == unique_path_at(base_path@, k),
{
    let name = match base_path.file_name() {
        Some(n) => n,
        None => {
            return base_path.copy();
        },
    };
    let st = stem(name.as_str());
    let ex = extension(name.as_str());
    proof {
        lemma_name_is_stem_and_ext(name@);
    }
    let ext_ref: Option<&str> = match &ex {
        Some(e) => Some(e.as_str()),
        None => None,
    };
    let (free, k) = first_free_name(name.as_str(), st.as_str(), ext_ref, existing);
    let dir = match base_path.parent() {
        Some(p) => p,
        None => FsPath::cur_dir(),
    };
    let r = dir.join_name(free.as_str());
    assert(opt_str_view(ex) == ext_of(name@));
    assert(name_free_at(base_path@, existing@, k as nat));
    r
}

/// The stem that output directories for the archive `file` are named after;
/// empty when it has no file name.
pub open spec fn dir_stem(file: Seq<PartView>) -> Seq<char> {
    match file_stem_of(file) {
        Some(s) => s,
        None => Seq::empty(),
    }
}

/// The `k`-th candidate output directory for the archive `file` is the first
/// that is not taken.
pub open spec fn dir_free_at(file: Seq<PartView>, existing: Seq<String>, k: nat) -> bool {
    first_free(existing, dir_stem(file), dir_stem(file), None, k)
}

/// The `k`-th candidate output directory for the archive `file`.
pub open spec fn output_dir_at(file: Seq<PartView>, k: nat) -> Seq<PartView> {
    unique_parent(file).push(
        PartView::Normal(candidate(dir_stem(file), dir_stem(file), None, k)),
    )
}

/// The directory to extract the archive `file` into: beside it, named after
/// its stem, or `stem (n)` with the first `n` from 2 on that `existing`, the
/// names already present there, does not hold. Without a stem, the name would
/// be the directory itself, so the first free ` (n)` is used.
pub fn generate_output_dir(file: &FsPath, existing: &Vec<String>) -> (r: FsPath)
    requires
        existing@.len() < usize::MAX - 1,
    ensures
        exists|k: nat| #[trigger] dir_free_at(file@, existing@, k) && r@ == output_dir_at(file@, k),
{
    let st = match file.file_stem() {
        Some(s) => s,
        None => String::new(),
    };
    assert(st@ =~= st@ + ext_tail(None));
    let (free, k) = first_free_name(st.as_str(), st.as_str(), None, existing);
    let dir = match file.parent() {
        Some(p) => p,
        None => FsPath::cur_dir(),
    };
    let r = dir.join_name(free.as_str());
    assert(dir_free_at(file@, existing@, k as nat));
    r
}

} // verus!
