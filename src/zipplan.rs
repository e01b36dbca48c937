//! The plan for writing inputs into a zip archive: each regular file becomes
//! one entry named relative to the common base, with progress reported
//! before each input and after each file.

use vstd::prelude::*;
use crate::engine::{
    before_input, file_name_or_empty, input_path, input_paths, name_or_empty, node_path, node_paths,
    reports_monotone, ends_complete, ArchiveError,
};
use crate::path::{base_dir, base_dir_for, entry_name, entry_name_of, FsPath, PartView};
use crate::progress::{full, percent_le, valid_percent, Percent};
use crate::size::{
    calculate_total_size, child_count, children_size, inputs_size, lemma_children_size_grows,
    lemma_inputs_size_grows, node_size, InputNode,
};

verus! {

/// One step of writing a zip archive.
#[derive(Debug)]
pub enum ZipAction {
    /// Report progress under a name.
    Report { percent: Percent, name: String },
    /// Store the file at `source` as the entry `entry_name`.
    AddFile { source: FsPath, entry_name: String },
}

/// The view of a zip step.
pub enum ZipActionView {
    Report { percent: Percent, name: Seq<char> },
    AddFile { source: Seq<PartView>, entry_name: Seq<char> },
}

impl View for ZipAction {
    type V = ZipActionView;

    open spec fn view(&self) -> ZipActionView {
        match self {
            ZipAction::Report { percent, name } => ZipActionView::Report {
                percent: *percent,
                name: name@,
            },
            ZipAction::AddFile { source, entry_name } => ZipActionView::AddFile {
                source: source@,
                entry_name: entry_name@,
            },
        }
    }
}

/// The views of a list of steps.
pub open spec fn zip_views(v: Seq<ZipAction>) -> Seq<ZipActionView> {
    v.map_values(|a: ZipAction| a@)
}

/// The fraction reported after a file, `done` bytes of `total` in.
pub open spec fn after_file(total: nat, done: nat) -> Percent {
    Percent { num: done as u64, den: total as u64 }
}

/// The steps for one input, `done` bytes of `total` in: a file is stored, and
/// reported when the total is not zero; a directory's entries are walked in
/// order.
pub open spec fn zip_walk(n: InputNode, base: Seq<PartView>, total: nat, done: nat) -> Seq<ZipActionView>
    decreases n, child_count(n) + 1,
{
    match n {
        InputNode::File { path, size } => if total > 0 {
            seq![
                ZipActionView::AddFile { source: path@, entry_name: entry_name_of(path@, base) },
                ZipActionView::Report {
                    percent: after_file(total, (done + size) as nat),
                    name: name_or_empty(path@),
                },
            ]
        } else {
            seq![ZipActionView::AddFile { source: path@, entry_name: entry_name_of(path@, base) }]
        },
        InputNode::Dir { children, .. } => zip_walk_children(n, children@.len(), base, total, done),
        InputNode::Other { .. } => Seq::empty(),
    }
}

/// The steps for the first `k` entries of a directory.
pub open spec fn zip_walk_children(
    n: InputNode,
    k: nat,
    base: Seq<PartView>,
    total: nat,
    done: nat,
) -> Seq<ZipActionView>
    decreases n, k,
{
    match n {
        InputNode::Dir { children, .. } => {
            if k == 0 || k > children@.len() {
                Seq::empty()
            } else {
                proof {
                    assert(decreases_to!(n => children));
                    assert(decreases_to!(children => children@));
                    assert(decreases_to!(children@ => children@[k - 1]));
                }
                zip_walk_children(n, (k - 1) as nat, base, total, done) + zip_walk(
                    children@[k - 1],
                    base,
                    total,
                    (done + children_size(n, (k - 1) as nat)) as nat,
                )
            }
        },
        _ => Seq::empty(),
    }
}

/// The steps for the first `k` inputs: before each input a report, then its
/// walk.
pub open spec fn zip_steps(inputs: Seq<InputNode>, base: Seq<PartView>, total: nat, k: nat) -> Seq<
    ZipActionView,
>
    decreases k,
{
    if k == 0 || k > inputs.len() {
        Seq::empty()
    } else {
        let i = (k - 1) as nat;
        let done = inputs_size(inputs.subrange(0, i as int));
        zip_steps(inputs, base, total, i) + seq![
            ZipActionView::Report {
                percent: before_input(total, done, i, inputs.len()),
                name: name_or_empty(node_path(inputs[i as int])),
            },
        ] + zip_walk(inputs[i as int], base, total, done)
    }
}

/// The whole plan of a zip archive: the steps of every input, entries named
/// relative to the base directory of the inputs, then completion.
pub open spec fn zip_plan(inputs: Seq<InputNode>) -> Seq<ZipActionView> {
    zip_steps(inputs, base_dir(node_paths(inputs)), inputs_size(inputs), inputs.len()) + seq![
        ZipActionView::Report { percent: full(), name: "Complete"@ },
    ]
}

/// Appends the steps for one input, and counts its bytes.
fn walk_zip(node: &InputNode, base: &FsPath, total: u64, done: &mut u64, plan: &mut Vec<ZipAction>)
    requires
        *old(done) + node_size(*node) <= total,
    ensures
        *final(done) == *old(done) + node_size(*node),
        zip_views(final(plan)@) == zip_views(old(plan)@) + zip_walk(
            *node,
            base@,
            total as nat,
            *old(done) as nat,
        ),
    decreases node,
{
    let ghost start_plan = zip_views(plan@);
    let ghost start = *done;
    match node {
        InputNode::File { path, size } => {
            *done = *done + *size;
            plan.push(ZipAction::AddFile { source: path.copy(), entry_name: entry_name(path, base) });
            if total > 0 {
                plan.push(ZipAction::Report { percent: Percent { num: *done, den: total }, name: file_name_or_empty(path) });
            }
            assert(zip_views(plan@) =~= start_plan + zip_walk(*node, base@, total as nat, start as nat));
        },
        InputNode::Other { .. } => {
            assert(zip_views(plan@) =~= start_plan + zip_walk(*node, base@, total as nat, start as nat));
        },
        InputNode::Dir { children, .. } => {
            let n = children.len();
            let mut i: usize = 0;
            assert(zip_views(plan@) =~= start_plan + zip_walk_children(
                *node,
                0,
                base@,
                total as nat,
                start as nat,
            ));
            while i < n
                invariant
                    *node matches InputNode::Dir { children: c, .. } && c == children,
                    n == children@.len(),
                    i <= n,
                    start + node_size(*node) <= total,
                    *done == start + children_size(*node, i as nat),
                    zip_views(plan@) == start_plan + zip_walk_children(
                        *node,
                        i as nat,
                        base@,
                        total as nat,
                        start as nat,
                    ),
                decreases n - i,
            {
                proof {
                    assert(decreases_to!(*node => children));
                    assert(decreases_to!(children => children@));
                    assert(decreases_to!(children@ => children@[i as int]));
                    lemma_children_size_grows(*node, (i + 1) as nat, n as nat);
                }
                let ghost before = zip_views(plan@);
                walk_zip(&children[i], base, total, done, plan);
                assert(zip_views(plan@) =~= start_plan + zip_walk_children(
                    *node,
                    (i + 1) as nat,
                    base@,
                    total as nat,
                    start as nat,
                ));
                i = i + 1;
            }
        },
    }
}

/// The plan for writing `inputs` into a zip archive.
pub fn plan_zip(inputs: &Vec<InputNode>) -> (r: Result<Vec<ZipAction>, ArchiveError>)
    requires
        inputs@.len() <= u64::MAX,
    ensures
        match r {
            Ok(plan) => inputs_size(inputs@) <= u64::MAX && zip_views(plan@) == zip_plan(inputs@),
            Err(e) => e is SizeOverflow && inputs_size(inputs@) > u64::MAX,
        },
{
    let total = match calculate_total_size(inputs) {
        Some(t) => t,
        None => {
            return Err(ArchiveError::SizeOverflow);
        },
    };
    let n = inputs.len();
    let paths = input_paths(inputs);
    let base = base_dir_for(&paths);
    let mut plan: Vec<ZipAction> = Vec::new();
    let mut done: u64 = 0;
    let mut i: usize = 0;
    while i < n
        invariant
            n == inputs@.len(),
            n <= u64::MAX,
            total == inputs_size(inputs@),
            i <= n,
            done == inputs_size(inputs@.subrange(0, i as int)),
            base@ == base_dir(node_paths(inputs@)),
            zip_views(plan@) == zip_steps(inputs@, base@, total as nat, i as nat),
        decreases n - i,
    {
        let ghost before = zip_views(plan@);
        proof {
            lemma_inputs_size_grows(inputs@, i + 1);
            assert(inputs@.subrange(0, i + 1).drop_last() =~= inputs@.subrange(0, i as int));
        }
        let percent = if total > 0 {
            Percent { num: done, den: total }
        } else {
            Percent { num: i as u64, den: n as u64 }
        };
        plan.push(ZipAction::Report { percent, name: file_name_or_empty(input_path(&inputs[i])) });
        let ghost mid = zip_views(plan@);
        assert(mid =~= before + seq![
            ZipActionView::Report {
                percent: before_input(total as nat, done as nat, i as nat, n as nat),
                name: name_or_empty(node_path(inputs@[i as int])),
            },
        ]);
        walk_zip(&inputs[i], &base, total, &mut done, &mut plan);
        assert(zip_views(plan@) =~= zip_steps(inputs@, base@, total as nat, (i + 1) as nat));
        i = i + 1;
    }
    plan.push(ZipAction::Report { percent: Percent::complete(), name: String::from_str("Complete") });
    assert(inputs@.subrange(0, n as int) =~= inputs@);
    assert(zip_views(plan@) =~= zip_plan(inputs@));
    Ok(plan)
}

/// The fractions that a zip plan reports, in order.
pub open spec fn zip_reports(s: Seq<ZipActionView>) -> Seq<Percent>
    decreases s.len(),
{
    if s.len() == 0 {
        Seq::empty()
    } else {
        let rest = zip_reports(s.drop_last());
        match s.last() {
            ZipActionView::Report { percent, .. } => rest.push(percent),
            _ => rest,
        }
    }
}

/// Byte-based reports against `total`, each between `lo` and `hi` bytes, in
/// order.
pub open spec fn reports_in(r: Seq<Percent>, total: nat, lo: nat, hi: nat) -> bool {
    &&& forall|i: int| 0 <= i < r.len() ==> (#[trigger] r[i]).den == total && lo <= r[i].num <= hi
    &&& forall|i: int, j: int| 0 <= i < j < r.len() ==> (#[trigger] r[i]).num <= (#[trigger] r[j]).num
}

/// The reports of two plans one after the other are the reports of the first,
/// then those of the second.
proof fn lemma_zip_reports_concat(a: Seq<ZipActionView>, b: Seq<ZipActionView>)
    ensures
        zip_reports(a + b) == zip_reports(a) + zip_reports(b),
    decreases b.len(),
{
    if b.len() == 0 {
        assert(a + b =~= a);
        assert(zip_reports(a) + zip_reports(b) =~= zip_reports(a));
    } else {
        lemma_zip_reports_concat(a, b.drop_last());
        assert((a + b).drop_last() =~= a + b.drop_last());
        assert((a + b).last() == b.last());
        match b.last() {
            ZipActionView::Report { percent, .. } => {
                assert(zip_reports(a) + zip_reports(b) =~= (zip_reports(a) + zip_reports(
                    b.drop_last(),
                )).push(percent));
            },
            _ => {},
        }
    }
}

/// Ordered reports in two adjacent byte ranges are ordered together.
proof fn lemma_reports_in_concat(
    a: Seq<Percent>,
    b: Seq<Percent>,
    total: nat,
    lo: nat,
    mid: nat,
    hi: nat,
)
    requires
        lo <= mid <= hi,
        reports_in(a, total, lo, mid),
        reports_in(b, total, mid, hi),
    ensures
        reports_in(a + b, total, lo, hi),
{
    let c = a + b;
    assert forall|i: int| 0 <= i < c.len() implies (#[trigger] c[i]).den == total && lo <= c[i].num
        <= hi by {
        if i >= a.len() {
            assert(c[i] == b[i - a.len()]);
        } else {
            assert(c[i] == a[i]);
        }
    }
    assert forall|i: int, j: int| 0 <= i < j < c.len() implies (#[trigger] c[i]).num <= (
    #[trigger] c[j]).num by {
        if j < a.len() {
            assert(c[i] == a[i]);
            assert(c[j] == a[j]);
        } else if i < a.len() {
            assert(c[i] == a[i]);
            assert(c[j] == b[j - a.len()]);
        } else {
            assert(c[i] == b[i - a.len()]);
            assert(c[j] == b[j - a.len()]);
        }
    }
}

/// The reports of one input's walk are ordered and lie within its bytes.
proof fn lemma_walk_reports(n: InputNode, base: Seq<PartView>, total: nat, done: nat)
    requires
        total > 0,
        done + node_size(n) <= total,
        total <= u64::MAX,
    ensures
        reports_in(zip_reports(zip_walk(n, base, total, done)), total, done, done + node_size(n)),
    decreases n, child_count(n) + 1,
{
    match n {
        InputNode::File { path, size } => {
            let w = zip_walk(n, base, total, done);
            let p = after_file(total, (done + size) as nat);
            assert(w.drop_last().drop_last() =~= Seq::<ZipActionView>::empty());
            assert(zip_reports(Seq::<ZipActionView>::empty()) =~= Seq::<Percent>::empty());
            assert(zip_reports(w.drop_last()) =~= Seq::<Percent>::empty());
            assert(zip_reports(w) =~= seq![p]);
        },
        InputNode::Dir { children, .. } => {
            lemma_children_reports(n, children@.len(), base, total, done);
        },
        InputNode::Other { .. } => {
            assert(zip_reports(Seq::<ZipActionView>::empty()) =~= Seq::<Percent>::empty());
        },
    }
}

/// The reports of a directory's first `k` entries are ordered and lie within
/// their bytes.
proof fn lemma_children_reports(n: InputNode, k: nat, base: Seq<PartView>, total: nat, done: nat)
    requires
        total > 0,
        k <= child_count(n),
        done + children_size(n, k) <= total,
        total <= u64::MAX,
    ensures
        reports_in(
            zip_reports(zip_walk_children(n, k, base, total, done)),
            total,
            done,
            done + children_size(n, k),
        ),
    decreases n, k,
{
    match n {
        InputNode::Dir { children, .. } => {
            if k == 0 {
                assert(zip_reports(Seq::<ZipActionView>::empty()) =~= Seq::<Percent>::empty());
            } else {
                let j = (k - 1) as nat;
                lemma_children_size_grows(n, j, k);
                lemma_children_reports(n, j, base, total, done);
                assert(decreases_to!(n => children));
                assert(decreases_to!(children => children@));
                assert(decreases_to!(children@ => children@[j as int]));
                let mid = done + children_size(n, j);
                lemma_walk_reports(children@[j as int], base, total, mid);
                let first = zip_walk_children(n, j, base, total, done);
                let second = zip_walk(children@[j as int], base, total, mid);
                lemma_zip_reports_concat(first, second);
                lemma_reports_in_concat(
                    zip_reports(first),
                    zip_reports(second),
                    total,
                    done,
                    mid,
                    done + children_size(n, k),
                );
            }
        },
        _ => {
            assert(zip_reports(Seq::<ZipActionView>::empty()) =~= Seq::<Percent>::empty());
        },
    }
}

/// The reports of the first `k` inputs are ordered and lie within their
/// bytes.
proof fn lemma_steps_reports(inputs: Seq<InputNode>, base: Seq<PartView>, total: nat, k: nat)
    requires
        total == inputs_size(inputs),
        total > 0,
        total <= u64::MAX,
        k <= inputs.len(),
    ensures
        reports_in(
            zip_reports(zip_steps(inputs, base, total, k)),
            total,
            0,
            inputs_size(inputs.subrange(0, k as int)),
        ),
    decreases k,
{
    if k == 0 {
        assert(zip_reports(Seq::<ZipActionView>::empty()) =~= Seq::<Percent>::empty());
    } else {
        let i = (k - 1) as nat;
        lemma_steps_reports(inputs, base, total, i);
        let done = inputs_size(inputs.subrange(0, i as int));
        assert(inputs.subrange(0, k as int).drop_last() =~= inputs.subrange(0, i as int));
        lemma_inputs_size_grows(inputs, k as int);
        let rep = ZipActionView::Report {
            percent: before_input(total, done, i, inputs.len()),
            name: name_or_empty(node_path(inputs[i as int])),
        };
        let prev = zip_steps(inputs, base, total, i);
        let walk = zip_walk(inputs[i as int], base, total, done);
        lemma_walk_reports(inputs[i as int], base, total, done);
        lemma_zip_reports_concat(prev, seq![rep]);
        lemma_zip_reports_concat(prev + seq![rep], walk);
        assert(seq![rep].drop_last() =~= Seq::<ZipActionView>::empty());
        assert(zip_reports(Seq::<ZipActionView>::empty()) =~= Seq::<Percent>::empty());
        assert(zip_reports(seq![rep]) =~= seq![before_input(total, done, i, inputs.len())]);
        lemma_reports_in_concat(
            zip_reports(prev),
            seq![before_input(total, done, i, inputs.len())],
            total,
            0,
            done,
            done,
        );
        lemma_reports_in_concat(
            zip_reports(prev) + seq![before_input(total, done, i, inputs.len())],
            zip_reports(walk),
            total,
            0,
            done,
            done + node_size(inputs[i as int]),
        );
    }
}

/// With a total of zero, walking an input reports nothing.
proof fn lemma_walk_silent(n: InputNode, base: Seq<PartView>, done: nat)
    ensures
        zip_reports(zip_walk(n, base, 0, done)) == Seq::<Percent>::empty(),
    decreases n, child_count(n) + 1,
{
    assert(zip_reports(Seq::<ZipActionView>::empty()) =~= Seq::<Percent>::empty());
    match n {
        InputNode::File { .. } => {
            let w = zip_walk(n, base, 0, done);
            assert(w.drop_last() =~= Seq::<ZipActionView>::empty());
        },
        InputNode::Dir { children, .. } => {
            lemma_children_silent(n, children@.len(), base, done);
        },
        InputNode::Other { .. } => {},
    }
}

/// With a total of zero, walking a directory's first `k` entries reports
/// nothing.
proof fn lemma_children_silent(n: InputNode, k: nat, base: Seq<PartView>, done: nat)
    ensures
        zip_reports(zip_walk_children(n, k, base, 0, done)) == Seq::<Percent>::empty(),
    decreases n, k,
{
    assert(zip_reports(Seq::<ZipActionView>::empty()) =~= Seq::<Percent>::empty());
    match n {
        InputNode::Dir { children, .. } => {
            if k > 0 && k <= children@.len() {
                let j = (k - 1) as nat;
                lemma_children_silent(n, j, base, done);
                assert(decreases_to!(n => children));
                assert(decreases_to!(children => children@));
                assert(decreases_to!(children@ => children@[j as int]));
                let mid = done + children_size(n, j);
                lemma_walk_silent(children@[j as int], base, mid);
                lemma_zip_reports_concat(
                    zip_walk_children(n, j, base, 0, done),
                    zip_walk(children@[j as int], base, 0, mid),
                );
            }
        },
        _ => {},
    }
}

/// With a total of zero, the first `k` inputs report their place among the
/// inputs, one report each.
proof fn lemma_steps_count_reports(inputs: Seq<InputNode>, base: Seq<PartView>, k: nat)
    requires
        k <= inputs.len(),
    ensures
        zip_reports(zip_steps(inputs, base, 0, k)).len() == k,
        forall|i: int|
            0 <= i < k ==> #[trigger] zip_reports(zip_steps(inputs, base, 0, k))[i] == before_input(
                0,
                inputs_size(inputs.subrange(0, i)),
                i as nat,
                inputs.len(),
            ),
    decreases k,
{
    if k == 0 {
        assert(zip_reports(Seq::<ZipActionView>::empty()) =~= Seq::<Percent>::empty());
    } else {
        let i = (k - 1) as nat;
        lemma_steps_count_reports(inputs, base, i);
        let done = inputs_size(inputs.subrange(0, i as int));
        let rep = ZipActionView::Report {
            percent: before_input(0, done, i, inputs.len()),
            name: name_or_empty(node_path(inputs[i as int])),
        };
        let prev = zip_steps(inputs, base, 0, i);
        let walk = zip_walk(inputs[i as int], base, 0, done);
        lemma_walk_silent(inputs[i as int], base, done);
        lemma_zip_reports_concat(prev, seq![rep]);
        lemma_zip_reports_concat(prev + seq![rep], walk);
        assert(seq![rep].drop_last() =~= Seq::<ZipActionView>::empty());
        assert(zip_reports(Seq::<ZipActionView>::empty()) =~= Seq::<Percent>::empty());
        assert(zip_reports(seq![rep]) =~= seq![before_input(0, done, i, inputs.len())]);
        assert(zip_reports(zip_steps(inputs, base, 0, k)) =~= zip_reports(prev).push(
            before_input(0, done, i, inputs.len()),
        ));
    }
}

/// Progress reported by a zip plan never goes backwards and ends at
/// completion: by bytes when the inputs hold any, else by inputs.
pub proof fn lemma_zip_progress(inputs: Seq<InputNode>)
    requires
        inputs_size(inputs) <= u64::MAX,
        inputs.len() <= u64::MAX,
    ensures
        reports_monotone(zip_reports(zip_plan(inputs))),
        ends_complete(zip_reports(zip_plan(inputs))),
{
    if inputs_size(inputs) == 0 {
        lemma_zip_progress_by_count(inputs);
    } else {
        lemma_zip_progress_by_bytes(inputs);
    }
}

/// With no bytes in the inputs, the reports count inputs, then completion.
proof fn lemma_zip_progress_by_count(inputs: Seq<InputNode>)
    requires
        inputs_size(inputs) == 0,
        inputs.len() <= u64::MAX,
    ensures
        reports_monotone(zip_reports(zip_plan(inputs))),
        ends_complete(zip_reports(zip_plan(inputs))),
{
    let n = inputs.len();
    let base = base_dir(node_paths(inputs));
    let steps = zip_steps(inputs, base, 0, n);
    lemma_steps_count_reports(inputs, base, n);
    let fin = ZipActionView::Report { percent: full(), name: "Complete"@ };
    let plan = steps + seq![fin];
    assert(plan.drop_last() =~= steps);
    let body = zip_reports(steps);
    let reps = zip_reports(plan);
    assert(reps == body.push(full()));
    assert forall|i: int, j: int| 0 <= i < j < reps.len() implies percent_le(
        #[trigger] reps[i],
        #[trigger] reps[j],
    ) by {
        assert(reps[i] == body[i]);
        crate::engine::lemma_before_input_monotone(inputs, 0, i, i);
        if j < body.len() {
            assert(reps[j] == body[j]);
            crate::engine::lemma_before_input_monotone(inputs, 0, i, j);
        } else {
            crate::progress::lemma_below_full(reps[i]);
        }
    }
    assert forall|i: int| 0 <= i < reps.len() implies valid_percent(#[trigger] reps[i]) by {
        if i < body.len() {
            assert(reps[i] == body[i]);
            crate::engine::lemma_before_input_monotone(inputs, 0, i, i);
        }
    }
}

/// With bytes in the inputs, the reports count bytes, then completion.
proof fn lemma_zip_progress_by_bytes(inputs: Seq<InputNode>)
    requires
        inputs_size(inputs) > 0,
        inputs_size(inputs) <= u64::MAX,
    ensures
        reports_monotone(zip_reports(zip_plan(inputs))),
        ends_complete(zip_reports(zip_plan(inputs))),
{
    let total = inputs_size(inputs);
    let base = base_dir(node_paths(inputs));
    let steps = zip_steps(inputs, base, total, inputs.len());
    lemma_steps_reports(inputs, base, total, inputs.len());
    assert(inputs.subrange(0, inputs.len() as int) =~= inputs);
    let fin = ZipActionView::Report { percent: full(), name: "Complete"@ };
    let plan = steps + seq![fin];
    assert(plan.drop_last() =~= steps);
    let body = zip_reports(steps);
    let reps = zip_reports(plan);
    assert(reps == body.push(full()));
    assert forall|i: int, j: int| 0 <= i < j < reps.len() implies percent_le(
        #[trigger] reps[i],
        #[trigger] reps[j],
    ) by {
        assert(reps[i] == body[i]);
        if j < body.len() {
            assert(reps[j] == body[j]);
            let a = body[i].num;
            let b = body[j].num;
            assert(a * total <= b * total) by (nonlinear_arith)
                requires
                    a <= b,
            ;
        } else {
            crate::progress::lemma_below_full(reps[i]);
        }
    }
    assert forall|i: int| 0 <= i < reps.len() implies valid_percent(#[trigger] reps[i]) by {
        if i < body.len() {
            assert(reps[i] == body[i]);
        }
    }
}

} // verus!
