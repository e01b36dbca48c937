//! The inputs of one operation as a tree of files and directories, and the
//! total byte size that progress is measured against.

use vstd::prelude::*;
use crate::path::FsPath;

verus! {

/// One input path as found on disk, with what lies beneath it.
#[derive(Debug)]
pub enum InputNode {
    /// A regular file and its length in bytes.
    File { path: FsPath, size: u64 },
    /// A directory and its entries, in the order the directory lists them.
    Dir { path: FsPath, children: Vec<InputNode> },
    /// Anything else: a special file, or a link that would lead into a cycle.
    Other { path: FsPath },
}

/// The number of entries directly beneath a node.
pub open spec fn child_count(n: InputNode) -> nat {
    match n {
        InputNode::Dir { children, .. } => children@.len(),
        _ => 0,
    }
}

/// The bytes of all regular files in and beneath a node.
pub open spec fn node_size(n: InputNode) -> nat
    decreases n, child_count(n) + 1,
{
    match n {
        InputNode::File { size, .. } => size as nat,
        InputNode::Dir { children, .. } => children_size(n, children@.len()),
        InputNode::Other { .. } => 0,
    }
}

/// The bytes beneath the first `k` entries of a directory.
pub open spec fn children_size(n: InputNode, k: nat) -> nat
    decreases n, k,
{
    match n {
        InputNode::Dir { children, .. } => {
            if k == 0 || k > children@.len() {
                0
            } else {
                proof {
                    assert(decreases_to!(n => children));
                    assert(decreases_to!(children => children@));
                    assert(decreases_to!(children@ => children@[k - 1]));
                }
                children_size(n, (k - 1) as nat) + node_size(children@[k - 1])
            }
        },
        _ => 0,
    }
}

/// The bytes of all regular files in and beneath a sequence of inputs.
pub open spec fn inputs_size(s: Seq<InputNode>) -> nat
    decreases s.len(),
{
    if s.len() == 0 {
        0
    } else {
        inputs_size(s.drop_last()) + node_size(s.last())
    }
}

/// The bytes beneath the first entries of a directory grow with their number.
pub proof fn lemma_children_size_grows(n: InputNode, j: nat, k: nat)
    requires
        j <= k <= child_count(n),
    ensures
        children_size(n, j) <= children_size(n, k),
    decreases k,
{
    if j < k {
        lemma_children_size_grows(n, j, (k - 1) as nat);
    }
}

/// The bytes of the first inputs grow with their number.
pub proof fn lemma_inputs_size_grows(s: Seq<InputNode>, j: int)
    requires
        0 <= j <= s.len(),
    ensures
        inputs_size(s.subrange(0, j)) <= inputs_size(s),
    decreases s.len(),
{
    if j < s.len() {
        lemma_inputs_size_grows(s.drop_last(), j);
        assert(s.drop_last().subrange(0, j) =~= s.subrange(0, j));
    } else {
        assert(s.subrange(0, j) =~= s);
    }
}

/// The total size of one input: `None` when it does not fit in 64 bits.
pub fn calculate_path_size(node: &InputNode) -> (r: Option<u64>)
    ensures
        match r {
            Some(t) => t == node_size(*node),
            None => node_size(*node) > u64::MAX,
        },
    decreases node,
{
    match node {
        InputNode::File { size, .. } => Some(*size),
        InputNode::Other { .. } => Some(0),
        InputNode::Dir { children, .. } => {
            let n = children.len();
            let mut total: u64 = 0;
            let mut i: usize = 0;
            while i < n
                invariant
                    *node matches InputNode::Dir { children: c, .. } && c == children,
                    n == children@.len(),
                    i <= n,
                    total == children_size(*node, i as nat),
                decreases n - i,
            {
                proof {
                    assert(decreases_to!(*node => children));
                    assert(decreases_to!(children => children@));
                    assert(decreases_to!(children@ => children@[i as int]));
                }
                match calculate_path_size(&children[i]) {
                    Some(s) => {
                        match total.checked_add(s) {
                            Some(t) => {
                                total = t;
                            },
                            None => {
                                proof {
                                    lemma_children_size_grows(*node, (i + 1) as nat, n as nat);
                                }
                                return None;
                            },
                        }
                    },
                    None => {
                        proof {
                            lemma_children_size_grows(*node, (i + 1) as nat, n as nat);
                        }
                        return None;
                    },
                }
                i = i + 1;
            }
            Some(total)
        },
    }
}

/// The total size of all inputs: `None` when it does not fit in 64 bits.
pub fn calculate_total_size(files: &Vec<InputNode>) -> (r: Option<u64>)
    ensures
        match r {
            Some(t) => t == inputs_size(files@),
            None => inputs_size(files@) > u64::MAX,
        },
{
    let n = files.len();
    let mut total: u64 = 0;
    let mut i: usize = 0;
    while i < n
        invariant
            n == files@.len(),
            i <= n,
            total == inputs_size(files@.subrange(0, i as int)),
        decreases n - i,
    {
        let ghost before = files@.subrange(0, i as int);
        let ghost after = files@.subrange(0, i + 1);
        assert(after.drop_last() =~= before);
        match calculate_path_size(&files[i]) {
            Some(s) => {
                match total.checked_add(s) {
                    Some(t) => {
                        total = t;
                    },
                    None => {
                        proof {
                            lemma_inputs_size_grows(files@, i + 1);
                        }
                        return None;
                    },
                }
            },
            None => {
                proof {
                    lemma_inputs_size_grows(files@, i + 1);
                }
                return None;
            },
        }
        i = i + 1;
    }
    assert(files@.subrange(0, n as int) =~= files@);
    Some(total)
}

/// The lengths of the regular files in and beneath a node, in the order a
/// walk meets them.
pub open spec fn file_lengths(n: InputNode) -> Seq<nat>
    decreases n, child_count(n) + 1,
{
    match n {
        InputNode::File { size, .. } => seq![size as nat],
        InputNode::Dir { children, .. } => children_file_lengths(n, children@.len()),
        InputNode::Other { .. } => Seq::empty(),
    }
}

/// The lengths of the regular files beneath the first `k` entries of a
/// directory.
pub open spec fn children_file_lengths(n: InputNode, k: nat) -> Seq<nat>
    decreases n, k,
{
    match n {
        InputNode::Dir { children, .. } => {
            if k == 0 || k > children@.len() {
                Seq::empty()
            } else {
                proof {
                    assert(decreases_to!(n => children));
                    assert(decreases_to!(children => children@));
                    assert(decreases_to!(children@ => children@[k - 1]));
                }
                children_file_lengths(n, (k - 1) as nat) + file_lengths(children@[k - 1])
            }
        },
        _ => Seq::empty(),
    }
}

/// The lengths of the regular files in and beneath a sequence of inputs.
pub open spec fn inputs_file_lengths(s: Seq<InputNode>) -> Seq<nat>
    decreases s.len(),
{
    if s.len() == 0 {
        Seq::empty()
    } else {
        inputs_file_lengths(s.drop_last()) + file_lengths(s.last())
    }
}

/// The sum of a sequence of lengths.
pub open spec fn sum_of(s: Seq<nat>) -> nat
    decreases s.len(),
{
    if s.len() == 0 {
        0
    } else {
        sum_of(s.drop_last()) + s.last()
    }
}

/// The sum over two sequences one after the other.
pub proof fn lemma_sum_of_concat(a: Seq<nat>, b: Seq<nat>)
    ensures
        sum_of(a + b) == sum_of(a) + sum_of(b),
    decreases b.len(),
{
    if b.len() == 0 {
        assert(a + b =~= a);
    } else {
        lemma_sum_of_concat(a, b.drop_last());
        assert((a + b).drop_last() =~= a + b.drop_last());
    }
}

/// The size of a node is the sum of the lengths of the regular files in and
/// beneath it.
pub proof fn lemma_node_size_is_file_sum(n: InputNode)
    ensures
        node_size(n) == sum_of(file_lengths(n)),
    decreases n, child_count(n) + 1,
{
    match n {
        InputNode::File { size, .. } => {
            let one = seq![size as nat];
            assert(one.drop_last() =~= Seq::<nat>::empty());
            assert(sum_of(Seq::<nat>::empty()) == 0);
            assert(one.last() == size as nat);
            assert(sum_of(one) == size as nat);
        },
        InputNode::Dir { children, .. } => {
            lemma_children_size_is_file_sum(n, children@.len());
        },
        InputNode::Other { .. } => {},
    }
}

/// The bytes beneath a directory's first `k` entries are the sum of the
/// lengths of the regular files there.
pub proof fn lemma_children_size_is_file_sum(n: InputNode, k: nat)
    ensures
        children_size(n, k) == sum_of(children_file_lengths(n, k)),
    decreases n, k,
{
    match n {
        InputNode::Dir { children, .. } => {
            if k > 0 && k <= children@.len() {
                let j = (k - 1) as nat;
                lemma_children_size_is_file_sum(n, j);
                assert(decreases_to!(n => children));
                assert(decreases_to!(children => children@));
                assert(decreases_to!(children@ => children@[j as int]));
                lemma_node_size_is_file_sum(children@[j as int]);
                lemma_sum_of_concat(children_file_lengths(n, j), file_lengths(children@[j as int]));
            }
        },
        _ => {},
    }
}

/// The total size of a set of inputs is the sum of the lengths of all regular
/// files in and beneath them: each regular file input counts its length, and
/// each directory counts every regular file it holds, however deep.
pub proof fn lemma_total_size_is_file_sum(s: Seq<InputNode>)
    ensures
        inputs_size(s) == sum_of(inputs_file_lengths(s)),
    decreases s.len(),
{
    if s.len() > 0 {
        lemma_total_size_is_file_sum(s.drop_last());
        lemma_node_size_is_file_sum(s.last());
        lemma_sum_of_concat(inputs_file_lengths(s.drop_last()), file_lengths(s.last()));
    }
}

} // verus!
