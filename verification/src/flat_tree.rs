//! Decision trees stored as a flat array of fixed-size node records: the
//! binary model format that the tree guest receives and evaluates.
use vstd::prelude::*;
use crate::float_bits::{f32_le, f32_bits_le};
use crate::counting::lemma_walk_repeats;

verus! {

/// Size in bytes of one little-endian node record: feature index, threshold,
/// left child, right child and class label, four bytes each.
pub const NODE_SIZE: usize = 20;

/// A node of a flat decision tree. A node whose `class_label` is not `-1` is a
/// leaf; any other node sends a sample whose feature `feature_index` is at
/// most the threshold to node `left`, and any other sample to node `right`.
/// The threshold is a binary32 number, held by its bit pattern.
#[derive(Debug, Clone, Copy, PartialEq, Eq, Structural)]
pub struct Node {
    pub feature_index: u32,
    pub threshold_bits: u32,
    pub left: i32,
    pub right: i32,
    pub class_label: i32,
}

/// The little-endian 32-bit value of the four bytes of `b` from `off` on.
pub open spec fn le_u32(b: Seq<u8>, off: int) -> u32 {
    (b[off] + b[off + 1] * 0x100 + b[off + 2] * 0x1_0000 + b[off + 3] * 0x100_0000) as u32
}

/// The node whose record starts at byte `off` of `b`.
pub open spec fn decode_node(b: Seq<u8>, off: int) -> Node {
    Node {
        feature_index: le_u32(b, off),
        threshold_bits: le_u32(b, off + 4),
        left: le_u32(b, off + 8) as i32,
        right: le_u32(b, off + 12) as i32,
        class_label: le_u32(b, off + 16) as i32,
    }
}

fn read_le_u32(b: &[u8], off: usize) -> (r: u32)
    requires
        off + 4 <= b@.len(),
    ensures
        r == le_u32(b@, off as int),
{
    let v: u32 = b[off] as u32 + (b[off + 1] as u32) * 0x100 + (b[off + 2] as u32) * 0x1_0000 + (b[off + 3] as u32) * 0x100_0000;
    v
}

/// Splits `raw_bytes` into records of `NODE_SIZE` bytes (a shorter tail is
/// ignored) and decodes each record into a node.
pub fn parse_nodes_from_raw(raw_bytes: &[u8]) -> (nodes: Vec<Node>)
    ensures
        nodes@.len() == raw_bytes@.len() / 20,
        forall|i: int| 0 <= i < nodes@.len() ==> #[trigger] nodes@[i] == decode_node(raw_bytes@, 20 * i),
{
    let count = raw_bytes.len() / NODE_SIZE;
    let mut nodes: Vec<Node> = Vec::new();
    let mut i: usize = 0;
    while i < count
        invariant
            count == raw_bytes@.len() / 20,
            raw_bytes@.len() == raw_bytes.len(),
            i <= count,
            nodes@.len() == i,
            forall|j: int| 0 <= j < i ==> #[trigger] nodes@[j] == decode_node(raw_bytes@, 20 * j),
        decreases count - i,
    {
        assert(i * 20 + 20 <= raw_bytes@.len()) by (nonlinear_arith)
            requires
                i < count,
                count == raw_bytes@.len() / 20,
        ;
        let off: usize = i * 20;
        assert(off == 20 * i);
        let feature_index = read_le_u32(raw_bytes, off);
        let threshold_bits = read_le_u32(raw_bytes, off + 4);
        let left_raw = read_le_u32(raw_bytes, off + 8);
        let right_raw = read_le_u32(raw_bytes, off + 12);
        let label_raw = read_le_u32(raw_bytes, off + 16);
        let left: i32 = #[verifier::truncate] (left_raw as i32);
        let right: i32 = #[verifier::truncate] (right_raw as i32);
        let class_label: i32 = #[verifier::truncate] (label_raw as i32);
        nodes.push(Node { feature_index, threshold_bits, left, right, class_label });
        i = i + 1;
    }
    nodes
}

/// The index of the node that node `n` sends `sample` to.
pub open spec fn next_index(n: Node, sample: Seq<u32>) -> int {
    if f32_le(sample[n.feature_index as int], n.threshold_bits) {
        (n.left as usize) as int
    } else {
        (n.right as usize) as int
    }
}

/// The class that the walk from node `idx` reaches within `fuel` nodes, or
/// `None` when it needs more nodes or reads outside the node list or the
/// sample.
pub open spec fn eval_steps(nodes: Seq<Node>, sample: Seq<u32>, idx: int, fuel: nat) -> Option<i32>
    decreases fuel,
{
    if fuel == 0 || !(0 <= idx < nodes.len()) {
        None
    } else if nodes[idx].class_label != -1 {
        Some(nodes[idx].class_label)
    } else if nodes[idx].feature_index >= sample.len() {
        None
    } else {
        eval_steps(nodes, sample, next_index(nodes[idx], sample), (fuel - 1) as nat)
    }
}

/// The walk from the root reaches a leaf, reading only inside the node list
/// and the sample.
pub open spec fn walk_terminates(nodes: Seq<Node>, sample: Seq<u32>) -> bool {
    exists|fuel: nat| #[trigger] eval_steps(nodes, sample, 0, fuel) is Some
}

/// The class that the walk from the root reaches.
pub open spec fn tree_class(nodes: Seq<Node>, sample: Seq<u32>) -> i32 {
    eval_steps(nodes, sample, 0, choose|fuel: nat| #[trigger] eval_steps(nodes, sample, 0, fuel) is Some)->0
}

/// A finished walk ends at a leaf: its class is never `-1`.
pub proof fn lemma_eval_steps_reaches_leaf(nodes: Seq<Node>, sample: Seq<u32>, idx: int, fuel: nat)
    ensures
        eval_steps(nodes, sample, idx, fuel) matches Some(c) ==> c != -1,
    decreases fuel,
{
    if fuel > 0 && 0 <= idx < nodes.len() && nodes[idx].class_label == -1 && nodes[idx].feature_index < sample.len() {
        lemma_eval_steps_reaches_leaf(nodes, sample, next_index(nodes[idx], sample), (fuel - 1) as nat);
    }
}

/// More fuel never changes a walk that already finished.
pub proof fn lemma_eval_steps_monotone(nodes: Seq<Node>, sample: Seq<u32>, idx: int, fuel: nat, more: nat)
    requires
        eval_steps(nodes, sample, idx, fuel) is Some,
        fuel <= more,
    ensures
        eval_steps(nodes, sample, idx, more) == eval_steps(nodes, sample, idx, fuel),
    decreases fuel,
{
    if nodes[idx].class_label != -1 {
    } else {
        lemma_eval_steps_monotone(nodes, sample, next_index(nodes[idx], sample), (fuel - 1) as nat, (more - 1) as nat);
    }
}

/// Every amount of fuel with which the walk finishes gives the same class.
pub proof fn lemma_tree_class_unique(nodes: Seq<Node>, sample: Seq<u32>, fuel: nat)
    requires
        eval_steps(nodes, sample, 0, fuel) is Some,
    ensures
        walk_terminates(nodes, sample),
        eval_steps(nodes, sample, 0, fuel) == Some(tree_class(nodes, sample)),
{
    let f = choose|f: nat| #[trigger] eval_steps(nodes, sample, 0, f) is Some;
    if f <= fuel {
        lemma_eval_steps_monotone(nodes, sample, 0, f, fuel);
    } else {
        lemma_eval_steps_monotone(nodes, sample, 0, fuel, f);
    }
}

/// The index of the `k`-th node that the walk from the root visits.
pub open spec fn walk_index(nodes: Seq<Node>, sample: Seq<u32>, k: nat) -> int
    decreases k,
{
    if k == 0 {
        0
    } else {
        next_index(nodes[walk_index(nodes, sample, (k - 1) as nat)], sample)
    }
}

/// Node `idx` exists, is not a leaf and tests a feature that the sample has.
pub open spec fn valid_internal(nodes: Seq<Node>, sample: Seq<u32>, idx: int) -> bool {
    &&& 0 <= idx < nodes.len()
    &&& nodes[idx].class_label == -1
    &&& nodes[idx].feature_index < sample.len()
}

proof fn lemma_walk_prefix(nodes: Seq<Node>, sample: Seq<u32>, fuel: nat, k: nat)
    requires
        k <= fuel,
        forall|t: nat| t < k ==> valid_internal(nodes, sample, #[trigger] walk_index(nodes, sample, t)),
    ensures
        eval_steps(nodes, sample, 0, fuel) == eval_steps(nodes, sample, walk_index(nodes, sample, k), (fuel - k) as nat),
    decreases k,
{
    if k > 0 {
        lemma_walk_prefix(nodes, sample, fuel, (k - 1) as nat);
        assert(valid_internal(nodes, sample, walk_index(nodes, sample, (k - 1) as nat)));
    }
}

proof fn lemma_walk_shortcut(nodes: Seq<Node>, sample: Seq<u32>, fuel: nat, k: nat)
    requires
        eval_steps(nodes, sample, 0, fuel) is Some,
        fuel > nodes.len(),
        k <= nodes.len() + 1,
        forall|t: nat| t < k ==> valid_internal(nodes, sample, #[trigger] walk_index(nodes, sample, t)),
    ensures
        eval_steps(nodes, sample, 0, nodes.len()) is Some,
    decreases fuel, nodes.len() + 1 - k,
{
    let n = nodes.len();
    if k <= n && valid_internal(nodes, sample, walk_index(nodes, sample, k)) {
        lemma_walk_shortcut(nodes, sample, fuel, k + 1);
        return;
    }
    if k <= n {
        lemma_walk_prefix(nodes, sample, fuel, k);
        let w = walk_index(nodes, sample, k);
        assert(0 <= w < n && nodes[w].class_label != -1);
        if k < n {
            lemma_walk_prefix(nodes, sample, k + 1, k);
            lemma_eval_steps_monotone(nodes, sample, 0, k + 1, n);
            return;
        }
    }
    // Every position up to `n` lies in the node list: some node repeats.
    let f = |t: int| walk_index(nodes, sample, t as nat);
    assert forall|t: int| 0 <= t <= n implies 0 <= #[trigger] f(t) < n by {
        if t < k {
            assert(valid_internal(nodes, sample, walk_index(nodes, sample, t as nat)));
        }
    }
    lemma_walk_repeats(f, n);
    let (i, j) = choose|i: int, j: int| 0 <= i < j <= n && #[trigger] f(i) == #[trigger] f(j);
    assert(forall|t: nat| t < j ==> valid_internal(nodes, sample, #[trigger] walk_index(nodes, sample, t)));
    lemma_walk_prefix(nodes, sample, fuel, j as nat);
    let shorter = (fuel - (j - i)) as nat;
    lemma_walk_prefix(nodes, sample, shorter, i as nat);
    assert(f(i) == f(j));
    assert(eval_steps(nodes, sample, 0, shorter) is Some);
    if shorter <= n {
        lemma_eval_steps_monotone(nodes, sample, 0, shorter, n);
    } else {
        lemma_walk_shortcut(nodes, sample, shorter, 0);
    }
}

/// A walk that reaches a leaf at all reaches it within as many nodes as the
/// tree has: a longer walk visits some node twice and, being deterministic,
/// would then cycle for ever.
pub proof fn lemma_walk_within_node_count(nodes: Seq<Node>, sample: Seq<u32>)
    requires
        walk_terminates(nodes, sample),
    ensures
        eval_steps(nodes, sample, 0, nodes.len()) is Some,
{
    let fuel = choose|fuel: nat| #[trigger] eval_steps(nodes, sample, 0, fuel) is Some;
    if fuel <= nodes.len() {
        lemma_eval_steps_monotone(nodes, sample, 0, fuel, nodes.len());
    } else {
        lemma_walk_shortcut(nodes, sample, fuel, 0);
    }
}

/// Walks the tree from node 0 to a leaf and returns its class label.
pub fn eval_tree(sample: &[u32; 4], nodes: &Vec<Node>) -> (r: i32)
    requires
        walk_terminates(nodes@, sample@),
    ensures
        r == tree_class(nodes@, sample@),
        r != -1,
{
    let ghost total = choose|f: nat| #[trigger] eval_steps(nodes@, sample@, 0, f) is Some;
    let ghost mut fuel: nat = total;
    let mut idx: usize = 0;
    loop
        invariant
            eval_steps(nodes@, sample@, idx as int, fuel) == eval_steps(nodes@, sample@, 0, total),
            eval_steps(nodes@, sample@, 0, total) is Some,
            total == choose|f: nat| #[trigger] eval_steps(nodes@, sample@, 0, f) is Some,
        decreases fuel,
    {
        let node = nodes[idx];
        if node.class_label != -1 {
            proof {
                lemma_eval_steps_reaches_leaf(nodes@, sample@, 0, total);
            }
            return node.class_label;
        }
        let feat_idx = node.feature_index as usize;
        if f32_bits_le(sample[feat_idx], node.threshold_bits) {
            idx = node.left as usize;
        } else {
            idx = node.right as usize;
        }
        proof {
            fuel = (fuel - 1) as nat;
        }
    }
}

/// Walks the tree from node 0 for at most as many nodes as the tree has;
/// `None` when that walk does not reach a leaf inside the node list and the
/// sample.
pub fn try_eval_tree(sample: &[u32; 4], nodes: &Vec<Node>) -> (r: Option<i32>)
    ensures
        r == eval_steps(nodes@, sample@, 0, nodes@.len()),
        r matches Some(c) ==> walk_terminates(nodes@, sample@) && c == tree_class(nodes@, sample@),
        r is None ==> !walk_terminates(nodes@, sample@),
{
    let ghost budget: nat = nodes@.len();
    let mut remaining: usize = nodes.len();
    let mut idx: usize = 0;
    while remaining > 0
        invariant
            eval_steps(nodes@, sample@, idx as int, remaining as nat) == eval_steps(nodes@, sample@, 0, budget),
            budget == nodes@.len(),
        decreases remaining,
    {
        if idx >= nodes.len() {
            proof {
                if walk_terminates(nodes@, sample@) {
                    lemma_walk_within_node_count(nodes@, sample@);
                }
            }
            return None;
        }
        let node = nodes[idx];
        if node.class_label != -1 {
            proof {
                lemma_tree_class_unique(nodes@, sample@, budget);
            }
            return Some(node.class_label);
        }
        let feat_idx = node.feature_index as usize;
        if feat_idx >= 4 {
            proof {
                if walk_terminates(nodes@, sample@) {
                    lemma_walk_within_node_count(nodes@, sample@);
                }
            }
            return None;
        }
        if f32_bits_le(sample[feat_idx], node.threshold_bits) {
            idx = node.left as usize;
        } else {
            idx = node.right as usize;
        }
        remaining = remaining - 1;
    }
    proof {
        if walk_terminates(nodes@, sample@) {
            lemma_walk_within_node_count(nodes@, sample@);
        }
    }
    None
}

/// At a node that is not a leaf and tests a feature the sample has, the walk
/// continues at the left child exactly when that feature is at most the
/// threshold as binary32 numbers (`f32` `<=`), and at the right child
/// otherwise, NaN included.
pub proof fn lemma_walk_goes_left_iff_le(nodes: Seq<Node>, sample: Seq<u32>, idx: int, fuel: nat)
    requires
        0 <= idx < nodes.len(),
        nodes[idx].class_label == -1,
        nodes[idx].feature_index < sample.len(),
    ensures
        f32_le(sample[nodes[idx].feature_index as int], nodes[idx].threshold_bits)
            ==> eval_steps(nodes, sample, idx, fuel + 1) == eval_steps(nodes, sample, (nodes[idx].left as usize) as int, fuel),
        !f32_le(sample[nodes[idx].feature_index as int], nodes[idx].threshold_bits)
            ==> eval_steps(nodes, sample, idx, fuel + 1) == eval_steps(nodes, sample, (nodes[idx].right as usize) as int, fuel),
{
}

/// A node whose class label is not `-1` is a leaf: the walk that reaches it
/// stops there with that class, whatever the sample.
pub proof fn lemma_walk_stops_at_leaf(nodes: Seq<Node>, sample: Seq<u32>, idx: int, fuel: nat)
    requires
        0 <= idx < nodes.len(),
        nodes[idx].class_label != -1,
    ensures
        eval_steps(nodes, sample, idx, fuel + 1) == Some(nodes[idx].class_label),
{
}

} // verus!
