//! Decision trees exported as a list of nodes that name their children by id,
//! the format of the tree JSON that the guest evaluates.
use vstd::prelude::*;
use crate::float_bits::{f64_le, f64_bits_le};
use crate::counting::lemma_walk_repeats;
use std::collections::HashMap;

verus! {

/// A node of an id-linked decision tree. A node without a feature is a leaf
/// whose first row of `value` holds the class probabilities; any other node
/// sends a sample whose feature `feature` is at most `threshold` to the node
/// with id `left`, and any other sample to the node with id `right`.
/// Thresholds and probabilities are binary64 numbers held by their bit
/// patterns.
#[derive(Debug)]
pub struct TreeNode {
    pub id: usize,
    pub feature: Option<usize>,
    pub threshold: Option<u64>,
    pub left: Option<usize>,
    pub right: Option<usize>,
    pub value: Vec<Vec<u64>>,
}

/// The largest id among the first `k` nodes, or 0.
pub open spec fn max_id(nodes: Seq<TreeNode>, k: nat) -> usize
    decreases k,
{
    if k == 0 {
        0
    } else if nodes[k - 1].id > max_id(nodes, (k - 1) as nat) {
        nodes[k - 1].id
    } else {
        max_id(nodes, (k - 1) as nat)
    }
}

/// The last position among the first `k` nodes of a node with id `id`.
pub open spec fn last_position(nodes: Seq<TreeNode>, id: usize, k: nat) -> Option<nat>
    decreases k,
{
    if k == 0 {
        None
    } else if nodes[k - 1].id == id {
        Some((k - 1) as nat)
    } else {
        last_position(nodes, id, (k - 1) as nat)
    }
}

/// The entry of the id index for `id`: the position of the last node with
/// that id, or `usize::MAX` when no node has it.
pub open spec fn index_entry(nodes: Seq<TreeNode>, id: usize, k: nat) -> usize {
    match last_position(nodes, id, k) {
        Some(p) => p as usize,
        None => usize::MAX,
    }
}

proof fn lemma_max_id_prefix(nodes: Seq<TreeNode>, k: nat)
    requires
        k <= nodes.len(),
    ensures
        forall|i: int| 0 <= i < k ==> nodes[i].id <= max_id(nodes, k),
    decreases k,
{
    if k > 0 {
        lemma_max_id_prefix(nodes, (k - 1) as nat);
    }
}

proof fn lemma_last_position_bound(nodes: Seq<TreeNode>, id: usize, k: nat)
    ensures
        last_position(nodes, id, k) matches Some(p) ==> p < k && nodes[p as int].id == id,
    decreases k,
{
    if k > 0 {
        lemma_last_position_bound(nodes, id, (k - 1) as nat);
    }
}

proof fn lemma_last_position_exists(nodes: Seq<TreeNode>, i: int, k: nat)
    requires
        0 <= i < k,
    ensures
        last_position(nodes, nodes[i].id, k) is Some,
    decreases k,
{
    if k - 1 != i && nodes[k - 1].id != nodes[i].id {
        lemma_last_position_exists(nodes, i, (k - 1) as nat);
    }
}

proof fn lemma_max_id_is_an_id(nodes: Seq<TreeNode>, k: nat)
    requires
        k <= nodes.len(),
    ensures
        max_id(nodes, k) == 0 || exists|i: int| 0 <= i < k && (#[trigger] nodes[i]).id == max_id(nodes, k),
    decreases k,
{
    if k > 0 {
        lemma_max_id_is_an_id(nodes, (k - 1) as nat);
    }
}

/// The id index sends the id of every node to a node with that id.
pub proof fn lemma_id_index_consistent(nodes: Seq<TreeNode>, i: int)
    requires
        0 <= i < nodes.len(),
        nodes.len() <= usize::MAX,
    ensures
        index_entry(nodes, nodes[i].id, nodes.len()) < nodes.len(),
        nodes[index_entry(nodes, nodes[i].id, nodes.len()) as int].id == nodes[i].id,
{
    lemma_last_position_exists(nodes, i, nodes.len());
    lemma_last_position_bound(nodes, nodes[i].id, nodes.len());
}

/// Builds the dense map from node id to the position of the node with that id
/// (the last one, when ids repeat); ids that no node has map to `usize::MAX`.
pub fn build_id_index(nodes: &Vec<TreeNode>) -> (map: Vec<usize>)
    requires
        max_id(nodes@, nodes@.len()) < usize::MAX,
    ensures
        map@.len() == max_id(nodes@, nodes@.len()) + 1,
        forall|id: int| 0 <= id < map@.len() ==> #[trigger] map@[id] == index_entry(nodes@, id as usize, nodes@.len()),
{
    let n = nodes.len();
    let mut max: usize = 0;
    let mut i: usize = 0;
    while i < n
        invariant
            n == nodes@.len(),
            i <= n,
            max == max_id(nodes@, i as nat),
        decreases n - i,
    {
        if nodes[i].id > max {
            max = nodes[i].id;
        }
        i = i + 1;
    }
    let size = max + 1;
    let mut map: Vec<usize> = Vec::new();
    let mut j: usize = 0;
    while j < size
        invariant
            j <= size,
            map@.len() == j,
            forall|k: int| 0 <= k < j ==> map@[k] == usize::MAX,
        decreases size - j,
    {
        map.push(usize::MAX);
        j = j + 1;
    }
    proof {
        lemma_max_id_prefix(nodes@, nodes@.len());
    }
    let mut idx: usize = 0;
    while idx < n
        invariant
            n == nodes@.len(),
            idx <= n,
            map@.len() == size,
            size == max_id(nodes@, n as nat) + 1,
            forall|i: int| 0 <= i < n ==> nodes@[i].id <= max_id(nodes@, n as nat),
            forall|id: int| 0 <= id < size ==> #[trigger] map@[id] == index_entry(nodes@, id as usize, idx as nat),
        decreases n - idx,
    {
        let id = nodes[idx].id;
        map.set(id, idx);
        idx = idx + 1;
    }
    map
}

/// Builds the id index unless some node has the id `usize::MAX`, for which
/// the index would need more than `usize::MAX` entries; `None` exactly then.
pub fn try_build_id_index(nodes: &Vec<TreeNode>) -> (r: Option<Vec<usize>>)
    ensures
        r is None <==> max_id(nodes@, nodes@.len()) == usize::MAX,
        r matches Some(map) ==> map@.len() == max_id(nodes@, nodes@.len()) + 1,
        r matches Some(map) ==> forall|id: int| 0 <= id < map@.len() ==> #[trigger] map@[id] == index_entry(nodes@, id as usize, nodes@.len()),
{
    let mut i: usize = 0;
    while i < nodes.len()
        invariant
            i <= nodes@.len(),
            forall|j: int| 0 <= j < i ==> (#[trigger] nodes@[j]).id != usize::MAX,
        decreases nodes@.len() - i,
    {
        if nodes[i].id == usize::MAX {
            proof {
                lemma_max_id_prefix(nodes@, nodes@.len());
            }
            return None;
        }
        i = i + 1;
    }
    proof {
        lemma_max_id_is_an_id(nodes@, nodes@.len());
    }
    Some(build_id_index(nodes))
}

/// The probabilities that the walk from the node with id `cur` reaches within
/// `fuel` nodes, or `None` when it needs more nodes or meets an unknown id, a
/// node without the data it needs, or a feature that the sample lacks.
pub open spec fn traverse_steps(nodes: Seq<TreeNode>, index: Seq<usize>, x: Seq<u64>, cur: usize, fuel: nat) -> Option<Seq<u64>>
    decreases fuel,
{
    if fuel == 0 || cur >= index.len() || index[cur as int] == usize::MAX || index[cur as int] >= nodes.len() {
        None
    } else {
        let node = nodes[index[cur as int] as int];
        match node.feature {
            None => if node.value@.len() > 0 {
                Some(node.value@[0]@)
            } else {
                None
            },
            Some(f) => match node.threshold {
                None => None,
                Some(thr) => if f >= x.len() {
                    None
                } else {
                    let next = if f64_le(x[f as int], thr) {
                        node.left
                    } else {
                        node.right
                    };
                    match next {
                        None => None,
                        Some(child) => traverse_steps(nodes, index, x, child, (fuel - 1) as nat),
                    }
                },
            },
        }
    }
}

/// More fuel never changes a walk that already finished.
pub proof fn lemma_traverse_steps_monotone(nodes: Seq<TreeNode>, index: Seq<usize>, x: Seq<u64>, cur: usize, fuel: nat, more: nat)
    requires
        traverse_steps(nodes, index, x, cur, fuel) is Some,
        fuel <= more,
    ensures
        traverse_steps(nodes, index, x, cur, more) == traverse_steps(nodes, index, x, cur, fuel),
    decreases fuel,
{
    let node = nodes[index[cur as int] as int];
    if node.feature is Some {
        let f = node.feature->0;
        let thr = node.threshold->0;
        let next = if f64_le(x[f as int], thr) { node.left } else { node.right };
        lemma_traverse_steps_monotone(nodes, index, x, next->0, (fuel - 1) as nat, (more - 1) as nat);
    }
}

/// The walk from the node with id 0 reaches a leaf.
pub open spec fn traversal_terminates(nodes: Seq<TreeNode>, index: Seq<usize>, x: Seq<u64>) -> bool {
    exists|fuel: nat| #[trigger] traverse_steps(nodes, index, x, 0, fuel) is Some
}

/// The probabilities of the leaf that the walk from the node with id 0 reaches.
pub open spec fn traversal_result(nodes: Seq<TreeNode>, index: Seq<usize>, x: Seq<u64>) -> Seq<u64> {
    traverse_steps(nodes, index, x, 0, choose|fuel: nat| #[trigger] traverse_steps(nodes, index, x, 0, fuel) is Some)->0
}

/// Every amount of fuel with which the walk finishes gives the same leaf.
pub proof fn lemma_traversal_result_unique(nodes: Seq<TreeNode>, index: Seq<usize>, x: Seq<u64>, fuel: nat)
    requires
        traverse_steps(nodes, index, x, 0, fuel) is Some,
    ensures
        traversal_terminates(nodes, index, x),
        traverse_steps(nodes, index, x, 0, fuel) == Some(traversal_result(nodes, index, x)),
{
    let f = choose|f: nat| #[trigger] traverse_steps(nodes, index, x, 0, f) is Some;
    if f <= fuel {
        lemma_traverse_steps_monotone(nodes, index, x, 0, f, fuel);
    } else {
        lemma_traverse_steps_monotone(nodes, index, x, 0, fuel, f);
    }
}

/// Walks the tree from the node with id 0, resolving ids through `id_index`,
/// and returns the first row of probabilities of the leaf it reaches.
pub fn traverse_tree(nodes: &Vec<TreeNode>, id_index: &Vec<usize>, x: &[u64]) -> (r: Vec<u64>)
    requires
        traversal_terminates(nodes@, id_index@, x@),
    ensures
        r@ == traversal_result(nodes@, id_index@, x@),
{
    let ghost total = choose|f: nat| #[trigger] traverse_steps(nodes@, id_index@, x@, 0, f) is Some;
    let ghost mut fuel: nat = total;
    let mut current_id: usize = 0;
    loop
        invariant
            traverse_steps(nodes@, id_index@, x@, current_id, fuel) == traverse_steps(nodes@, id_index@, x@, 0, total),
            traverse_steps(nodes@, id_index@, x@, 0, total) is Some,
            total == choose|f: nat| #[trigger] traverse_steps(nodes@, id_index@, x@, 0, f) is Some,
        decreases fuel,
    {
        let idx = id_index[current_id];
        let node = &nodes[idx];
        match node.feature {
            None => {
                return node.value[0].clone();
            },
            Some(feat) => {
                let thr = match node.threshold {
                    Some(t) => t,
                    None => {
                        proof {
                            assert(false);
                        }
                        0
                    },
                };
                let xf = x[feat];
                let next = if f64_bits_le(xf, thr) {
                    node.left
                } else {
                    node.right
                };
                match next {
                    Some(child) => {
                        current_id = child;
                    },
                    None => {
                        proof {
                            assert(false);
                        }
                    },
                }
            },
        }
        proof {
            fuel = (fuel - 1) as nat;
        }
    }
}


/// Node id `cur` resolves to a node that is not a leaf, has its threshold,
/// tests a feature that the sample has, and names the child the sample goes to.
pub open spec fn traverse_internal(nodes: Seq<TreeNode>, index: Seq<usize>, x: Seq<u64>, cur: usize) -> bool {
    &&& cur < index.len()
    &&& index[cur as int] != usize::MAX
    &&& index[cur as int] < nodes.len()
    &&& nodes[index[cur as int] as int].feature matches Some(f) && f < x.len()
    &&& nodes[index[cur as int] as int].threshold is Some
    &&& traverse_next(nodes, index, x, cur) is Some
}

/// The id of the child that node id `cur` sends the sample to.
pub open spec fn traverse_next(nodes: Seq<TreeNode>, index: Seq<usize>, x: Seq<u64>, cur: usize) -> Option<usize> {
    let node = nodes[index[cur as int] as int];
    if f64_le(x[node.feature->0 as int], node.threshold->0) {
        node.left
    } else {
        node.right
    }
}

/// The id of the `k`-th node that the walk from id 0 visits.
pub open spec fn traverse_walk(nodes: Seq<TreeNode>, index: Seq<usize>, x: Seq<u64>, k: nat) -> usize
    decreases k,
{
    if k == 0 {
        0
    } else {
        traverse_next(nodes, index, x, traverse_walk(nodes, index, x, (k - 1) as nat))->0
    }
}

proof fn lemma_traverse_prefix(nodes: Seq<TreeNode>, index: Seq<usize>, x: Seq<u64>, fuel: nat, k: nat)
    requires
        k <= fuel,
        forall|t: nat| t < k ==> traverse_internal(nodes, index, x, #[trigger] traverse_walk(nodes, index, x, t)),
    ensures
        traverse_steps(nodes, index, x, 0, fuel) == traverse_steps(nodes, index, x, traverse_walk(nodes, index, x, k), (fuel - k) as nat),
    decreases k,
{
    if k > 0 {
        lemma_traverse_prefix(nodes, index, x, fuel, (k - 1) as nat);
        assert(traverse_internal(nodes, index, x, traverse_walk(nodes, index, x, (k - 1) as nat)));
    }
}

proof fn lemma_traverse_shortcut(nodes: Seq<TreeNode>, index: Seq<usize>, x: Seq<u64>, fuel: nat, k: nat)
    requires
        traverse_steps(nodes, index, x, 0, fuel) is Some,
        fuel > index.len(),
        k <= index.len() + 1,
        forall|t: nat| t < k ==> traverse_internal(nodes, index, x, #[trigger] traverse_walk(nodes, index, x, t)),
    ensures
        traverse_steps(nodes, index, x, 0, index.len()) is Some,
    decreases fuel, index.len() + 1 - k,
{
    let n = index.len();
    if k <= n && traverse_internal(nodes, index, x, traverse_walk(nodes, index, x, k)) {
        lemma_traverse_shortcut(nodes, index, x, fuel, k + 1);
        return;
    }
    if k <= n {
        lemma_traverse_prefix(nodes, index, x, fuel, k);
        let w = traverse_walk(nodes, index, x, k);
        assert(w < n && nodes[index[w as int] as int].feature is None);
        if k < n {
            lemma_traverse_prefix(nodes, index, x, k + 1, k);
            lemma_traverse_steps_monotone(nodes, index, x, 0, k + 1, n);
            return;
        }
    }
    let f = |t: int| traverse_walk(nodes, index, x, t as nat) as int;
    assert forall|t: int| 0 <= t <= n implies 0 <= #[trigger] f(t) < n by {
        if t < k {
            assert(traverse_internal(nodes, index, x, traverse_walk(nodes, index, x, t as nat)));
        }
    }
    lemma_walk_repeats(f, n);
    let (i, j) = choose|i: int, j: int| 0 <= i < j <= n && #[trigger] f(i) == #[trigger] f(j);
    assert(forall|t: nat| t < j ==> traverse_internal(nodes, index, x, #[trigger] traverse_walk(nodes, index, x, t)));
    lemma_traverse_prefix(nodes, index, x, fuel, j as nat);
    let shorter = (fuel - (j - i)) as nat;
    lemma_traverse_prefix(nodes, index, x, shorter, i as nat);
    assert(f(i) == f(j));
    assert(traverse_steps(nodes, index, x, 0, shorter) is Some);
    if shorter <= n {
        lemma_traverse_steps_monotone(nodes, index, x, 0, shorter, n);
    } else {
        lemma_traverse_shortcut(nodes, index, x, shorter, 0);
    }
}

/// A walk that reaches a leaf at all reaches it within as many nodes as the
/// index has ids: a longer walk visits some id twice and would then cycle for
/// ever.
pub proof fn lemma_traversal_within_id_count(nodes: Seq<TreeNode>, index: Seq<usize>, x: Seq<u64>)
    requires
        traversal_terminates(nodes, index, x),
    ensures
        traverse_steps(nodes, index, x, 0, index.len()) is Some,
{
    let fuel = choose|fuel: nat| #[trigger] traverse_steps(nodes, index, x, 0, fuel) is Some;
    if fuel <= index.len() {
        lemma_traverse_steps_monotone(nodes, index, x, 0, fuel, index.len());
    } else {
        lemma_traverse_shortcut(nodes, index, x, fuel, 0);
    }
}

/// Walks the tree from the node with id 0 for at most as many nodes as the
/// index has ids; `None` when that walk does not reach a leaf.
pub fn try_traverse_tree(nodes: &Vec<TreeNode>, id_index: &Vec<usize>, x: &[u64]) -> (r: Option<Vec<u64>>)
    ensures
        r matches Some(v) ==> traverse_steps(nodes@, id_index@, x@, 0, id_index@.len()) == Some(v@),
        r is None ==> traverse_steps(nodes@, id_index@, x@, 0, id_index@.len()) is None,
        r matches Some(v) ==> traversal_terminates(nodes@, id_index@, x@) && v@ == traversal_result(nodes@, id_index@, x@),
        r is None ==> !traversal_terminates(nodes@, id_index@, x@),
{
    let ghost budget: nat = id_index@.len();
    let mut remaining: usize = id_index.len();
    let mut current_id: usize = 0;
    while remaining > 0
        invariant
            traverse_steps(nodes@, id_index@, x@, current_id, remaining as nat) == traverse_steps(nodes@, id_index@, x@, 0, budget),
            budget == id_index@.len(),
        decreases remaining,
    {
        if current_id >= id_index.len() {
            proof {
                if traversal_terminates(nodes@, id_index@, x@) {
                    lemma_traversal_within_id_count(nodes@, id_index@, x@);
                }
            }
            return None;
        }
        let idx = id_index[current_id];
        if idx == usize::MAX || idx >= nodes.len() {
            proof {
                if traversal_terminates(nodes@, id_index@, x@) {
                    lemma_traversal_within_id_count(nodes@, id_index@, x@);
                }
            }
            return None;
        }
        let node = &nodes[idx];
        match node.feature {
            None => {
                if node.value.len() == 0 {
                    proof {
                if traversal_terminates(nodes@, id_index@, x@) {
                    lemma_traversal_within_id_count(nodes@, id_index@, x@);
                }
            }
            return None;
                }
                proof {
                    lemma_traversal_result_unique(nodes@, id_index@, x@, budget);
                }
                return Some(node.value[0].clone());
            },
            Some(feat) => {
                let thr = match node.threshold {
                    Some(t) => t,
                    None => {
                        proof {
                if traversal_terminates(nodes@, id_index@, x@) {
                    lemma_traversal_within_id_count(nodes@, id_index@, x@);
                }
            }
            return None;
                    },
                };
                if feat >= x.len() {
                    proof {
                if traversal_terminates(nodes@, id_index@, x@) {
                    lemma_traversal_within_id_count(nodes@, id_index@, x@);
                }
            }
            return None;
                }
                let next = if f64_bits_le(x[feat], thr) {
                    node.left
                } else {
                    node.right
                };
                match next {
                    Some(child) => {
                        current_id = child;
                    },
                    None => {
                        proof {
                if traversal_terminates(nodes@, id_index@, x@) {
                    lemma_traversal_within_id_count(nodes@, id_index@, x@);
                }
            }
            return None;
                    },
                }
            },
        }
        remaining = remaining - 1;
    }
    proof {
        if traversal_terminates(nodes@, id_index@, x@) {
            lemma_traversal_within_id_count(nodes@, id_index@, x@);
        }
    }
    None
}

/// The map after inserting, for each of the first `k` nodes in order, its id
/// with its position: a later node replaces an earlier one with the same id.
pub open spec fn id_map_of(nodes: Seq<TreeNode>, k: nat) -> Map<usize, usize>
    decreases k,
{
    if k == 0 {
        Map::empty()
    } else {
        id_map_of(nodes, (k - 1) as nat).insert(nodes[k - 1].id, (k - 1) as usize)
    }
}

/// Maps each node id to the position of the (last) node with that id.
pub fn build_id_map(nodes: &Vec<TreeNode>) -> (m: HashMap<usize, usize>)
    ensures
        m@ == id_map_of(nodes@, nodes@.len()),
{
    let mut m: HashMap<usize, usize> = HashMap::new();
    let mut i: usize = 0;
    while i < nodes.len()
        invariant
            i <= nodes@.len(),
            m@ == id_map_of(nodes@, i as nat),
        decreases nodes@.len() - i,
    {
        m.insert(nodes[i].id, i);
        i = i + 1;
    }
    m
}

/// The probabilities that the lenient walk from the node with id `cur`
/// reaches within `fuel` nodes. The lenient walk reads a missing threshold or
/// a feature that the sample lacks as `0.0`, and a leaf without rows as an
/// empty row; it fails (`None`) on an unknown id or a missing child.
pub open spec fn default_steps(nodes: Seq<TreeNode>, index: Map<usize, usize>, x: Seq<u64>, cur: usize, fuel: nat) -> Option<Seq<u64>>
    decreases fuel,
{
    if fuel == 0 || !index.contains_key(cur) || index[cur] >= nodes.len() {
        None
    } else {
        let node = nodes[index[cur] as int];
        match node.feature {
            None => Some(if node.value@.len() > 0 { node.value@[0]@ } else { Seq::empty() }),
            Some(f) => {
                let thr: u64 = match node.threshold {
                    Some(t) => t,
                    None => 0,
                };
                let xf: u64 = if f < x.len() { x[f as int] } else { 0 };
                let next = if f64_le(xf, thr) {
                    node.left
                } else {
                    node.right
                };
                match next {
                    None => None,
                    Some(child) => default_steps(nodes, index, x, child, (fuel - 1) as nat),
                }
            },
        }
    }
}

/// More fuel never changes a lenient walk that already finished.
pub proof fn lemma_default_steps_monotone(nodes: Seq<TreeNode>, index: Map<usize, usize>, x: Seq<u64>, cur: usize, fuel: nat, more: nat)
    requires
        default_steps(nodes, index, x, cur, fuel) is Some,
        fuel <= more,
    ensures
        default_steps(nodes, index, x, cur, more) == default_steps(nodes, index, x, cur, fuel),
    decreases fuel,
{
    let node = nodes[index[cur] as int];
    if node.feature is Some {
        let f = node.feature->0;
        let thr: u64 = match node.threshold {
            Some(t) => t,
            None => 0,
        };
        let xf: u64 = if f < x.len() { x[f as int] } else { 0 };
        let next = if f64_le(xf, thr) { node.left } else { node.right };
        lemma_default_steps_monotone(nodes, index, x, next->0, (fuel - 1) as nat, (more - 1) as nat);
    }
}

/// The lenient walk from the node with id 0 reaches a leaf.
pub open spec fn default_walk_terminates(nodes: Seq<TreeNode>, index: Map<usize, usize>, x: Seq<u64>) -> bool {
    exists|fuel: nat| #[trigger] default_steps(nodes, index, x, 0, fuel) is Some
}

/// The probabilities of the leaf that the lenient walk reaches.
pub open spec fn default_walk_result(nodes: Seq<TreeNode>, index: Map<usize, usize>, x: Seq<u64>) -> Seq<u64> {
    default_steps(nodes, index, x, 0, choose|fuel: nat| #[trigger] default_steps(nodes, index, x, 0, fuel) is Some)->0
}

/// The id of the child that the lenient walk goes to from node id `cur`.
pub open spec fn default_next(nodes: Seq<TreeNode>, index: Map<usize, usize>, x: Seq<u64>, cur: usize) -> Option<usize> {
    let node = nodes[index[cur] as int];
    let thr: u64 = match node.threshold {
        Some(t) => t,
        None => 0,
    };
    let f = node.feature->0;
    let xf: u64 = if f < x.len() { x[f as int] } else { 0 };
    if f64_le(xf, thr) {
        node.left
    } else {
        node.right
    }
}

/// Node id `cur` resolves to a node that is not a leaf and names the child
/// that the lenient walk goes to.
pub open spec fn default_internal(nodes: Seq<TreeNode>, index: Map<usize, usize>, x: Seq<u64>, cur: usize) -> bool {
    &&& index.contains_key(cur)
    &&& index[cur] < nodes.len()
    &&& nodes[index[cur] as int].feature is Some
    &&& default_next(nodes, index, x, cur) is Some
}

/// The id of the `k`-th node that the lenient walk from id 0 visits.
pub open spec fn default_walk(nodes: Seq<TreeNode>, index: Map<usize, usize>, x: Seq<u64>, k: nat) -> usize
    decreases k,
{
    if k == 0 {
        0
    } else {
        default_next(nodes, index, x, default_walk(nodes, index, x, (k - 1) as nat))->0
    }
}

proof fn lemma_default_prefix(nodes: Seq<TreeNode>, index: Map<usize, usize>, x: Seq<u64>, fuel: nat, k: nat)
    requires
        k <= fuel,
        forall|t: nat| t < k ==> default_internal(nodes, index, x, #[trigger] default_walk(nodes, index, x, t)),
    ensures
        default_steps(nodes, index, x, 0, fuel) == default_steps(nodes, index, x, default_walk(nodes, index, x, k), (fuel - k) as nat),
    decreases k,
{
    if k > 0 {
        lemma_default_prefix(nodes, index, x, fuel, (k - 1) as nat);
        assert(default_internal(nodes, index, x, default_walk(nodes, index, x, (k - 1) as nat)));
    }
}

proof fn lemma_default_shortcut(nodes: Seq<TreeNode>, index: Map<usize, usize>, x: Seq<u64>, fuel: nat, k: nat)
    requires
        default_steps(nodes, index, x, 0, fuel) is Some,
        fuel > nodes.len(),
        k <= nodes.len() + 1,
        forall|t: nat| t < k ==> default_internal(nodes, index, x, #[trigger] default_walk(nodes, index, x, t)),
    ensures
        default_steps(nodes, index, x, 0, nodes.len()) is Some,
    decreases fuel, nodes.len() + 1 - k,
{
    let n = nodes.len();
    if k <= n && default_internal(nodes, index, x, default_walk(nodes, index, x, k)) {
        lemma_default_shortcut(nodes, index, x, fuel, k + 1);
        return;
    }
    if k <= n {
        lemma_default_prefix(nodes, index, x, fuel, k);
        let w = default_walk(nodes, index, x, k);
        assert(index.contains_key(w) && index[w] < n && nodes[index[w] as int].feature is None);
        if k < n {
            lemma_default_prefix(nodes, index, x, k + 1, k);
            lemma_default_steps_monotone(nodes, index, x, 0, k + 1, n);
            return;
        }
    }
    // The positions of the nodes visited up to step `n` repeat.
    let f = |t: int| index[default_walk(nodes, index, x, t as nat)] as int;
    assert forall|t: int| 0 <= t <= n implies 0 <= #[trigger] f(t) < n by {
        if t < k {
            assert(default_internal(nodes, index, x, default_walk(nodes, index, x, t as nat)));
        }
    }
    lemma_walk_repeats(f, n);
    let (i, j) = choose|i: int, j: int| 0 <= i < j <= n && #[trigger] f(i) == #[trigger] f(j);
    assert(default_internal(nodes, index, x, default_walk(nodes, index, x, i as nat)));
    assert(j < n || default_internal(nodes, index, x, default_walk(nodes, index, x, j as nat)));
    assert(default_internal(nodes, index, x, default_walk(nodes, index, x, j as nat)));
    assert(forall|t: nat| t <= j ==> default_internal(nodes, index, x, #[trigger] default_walk(nodes, index, x, t)));
    lemma_default_prefix(nodes, index, x, fuel, (j + 1) as nat);
    let shorter = (fuel - (j - i)) as nat;
    lemma_default_prefix(nodes, index, x, shorter, (i + 1) as nat);
    assert(default_walk(nodes, index, x, (i + 1) as nat) == default_walk(nodes, index, x, (j + 1) as nat));
    assert(default_steps(nodes, index, x, 0, shorter) is Some);
    if shorter <= n {
        lemma_default_steps_monotone(nodes, index, x, 0, shorter, n);
    } else {
        lemma_default_shortcut(nodes, index, x, shorter, 0);
    }
}

/// A lenient walk that reaches a leaf at all reaches it within as many nodes
/// as the tree has: a longer walk visits some node twice and would then cycle
/// for ever.
pub proof fn lemma_default_walk_within_node_count(nodes: Seq<TreeNode>, index: Map<usize, usize>, x: Seq<u64>)
    requires
        default_walk_terminates(nodes, index, x),
    ensures
        default_steps(nodes, index, x, 0, nodes.len()) is Some,
{
    let fuel = choose|fuel: nat| #[trigger] default_steps(nodes, index, x, 0, fuel) is Some;
    if fuel <= nodes.len() {
        lemma_default_steps_monotone(nodes, index, x, 0, fuel, nodes.len());
    } else {
        lemma_default_shortcut(nodes, index, x, fuel, 0);
    }
}

/// Walks the tree leniently from the node with id 0 for at most as many nodes
/// as the tree has; `None` exactly when the lenient walk never reaches a leaf.
pub fn try_predict_with_defaults(nodes: &Vec<TreeNode>, id_index: &HashMap<usize, usize>, x: &[u64]) -> (r: Option<Vec<u64>>)
    ensures
        r is None <==> !default_walk_terminates(nodes@, id_index@, x@),
        r matches Some(v) ==> v@ == default_walk_result(nodes@, id_index@, x@),
{
    let ghost budget: nat = nodes@.len();
    let mut remaining: usize = nodes.len();
    let mut current_id: usize = 0;
    while remaining > 0
        invariant
            default_steps(nodes@, id_index@, x@, current_id, remaining as nat) == default_steps(nodes@, id_index@, x@, 0, budget),
            budget == nodes@.len(),
        decreases remaining,
    {
        let idx = match id_index.get(&current_id) {
            Some(i) => *i,
            None => {
                proof {
                    if default_walk_terminates(nodes@, id_index@, x@) {
                        lemma_default_walk_within_node_count(nodes@, id_index@, x@);
                    }
                }
                return None;
            },
        };
        if idx >= nodes.len() {
            proof {
                if default_walk_terminates(nodes@, id_index@, x@) {
                    lemma_default_walk_within_node_count(nodes@, id_index@, x@);
                }
            }
            return None;
        }
        let node = &nodes[idx];
        match node.feature {
            None => {
                proof {
                    lemma_default_result_unique(nodes@, id_index@, x@, budget);
                }
                if node.value.len() > 0 {
                    return Some(node.value[0].clone());
                } else {
                    return Some(Vec::new());
                }
            },
            Some(f) => {
                let thr: u64 = match node.threshold {
                    Some(t) => t,
                    None => 0,
                };
                let xf: u64 = if f < x.len() { x[f] } else { 0 };
                let next = if f64_bits_le(xf, thr) {
                    node.left
                } else {
                    node.right
                };
                match next {
                    Some(child) => {
                        current_id = child;
                    },
                    None => {
                        proof {
                            if default_walk_terminates(nodes@, id_index@, x@) {
                                lemma_default_walk_within_node_count(nodes@, id_index@, x@);
                            }
                        }
                        return None;
                    },
                }
            },
        }
        remaining = remaining - 1;
    }
    proof {
        if default_walk_terminates(nodes@, id_index@, x@) {
            lemma_default_walk_within_node_count(nodes@, id_index@, x@);
        }
    }
    None
}

/// Every amount of fuel with which the lenient walk finishes gives the same
/// leaf.
pub proof fn lemma_default_result_unique(nodes: Seq<TreeNode>, index: Map<usize, usize>, x: Seq<u64>, fuel: nat)
    requires
        default_steps(nodes, index, x, 0, fuel) is Some,
    ensures
        default_walk_terminates(nodes, index, x),
        default_steps(nodes, index, x, 0, fuel) == Some(default_walk_result(nodes, index, x)),
{
    let f = choose|f: nat| #[trigger] default_steps(nodes, index, x, 0, f) is Some;
    if f <= fuel {
        lemma_default_steps_monotone(nodes, index, x, 0, f, fuel);
    } else {
        lemma_default_steps_monotone(nodes, index, x, 0, fuel, f);
    }
}

/// Walks the tree leniently from the node with id 0, resolving ids through
/// `id_index`, and returns the first row of the leaf it reaches.
pub fn predict_with_defaults(nodes: &Vec<TreeNode>, id_index: &HashMap<usize, usize>, x: &[u64]) -> (r: Vec<u64>)
    requires
        default_walk_terminates(nodes@, id_index@, x@),
    ensures
        r@ == default_walk_result(nodes@, id_index@, x@),
{
    let ghost total = choose|f: nat| #[trigger] default_steps(nodes@, id_index@, x@, 0, f) is Some;
    let ghost mut fuel: nat = total;
    let mut current_id: usize = 0;
    loop
        invariant
            default_steps(nodes@, id_index@, x@, current_id, fuel) == default_steps(nodes@, id_index@, x@, 0, total),
            default_steps(nodes@, id_index@, x@, 0, total) is Some,
            total == choose|f: nat| #[trigger] default_steps(nodes@, id_index@, x@, 0, f) is Some,
        decreases fuel,
    {
        let idx = match id_index.get(&current_id) {
            Some(i) => *i,
            None => {
                proof {
                    assert(false);
                }
                return Vec::new();
            },
        };
        let node = &nodes[idx];
        match node.feature {
            None => {
                if node.value.len() > 0 {
                    return node.value[0].clone();
                } else {
                    return Vec::new();
                }
            },
            Some(f) => {
                let thr: u64 = match node.threshold {
                    Some(t) => t,
                    None => 0,
                };
                let xf: u64 = if f < x.len() { x[f] } else { 0 };
                let next = if f64_bits_le(xf, thr) {
                    node.left
                } else {
                    node.right
                };
                match next {
                    Some(child) => {
                        current_id = child;
                    },
                    None => {
                        proof {
                            assert(false);
                        }
                        return Vec::new();
                    },
                }
            },
        }
        proof {
            fuel = (fuel - 1) as nat;
        }
    }
}

/// At a node that tests feature `f` of the sample against its threshold, the
/// walk continues at the left child exactly when `x[f]` is at most the
/// threshold as binary64 numbers (`f64` `<=`), and at the right child
/// otherwise, NaN included.
pub proof fn lemma_traverse_goes_left_iff_le(nodes: Seq<TreeNode>, index: Seq<usize>, x: Seq<u64>, cur: usize, fuel: nat)
    requires
        cur < index.len(),
        index[cur as int] < nodes.len(),
        index[cur as int] != usize::MAX,
        nodes[index[cur as int] as int].feature matches Some(f) && f < x.len(),
        nodes[index[cur as int] as int].threshold is Some,
    ensures
        ({
            let node = nodes[index[cur as int] as int];
            f64_le(x[node.feature->0 as int], node.threshold->0) && node.left is Some
                ==> traverse_steps(nodes, index, x, cur, fuel + 1) == traverse_steps(nodes, index, x, node.left->0, fuel)
        }),
        ({
            let node = nodes[index[cur as int] as int];
            !f64_le(x[node.feature->0 as int], node.threshold->0) && node.right is Some
                ==> traverse_steps(nodes, index, x, cur, fuel + 1) == traverse_steps(nodes, index, x, node.right->0, fuel)
        }),
{
}

/// The lenient walk decides as the strict one: at a node that tests feature
/// `f` against its threshold, it continues at the left child exactly when
/// `x[f]` is at most the threshold as binary64 numbers, and at the right
/// child otherwise.
pub proof fn lemma_default_goes_left_iff_le(nodes: Seq<TreeNode>, index: Map<usize, usize>, x: Seq<u64>, cur: usize, fuel: nat)
    requires
        index.contains_key(cur),
        index[cur] < nodes.len(),
        nodes[index[cur] as int].feature matches Some(f) && f < x.len(),
        nodes[index[cur] as int].threshold is Some,
    ensures
        ({
            let node = nodes[index[cur] as int];
            f64_le(x[node.feature->0 as int], node.threshold->0) && node.left is Some
                ==> default_steps(nodes, index, x, cur, fuel + 1) == default_steps(nodes, index, x, node.left->0, fuel)
        }),
        ({
            let node = nodes[index[cur] as int];
            !f64_le(x[node.feature->0 as int], node.threshold->0) && node.right is Some
                ==> default_steps(nodes, index, x, cur, fuel + 1) == default_steps(nodes, index, x, node.right->0, fuel)
        }),
{
}

} // verus!
