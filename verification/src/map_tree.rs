//! Decision trees held in a map from node id to node, evaluated by following
//! the ids from the root down to a leaf and returning the most probable class.
use vstd::prelude::*;
use std::collections::HashMap;
use crate::float_bits::{f32_le, f32_bits_le, f32_bits_is_nan, f32_is_nan};
use crate::counting::lemma_walk_repeats_in_set;
use crate::argmax::{f32_row_has_nan, argmax_f32_upto, argmax_f32_bits, f32_row_comparable, lemma_argmax_f32_is_last_maximum};

verus! {

/// A node of the tree. A node without a feature is a leaf whose first row of
/// `value` holds one score per class; any other node sends a sample whose
/// feature `feature` is at most `threshold` to the node with id `left`, and any
/// other sample to the node with id `right`. Thresholds and scores are
/// binary32 numbers held by their bit patterns.
#[derive(Debug)]
pub struct Node {
    pub id: usize,
    pub feature: Option<usize>,
    pub threshold: Option<u32>,
    pub left: Option<usize>,
    pub right: Option<usize>,
    pub value: Option<Vec<Vec<u32>>>,
}

/// The map after inserting the first `k` nodes in order under their ids: a
/// later node replaces an earlier one with the same id.
pub open spec fn tree_map_of(nodes: Seq<Node>, k: nat) -> Map<usize, Node>
    decreases k,
{
    if k == 0 {
        Map::empty()
    } else {
        tree_map_of(nodes, (k - 1) as nat).insert(nodes[k - 1].id, nodes[k - 1])
    }
}

/// Inserts every node into a map under its id, in order.
pub fn build_tree_map(nodes: Vec<Node>) -> (tree: HashMap<usize, Node>)
    ensures
        tree@ == tree_map_of(nodes@, nodes@.len()),
{
    let ghost all = nodes@;
    let mut tree: HashMap<usize, Node> = HashMap::new();
    let ghost n = all.len();
    let mut pending = nodes;
    let mut rest: Vec<Node> = Vec::new();
    while pending.len() > 0
        invariant
            n == all.len(),
            pending@ == all.subrange(0, pending@.len() as int),
            rest@.len() == n - pending@.len(),
            forall|i: int| 0 <= i < rest@.len() ==> #[trigger] rest@[i] == all[n - 1 - i],
        decreases pending@.len(),
    {
        let node = pending.pop().unwrap();
        rest.push(node);
    }
    while rest.len() > 0
        invariant
            n == all.len(),
            rest@.len() <= n,
            forall|i: int| 0 <= i < rest@.len() ==> #[trigger] rest@[i] == all[n - 1 - i],
            tree@ == tree_map_of(all, (n - rest@.len()) as nat),
        decreases rest@.len(),
    {
        let node = rest.pop().unwrap();
        let id = node.id;
        tree.insert(id, node);
    }
    tree
}

/// The class that the walk from the node with id `id` reaches within `fuel`
/// nodes, or `None` when it needs more nodes, meets an unknown id or a node
/// without the data it needs, reads a feature that the sample lacks, or meets
/// a leaf whose scores cannot be compared.
pub open spec fn predict_steps(tree: Map<usize, Node>, features: Seq<u32>, id: usize, fuel: nat) -> Option<nat>
    decreases fuel,
{
    if fuel == 0 || !tree.contains_key(id) {
        None
    } else {
        let node = tree[id];
        match node.feature {
            None => match node.value {
                None => None,
                Some(rows) => if rows@.len() == 0 || rows@[0]@.len() == 0 || !f32_row_comparable(rows@[0]@) {
                    None
                } else {
                    Some(argmax_f32_upto(rows@[0]@, rows@[0]@.len()))
                },
            },
            Some(f) => match node.threshold {
                None => None,
                Some(thr) => if f >= features.len() {
                    None
                } else {
                    let next = if f32_le(features[f as int], thr) {
                        node.left
                    } else {
                        node.right
                    };
                    match next {
                        None => None,
                        Some(child) => predict_steps(tree, features, child, (fuel - 1) as nat),
                    }
                },
            },
        }
    }
}

/// More fuel never changes a walk that already finished.
pub proof fn lemma_predict_steps_monotone(tree: Map<usize, Node>, features: Seq<u32>, id: usize, fuel: nat, more: nat)
    requires
        predict_steps(tree, features, id, fuel) is Some,
        fuel <= more,
    ensures
        predict_steps(tree, features, id, more) == predict_steps(tree, features, id, fuel),
    decreases fuel,
{
    let node = tree[id];
    if node.feature is Some {
        let f = node.feature->0;
        let thr = node.threshold->0;
        let next = if f32_le(features[f as int], thr) { node.left } else { node.right };
        lemma_predict_steps_monotone(tree, features, next->0, (fuel - 1) as nat, (more - 1) as nat);
    }
}

/// The walk from `node_id` reaches a leaf with comparable scores.
pub open spec fn prediction_terminates(tree: Map<usize, Node>, features: Seq<u32>, node_id: usize) -> bool {
    exists|fuel: nat| #[trigger] predict_steps(tree, features, node_id, fuel) is Some
}

/// The class that the walk from `node_id` reaches.
pub open spec fn predicted_class(tree: Map<usize, Node>, features: Seq<u32>, node_id: usize) -> nat {
    predict_steps(tree, features, node_id, choose|fuel: nat| #[trigger] predict_steps(tree, features, node_id, fuel) is Some)->0
}

/// Walks from the node with id `node_id` to a leaf and returns the index of
/// its highest score (the last one among equal highest scores).
pub fn predict(tree: &HashMap<usize, Node>, features: &[u32], node_id: usize) -> (r: usize)
    requires
        prediction_terminates(tree@, features@, node_id),
    ensures
        r == predicted_class(tree@, features@, node_id),
{
    let ghost total = choose|f: nat| #[trigger] predict_steps(tree@, features@, node_id, f) is Some;
    let ghost mut fuel: nat = total;
    let mut id: usize = node_id;
    loop
        invariant
            predict_steps(tree@, features@, id, fuel) == predict_steps(tree@, features@, node_id, total),
            predict_steps(tree@, features@, node_id, total) is Some,
            total == choose|f: nat| #[trigger] predict_steps(tree@, features@, node_id, f) is Some,
        decreases fuel,
    {
        let node = match tree.get(&id) {
            Some(n) => n,
            None => {
                proof {
                    assert(false);
                }
                return 0;
            },
        };
        match node.feature {
            None => {
                match &node.value {
                    Some(rows) => {
                        let row = &rows[0];
                        let row_len = row.len();
                        match argmax_f32_bits(row) {
                            Some(best) => {
                                proof {
                                    lemma_argmax_f32_is_last_maximum(row@, row@.len());
                                    assert(row_len == row@.len());
                                }
                                return best;
                            },
                            None => {
                                proof {
                                    assert(false);
                                }
                                return 0;
                            },
                        }
                    },
                    None => {
                        proof {
                            assert(false);
                        }
                        return 0;
                    },
                }
            },
            Some(feature_idx) => {
                let threshold = match node.threshold {
                    Some(t) => t,
                    None => {
                        proof {
                            assert(false);
                        }
                        return 0;
                    },
                };
                let next = if f32_bits_le(features[feature_idx], threshold) {
                    node.left
                } else {
                    node.right
                };
                match next {
                    Some(child) => {
                        id = child;
                    },
                    None => {
                        proof {
                            assert(false);
                        }
                        return 0;
                    },
                }
            },
        }
        proof {
            fuel = (fuel - 1) as nat;
        }
    }
}


/// Every amount of fuel with which the walk finishes gives the same class.
pub proof fn lemma_predicted_class_unique(tree: Map<usize, Node>, features: Seq<u32>, node_id: usize, fuel: nat)
    requires
        predict_steps(tree, features, node_id, fuel) is Some,
    ensures
        prediction_terminates(tree, features, node_id),
        predict_steps(tree, features, node_id, fuel) == Some(predicted_class(tree, features, node_id)),
{
    let f = choose|f: nat| #[trigger] predict_steps(tree, features, node_id, f) is Some;
    if f <= fuel {
        lemma_predict_steps_monotone(tree, features, node_id, f, fuel);
    } else {
        lemma_predict_steps_monotone(tree, features, node_id, fuel, f);
    }
}

/// The id of the child that node `id` sends the sample to.
pub open spec fn predict_next(tree: Map<usize, Node>, features: Seq<u32>, id: usize) -> Option<usize> {
    let node = tree[id];
    if f32_le(features[node.feature->0 as int], node.threshold->0) {
        node.left
    } else {
        node.right
    }
}

/// Node `id` exists, is not a leaf, has its threshold, tests a feature that
/// the sample has and names the child the sample goes to.
pub open spec fn predict_internal(tree: Map<usize, Node>, features: Seq<u32>, id: usize) -> bool {
    &&& tree.contains_key(id)
    &&& tree[id].feature matches Some(f) && f < features.len()
    &&& tree[id].threshold is Some
    &&& predict_next(tree, features, id) is Some
}

/// The id of the `k`-th node of the walk from `node_id`.
pub open spec fn predict_walk(tree: Map<usize, Node>, features: Seq<u32>, node_id: usize, k: nat) -> usize
    decreases k,
{
    if k == 0 {
        node_id
    } else {
        predict_next(tree, features, predict_walk(tree, features, node_id, (k - 1) as nat))->0
    }
}

proof fn lemma_predict_prefix(tree: Map<usize, Node>, features: Seq<u32>, node_id: usize, fuel: nat, k: nat)
    requires
        k <= fuel,
        forall|t: nat| t < k ==> predict_internal(tree, features, #[trigger] predict_walk(tree, features, node_id, t)),
    ensures
        predict_steps(tree, features, node_id, fuel) == predict_steps(tree, features, predict_walk(tree, features, node_id, k), (fuel - k) as nat),
    decreases k,
{
    if k > 0 {
        lemma_predict_prefix(tree, features, node_id, fuel, (k - 1) as nat);
        assert(predict_internal(tree, features, predict_walk(tree, features, node_id, (k - 1) as nat)));
    }
}

proof fn lemma_predict_shortcut(tree: Map<usize, Node>, features: Seq<u32>, node_id: usize, fuel: nat, k: nat)
    requires
        tree.dom().finite(),
        predict_steps(tree, features, node_id, fuel) is Some,
        fuel > tree.len(),
        k <= tree.len() + 1,
        forall|t: nat| t < k ==> predict_internal(tree, features, #[trigger] predict_walk(tree, features, node_id, t)),
    ensures
        predict_steps(tree, features, node_id, tree.len()) is Some,
    decreases fuel, tree.len() + 1 - k,
{
    let n = tree.len();
    if k <= n && predict_internal(tree, features, predict_walk(tree, features, node_id, k)) {
        lemma_predict_shortcut(tree, features, node_id, fuel, k + 1);
        return;
    }
    if k <= n {
        lemma_predict_prefix(tree, features, node_id, fuel, k);
        let w = predict_walk(tree, features, node_id, k);
        assert(tree.contains_key(w) && tree[w].feature is None);
        if k < n {
            lemma_predict_prefix(tree, features, node_id, k + 1, k);
            lemma_predict_steps_monotone(tree, features, node_id, k + 1, n);
            return;
        }
    }
    let f = |t: int| predict_walk(tree, features, node_id, t as nat);
    assert forall|t: int| 0 <= t <= n implies tree.dom().contains(#[trigger] f(t)) by {
        if t < k {
            assert(predict_internal(tree, features, predict_walk(tree, features, node_id, t as nat)));
        }
    }
    lemma_walk_repeats_in_set(f, tree.dom(), n);
    let (i, j) = choose|i: int, j: int| 0 <= i < j <= n && #[trigger] f(i) == #[trigger] f(j);
    assert(forall|t: nat| t < j ==> predict_internal(tree, features, #[trigger] predict_walk(tree, features, node_id, t)));
    lemma_predict_prefix(tree, features, node_id, fuel, j as nat);
    let shorter = (fuel - (j - i)) as nat;
    lemma_predict_prefix(tree, features, node_id, shorter, i as nat);
    assert(f(i) == f(j));
    assert(predict_steps(tree, features, node_id, shorter) is Some);
    if shorter <= n {
        lemma_predict_steps_monotone(tree, features, node_id, shorter, n);
    } else {
        lemma_predict_shortcut(tree, features, node_id, shorter, 0);
    }
}

/// A walk that reaches a leaf at all reaches it within as many nodes as the
/// map holds: a longer walk visits some id twice and would then cycle for
/// ever.
pub proof fn lemma_prediction_within_node_count(tree: Map<usize, Node>, features: Seq<u32>, node_id: usize)
    requires
        tree.dom().finite(),
        prediction_terminates(tree, features, node_id),
    ensures
        predict_steps(tree, features, node_id, tree.len()) is Some,
{
    let fuel = choose|fuel: nat| #[trigger] predict_steps(tree, features, node_id, fuel) is Some;
    if fuel <= tree.len() {
        lemma_predict_steps_monotone(tree, features, node_id, fuel, tree.len());
    } else {
        lemma_predict_shortcut(tree, features, node_id, fuel, 0);
    }
}

/// Walks from `node_id` for at most as many nodes as the map holds; `None`
/// exactly when the walk never reaches a leaf with comparable scores.
pub fn try_predict(tree: &HashMap<usize, Node>, features: &[u32], node_id: usize) -> (r: Option<usize>)
    ensures
        r is None <==> !prediction_terminates(tree@, features@, node_id),
        r matches Some(c) ==> c == predicted_class(tree@, features@, node_id),
{
    let ghost budget: nat = tree@.len();
    let mut remaining: usize = tree.len();
    let mut id: usize = node_id;
    while remaining > 0
        invariant
            predict_steps(tree@, features@, id, remaining as nat) == predict_steps(tree@, features@, node_id, budget),
            budget == tree@.len(),
            tree@.dom().finite(),
        decreases remaining,
    {
        let node = match tree.get(&id) {
            Some(n) => n,
            None => {
{
                proof {
                    if prediction_terminates(tree@, features@, node_id) {
                        lemma_prediction_within_node_count(tree@, features@, node_id);
                    }
                }
                return None;
            }
            },
        };
        match node.feature {
            None => {
                let rows = match &node.value {
                    Some(rows) => rows,
                    None => {
                        {
                proof {
                    if prediction_terminates(tree@, features@, node_id) {
                        lemma_prediction_within_node_count(tree@, features@, node_id);
                    }
                }
                return None;
            }
                    },
                };
                if rows.len() == 0 {
                    {
                proof {
                    if prediction_terminates(tree@, features@, node_id) {
                        lemma_prediction_within_node_count(tree@, features@, node_id);
                    }
                }
                return None;
            }
                }
                let row = &rows[0];
                let row_len = row.len();
                if row_len >= 2 && f32_row_has_nan(row) {
                    proof {
                        if prediction_terminates(tree@, features@, node_id) {
                            lemma_prediction_within_node_count(tree@, features@, node_id);
                        }
                    }
                    return None;
                }
                match argmax_f32_bits(row) {
                    Some(best) => {
                        proof {
                            lemma_argmax_f32_is_last_maximum(row@, row@.len());
                            lemma_predicted_class_unique(tree@, features@, node_id, budget);
                        }
                        return Some(best);
                    },
                    None => {
                        {
                proof {
                    if prediction_terminates(tree@, features@, node_id) {
                        lemma_prediction_within_node_count(tree@, features@, node_id);
                    }
                }
                return None;
            }
                    },
                }
            },
            Some(feature_idx) => {
                let threshold = match node.threshold {
                    Some(t) => t,
                    None => {
                        {
                proof {
                    if prediction_terminates(tree@, features@, node_id) {
                        lemma_prediction_within_node_count(tree@, features@, node_id);
                    }
                }
                return None;
            }
                    },
                };
                if feature_idx >= features.len() {
                    {
                proof {
                    if prediction_terminates(tree@, features@, node_id) {
                        lemma_prediction_within_node_count(tree@, features@, node_id);
                    }
                }
                return None;
            }
                }
                let next = if f32_bits_le(features[feature_idx], threshold) {
                    node.left
                } else {
                    node.right
                };
                match next {
                    Some(child) => {
                        id = child;
                    },
                    None => {
                        {
                proof {
                    if prediction_terminates(tree@, features@, node_id) {
                        lemma_prediction_within_node_count(tree@, features@, node_id);
                    }
                }
                return None;
            }
                    },
                }
            },
        }
        remaining = remaining - 1;
    }
    proof {
        if prediction_terminates(tree@, features@, node_id) {
            lemma_prediction_within_node_count(tree@, features@, node_id);
        }
    }
    None
}

/// At a node that tests feature `f` of the sample against its threshold, the
/// walk continues at the left child exactly when that feature is at most the
/// threshold as binary32 numbers (`f32` `<=`), and at the right child
/// otherwise, NaN included; a missing child ends the walk.
pub proof fn lemma_predict_goes_left_iff_le(tree: Map<usize, Node>, features: Seq<u32>, id: usize, fuel: nat)
    requires
        tree.contains_key(id),
        tree[id].feature matches Some(f) && f < features.len(),
        tree[id].threshold is Some,
    ensures
        ({
            let node = tree[id];
            let next = if f32_le(features[node.feature->0 as int], node.threshold->0) { node.left } else { node.right };
            predict_steps(tree, features, id, fuel + 1) == match next {
                Some(child) => predict_steps(tree, features, child, fuel),
                None => None::<nat>,
            }
        }),
        f32_le(features[tree[id].feature->0 as int], tree[id].threshold->0) && tree[id].left is Some
            ==> predict_steps(tree, features, id, fuel + 1) == predict_steps(tree, features, tree[id].left->0, fuel),
        !f32_le(features[tree[id].feature->0 as int], tree[id].threshold->0) && tree[id].right is Some
            ==> predict_steps(tree, features, id, fuel + 1) == predict_steps(tree, features, tree[id].right->0, fuel),
{
}

} // verus!
