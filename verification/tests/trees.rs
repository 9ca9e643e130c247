use std::collections::HashMap;

use verse::argmax::{argmax_f32_bits, argmax_f64_bits, f32_row_has_nan, f64_row_has_nan};
use verse::flat_tree::{eval_tree, parse_nodes_from_raw, try_eval_tree, Node};
use verse::id_tree::{
    build_id_index, build_id_map, predict_with_defaults, traverse_tree, try_predict_with_defaults,
    try_build_id_index, try_traverse_tree, TreeNode,
};
use verse::map_tree;

fn record(feature: u32, threshold: f32, left: i32, right: i32, label: i32) -> Vec<u8> {
    let mut out = Vec::new();
    out.extend_from_slice(&feature.to_le_bytes());
    out.extend_from_slice(&threshold.to_le_bytes());
    out.extend_from_slice(&left.to_le_bytes());
    out.extend_from_slice(&right.to_le_bytes());
    out.extend_from_slice(&label.to_le_bytes());
    out
}

fn iris_bytes() -> Vec<u8> {
    let mut raw = Vec::new();
    raw.extend(record(2, 2.45, 1, 2, -1));
    raw.extend(record(0, 0.0, -1, -1, 0));
    raw.extend(record(3, 1.75, 3, 4, -1));
    raw.extend(record(0, 0.0, -1, -1, 1));
    raw.extend(record(0, 0.0, -1, -1, 2));
    raw
}

fn bits4(s: [f32; 4]) -> [u32; 4] {
    [s[0].to_bits(), s[1].to_bits(), s[2].to_bits(), s[3].to_bits()]
}

#[test]
fn parse_node_records() {
    let mut raw = iris_bytes();
    raw.extend_from_slice(&[1, 2, 3, 4, 5]);
    let nodes = parse_nodes_from_raw(&raw);
    assert_eq!(nodes.len(), 5);
    assert_eq!(
        nodes[0],
        Node { feature_index: 2, threshold_bits: 2.45f32.to_bits(), left: 1, right: 2, class_label: -1 }
    );
    assert_eq!(nodes[4].class_label, 2);
    assert_eq!(nodes[1].left, -1);
    assert_eq!(parse_nodes_from_raw(&raw[..19]).len(), 0);
}

#[test]
fn eval_iris_samples() {
    let nodes = parse_nodes_from_raw(&iris_bytes());
    let samples = [
        [5.1f32, 3.5, 1.4, 0.2],
        [7.0, 3.2, 4.7, 1.4],
        [6.3, 3.3, 6.0, 2.5],
        [5.8, 2.7, 5.1, 1.9],
        [5.0, 3.4, 1.5, 0.2],
    ];
    let expected = [0, 1, 2, 2, 0];
    for (s, e) in samples.iter().zip(expected.iter()) {
        assert_eq!(eval_tree(&bits4(*s), &nodes), *e);
        assert_eq!(try_eval_tree(&bits4(*s), &nodes), Some(*e));
    }
    // A feature equal to the threshold goes left.
    assert_eq!(eval_tree(&bits4([0.0, 0.0, 2.45, 0.0]), &nodes), 0);
    // NaN is never at most the threshold: it goes right.
    assert_eq!(eval_tree(&bits4([0.0, 0.0, f32::NAN, 9.0]), &nodes), 2);
}

#[test]
fn try_eval_reports_bad_trees() {
    let sample = bits4([1.0, 1.0, 1.0, 1.0]);
    // A cycle between two internal nodes never reaches a leaf.
    let cycle = vec![
        Node { feature_index: 0, threshold_bits: 0.5f32.to_bits(), left: 1, right: 1, class_label: -1 },
        Node { feature_index: 0, threshold_bits: 0.5f32.to_bits(), left: 0, right: 0, class_label: -1 },
    ];
    assert_eq!(try_eval_tree(&sample, &cycle), None);
    // A child index outside the list.
    let dangling = vec![Node { feature_index: 0, threshold_bits: 0, left: 5, right: -3, class_label: -1 }];
    assert_eq!(try_eval_tree(&sample, &dangling), None);
    // A feature index outside the sample.
    let wide = vec![Node { feature_index: 4, threshold_bits: 0, left: 0, right: 0, class_label: -1 }];
    assert_eq!(try_eval_tree(&sample, &wide), None);
    assert_eq!(try_eval_tree(&sample, &Vec::new()), None);
}

fn leaf(id: usize, probs: &[f64]) -> TreeNode {
    TreeNode {
        id,
        feature: None,
        threshold: None,
        left: None,
        right: None,
        value: vec![probs.iter().map(|p| p.to_bits()).collect()],
    }
}

fn split(id: usize, feature: usize, threshold: f64, left: usize, right: usize) -> TreeNode {
    TreeNode {
        id,
        feature: Some(feature),
        threshold: Some(threshold.to_bits()),
        left: Some(left),
        right: Some(right),
        value: vec![],
    }
}

fn id_tree() -> Vec<TreeNode> {
    vec![
        leaf(4, &[0.0, 0.1, 0.9]),
        split(0, 2, 2.45, 1, 2),
        leaf(1, &[1.0, 0.0, 0.0]),
        split(2, 3, 1.75, 3, 4),
        leaf(3, &[0.0, 0.9, 0.1]),
    ]
}

fn bits(x: &[f64]) -> Vec<u64> {
    x.iter().map(|v| v.to_bits()).collect()
}

#[test]
fn id_index_maps_ids_to_positions() {
    let nodes = id_tree();
    let index = build_id_index(&nodes);
    assert_eq!(index, vec![1, 2, 3, 4, 0]);
    // Missing ids map to usize::MAX; a repeated id maps to its last node.
    let sparse = vec![leaf(3, &[1.0]), leaf(1, &[1.0]), leaf(3, &[0.5])];
    assert_eq!(build_id_index(&sparse), vec![usize::MAX, 1, usize::MAX, 2]);
    assert_eq!(build_id_index(&Vec::new()), vec![usize::MAX]);
}

#[test]
fn try_id_index_refuses_the_largest_id() {
    let sparse = vec![leaf(3, &[1.0]), leaf(1, &[1.0]), leaf(3, &[0.5])];
    assert_eq!(try_build_id_index(&sparse), Some(vec![usize::MAX, 1, usize::MAX, 2]));
    assert_eq!(try_build_id_index(&Vec::new()), Some(vec![usize::MAX]));
    let huge = vec![leaf(0, &[1.0]), leaf(usize::MAX, &[1.0])];
    assert_eq!(try_build_id_index(&huge), None);
}

#[test]
fn traverse_id_tree() {
    let nodes = id_tree();
    let index = build_id_index(&nodes);
    assert_eq!(traverse_tree(&nodes, &index, &bits(&[5.1, 3.5, 1.4, 0.2])), bits(&[1.0, 0.0, 0.0]));
    assert_eq!(traverse_tree(&nodes, &index, &bits(&[6.0, 2.2, 4.0, 1.0])), bits(&[0.0, 0.9, 0.1]));
    assert_eq!(traverse_tree(&nodes, &index, &bits(&[6.5, 3.0, 5.2, 2.0])), bits(&[0.0, 0.1, 0.9]));
    assert_eq!(try_traverse_tree(&nodes, &index, &bits(&[5.9, 3.0, 5.1, 1.8])), Some(bits(&[0.0, 0.1, 0.9])));
    // A sample without the tested feature cannot be walked.
    assert_eq!(try_traverse_tree(&nodes, &index, &bits(&[5.9])), None);
    // A cycle never reaches a leaf.
    let cycle = vec![split(0, 0, 1.0, 1, 1), split(1, 0, 1.0, 0, 0)];
    let cindex = build_id_index(&cycle);
    assert_eq!(try_traverse_tree(&cycle, &cindex, &bits(&[0.0])), None);
}

#[test]
fn lenient_prediction() {
    let nodes = id_tree();
    let index = build_id_map(&nodes);
    assert_eq!(index.len(), 5);
    assert_eq!(index[&4], 0);
    assert_eq!(predict_with_defaults(&nodes, &index, &bits(&[5.1, 3.5, 1.4, 0.2])), bits(&[1.0, 0.0, 0.0]));
    // A missing feature reads as 0.0, which is at most 2.45: left.
    assert_eq!(predict_with_defaults(&nodes, &index, &bits(&[5.1])), bits(&[1.0, 0.0, 0.0]));
    // A missing threshold reads as 0.0 and a leaf without rows gives an empty row.
    let odd = vec![
        TreeNode { id: 0, feature: Some(0), threshold: None, left: Some(1), right: Some(2), value: vec![] },
        leaf(1, &[0.3]),
        TreeNode { id: 2, feature: None, threshold: None, left: None, right: None, value: vec![] },
    ];
    let oindex = build_id_map(&odd);
    assert_eq!(predict_with_defaults(&odd, &oindex, &bits(&[1.0])), Vec::<u64>::new());
    assert_eq!(try_predict_with_defaults(&odd, &oindex, &bits(&[-1.0])), Some(bits(&[0.3])));
    let cycle = vec![split(0, 0, 1.0, 0, 0)];
    assert_eq!(try_predict_with_defaults(&cycle, &build_id_map(&cycle), &bits(&[0.0])), None);
    let mut empty_index = HashMap::new();
    empty_index.insert(7usize, 0usize);
    assert_eq!(try_predict_with_defaults(&nodes, &empty_index, &bits(&[0.0])), None);
}

#[test]
fn argmax_picks_last_maximum() {
    assert_eq!(argmax_f64_bits(&bits(&[0.1, 0.7, 0.2])), Some((1, 0.7f64.to_bits())));
    assert_eq!(argmax_f64_bits(&bits(&[0.5, 0.2, 0.5])), Some((2, 0.5f64.to_bits())));
    assert_eq!(argmax_f64_bits(&bits(&[-0.0, 0.0])), Some((1, 0.0f64.to_bits())));
    assert_eq!(argmax_f64_bits(&bits(&[0.0, -0.0])), Some((1, (-0.0f64).to_bits())));
    assert_eq!(argmax_f64_bits(&Vec::new()), None);
    assert_eq!(argmax_f64_bits(&bits(&[f64::NAN])), Some((0, f64::NAN.to_bits())));
    assert!(f64_row_has_nan(&bits(&[1.0, f64::NAN])));
    assert!(!f64_row_has_nan(&bits(&[1.0, f64::INFINITY])));
    let row: Vec<u32> = [1.0f32, 3.0, -2.0, 3.0, 0.5].iter().map(|v| v.to_bits()).collect();
    assert_eq!(argmax_f32_bits(&row), Some(3));
    assert!(!f32_row_has_nan(&row));
    assert!(f32_row_has_nan(&vec![f32::NAN.to_bits()]));
}

fn onnx_leaf(id: usize, scores: &[f32]) -> map_tree::Node {
    map_tree::Node {
        id,
        feature: None,
        threshold: None,
        left: None,
        right: None,
        value: Some(vec![scores.iter().map(|s| s.to_bits()).collect()]),
    }
}

fn onnx_split(id: usize, feature: usize, threshold: f32, left: usize, right: usize) -> map_tree::Node {
    map_tree::Node {
        id,
        feature: Some(feature),
        threshold: Some(threshold.to_bits()),
        left: Some(left),
        right: Some(right),
        value: None,
    }
}

#[test]
fn map_tree_prediction() {
    let nodes = vec![
        onnx_split(0, 2, 2.45, 1, 2),
        onnx_leaf(1, &[50.0, 0.0, 0.0]),
        onnx_split(2, 3, 1.75, 3, 4),
        onnx_leaf(3, &[0.0, 49.0, 5.0]),
        onnx_leaf(4, &[0.0, 1.0, 45.0]),
        // A later node with id 4 replaces the earlier one.
        onnx_leaf(4, &[0.0, 1.0, 46.0]),
    ];
    let tree = map_tree::build_tree_map(nodes);
    assert_eq!(tree.len(), 5);
    assert_eq!(tree[&4].value, Some(vec![vec![0.0f32.to_bits(), 1.0f32.to_bits(), 46.0f32.to_bits()]]));
    let f = |x: [f32; 4]| -> Vec<u32> { x.iter().map(|v| v.to_bits()).collect() };
    assert_eq!(map_tree::predict(&tree, &f([5.1, 3.5, 1.4, 0.2]), 0), 0);
    assert_eq!(map_tree::predict(&tree, &f([6.0, 2.2, 4.0, 1.0]), 0), 1);
    assert_eq!(map_tree::predict(&tree, &f([6.5, 3.0, 5.2, 2.0]), 0), 2);
    assert_eq!(map_tree::try_predict(&tree, &f([5.9, 3.0, 5.1, 1.8]), 0), Some(2));
    // Starting below the root.
    assert_eq!(map_tree::try_predict(&tree, &f([0.0, 0.0, 0.0, 0.0]), 2), Some(1));
    // An unknown id, a NaN score and a cycle all fail.
    assert_eq!(map_tree::try_predict(&tree, &f([0.0; 4]), 9), None);
    let nan_tree = map_tree::build_tree_map(vec![onnx_leaf(0, &[1.0, f32::NAN])]);
    assert_eq!(map_tree::try_predict(&nan_tree, &f([0.0; 4]), 0), None);
    let cyc = map_tree::build_tree_map(vec![onnx_split(0, 0, 1.0, 1, 1), onnx_split(1, 0, 1.0, 0, 0)]);
    assert_eq!(map_tree::try_predict(&cyc, &f([0.0; 4]), 0), None);
}
