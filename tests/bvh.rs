use firework::bvh::{BVHNode, BVHNodeVariant};

/// An interval standing in for a bounding box.
#[derive(Debug, Clone, Copy, PartialEq)]
struct Span(u32, u32);

fn union(a: &Span, b: &Span) -> Span {
    Span(a.0.min(b.0), a.1.max(b.1))
}

fn build(boxes: &Vec<Span>, keys: &Vec<[u32; 3]>) -> BVHNode<Span> {
    BVHNode::new(boxes, keys, &union)
}

/// Checks that every node's volume is the union of the boxes below it.
fn check_volumes(node: &BVHNode<Span>, boxes: &[Span]) -> Span {
    let v = match &node.next {
        BVHNodeVariant::Leaf(a) => boxes[*a],
        BVHNodeVariant::DoubleLeaf(a, b) => union(&boxes[*a], &boxes[*b]),
        BVHNodeVariant::Branch(l, r) => union(&check_volumes(l, boxes), &check_volumes(r, boxes)),
    };
    assert_eq!(node.aabb, v);
    v
}

fn leaves(node: &BVHNode<Span>, out: &mut Vec<usize>) {
    match &node.next {
        BVHNodeVariant::Leaf(a) => out.push(*a),
        BVHNodeVariant::DoubleLeaf(a, b) => {
            out.push(*a);
            out.push(*b);
        }
        BVHNodeVariant::Branch(l, r) => {
            leaves(l, out);
            leaves(r, out);
        }
    }
}

fn keys_of(xs: &[u32]) -> Vec<[u32; 3]> {
    xs.iter().map(|&x| [x, u32::MAX - x, x % 7]).collect()
}

#[test]
fn bvh_single_item_is_a_leaf() {
    let node = build(&vec![Span(3, 4)], &keys_of(&[3]));
    assert!(matches!(node.next, BVHNodeVariant::Leaf(0)));
    assert_eq!(node.aabb, Span(3, 4));
}

#[test]
fn bvh_two_items_form_a_sorted_double_leaf() {
    let node = build(&vec![Span(9, 10), Span(1, 2)], &keys_of(&[9, 1]));
    assert!(matches!(node.next, BVHNodeVariant::DoubleLeaf(1, 0)));
    assert_eq!(node.aabb, Span(1, 10));
}

#[test]
fn bvh_leaves_are_a_permutation_and_split_on_x_first() {
    let xs: Vec<u32> = vec![42, 7, 19, 88, 3, 61, 25, 70, 14, 50, 33];
    let boxes: Vec<Span> = xs.iter().map(|&x| Span(x, x + 1)).collect();
    let node = build(&boxes, &keys_of(&xs));
    let mut out = Vec::new();
    leaves(&node, &mut out);
    let mut sorted = out.clone();
    sorted.sort();
    assert_eq!(sorted, (0..xs.len()).collect::<Vec<_>>());
    assert_eq!(node.aabb, Span(3, 89));
    if let BVHNodeVariant::Branch(l, r) = &node.next {
        let (mut a, mut b) = (Vec::new(), Vec::new());
        leaves(l, &mut a);
        leaves(r, &mut b);
        assert_eq!(a.len(), xs.len() / 2);
        let max_left = a.iter().map(|&i| xs[i]).max().unwrap();
        let min_right = b.iter().map(|&i| xs[i]).min().unwrap();
        assert!(max_left <= min_right);
    } else {
        panic!("expected a branch at the root");
    }
}

#[test]
fn bvh_equal_keys_keep_every_item() {
    let xs = vec![5u32; 9];
    let boxes: Vec<Span> = (0..9).map(|i| Span(i, i + 1)).collect();
    let node = build(&boxes, &keys_of(&xs));
    let mut out = Vec::new();
    leaves(&node, &mut out);
    out.sort();
    assert_eq!(out, (0..9).collect::<Vec<_>>());
    assert_eq!(node.aabb, Span(0, 9));
}

#[test]
fn bvh_is_built_the_same_way_twice() {
    let xs: Vec<u32> = (0..500u32).map(|i| (i * 7919) % 997).collect();
    let boxes: Vec<Span> = xs.iter().map(|&x| Span(x, x + 2)).collect();
    let keys = keys_of(&xs);
    let (mut a, mut b) = (Vec::new(), Vec::new());
    leaves(&build(&boxes, &keys), &mut a);
    leaves(&build(&boxes, &keys), &mut b);
    assert_eq!(a, b);
    let mut s = a.clone();
    s.sort();
    assert_eq!(s, (0..500).collect::<Vec<_>>());
}

/// Probes the hierarchy over points `xs` with the query interval `[lo, hi]`.
fn probe(node: &BVHNode<Span>, xs: &[u32], lo: u32, hi: u32) -> Option<u32> {
    node.hit(
        &|b: &Span| b.0 <= hi && b.1 >= lo,
        &|i: usize| if xs[i] >= lo && xs[i] <= hi { Some(xs[i]) } else { None },
        &|a: &u32, b: &u32| a < b,
    )
}

fn linear(xs: &[u32], lo: u32, hi: u32) -> Option<u32> {
    xs.iter().copied().filter(|&x| x >= lo && x <= hi).min()
}

#[test]
fn bvh_traversal_agrees_with_linear_scan() {
    let xs: Vec<u32> = (0..500u32).map(|i| (i * 7919) % 997).collect();
    let boxes: Vec<Span> = xs.iter().map(|&x| Span(x, x)).collect();
    let node = build(&boxes, &keys_of(&xs));
    for (lo, hi) in [(0, 996), (10, 12), (500, 505), (996, 2000), (3, 3), (998, 5000)] {
        assert_eq!(probe(&node, &xs, lo, hi), linear(&xs, lo, hi), "query [{}, {}]", lo, hi);
    }
}

#[test]
fn bvh_missed_volume_reports_nothing() {
    let xs = vec![4u32, 8];
    let node = build(&vec![Span(4, 4), Span(8, 8)], &keys_of(&xs));
    let r = node.hit(&|_: &Span| false, &|i: usize| Some(xs[i]), &|a: &u32, b: &u32| a < b);
    assert_eq!(r, None);
}

#[test]
fn bvh_traversal_ties_report_an_equal_hit() {
    let xs = vec![6u32, 2, 9, 2, 7, 2];
    let boxes: Vec<Span> = xs.iter().map(|&x| Span(x, x)).collect();
    let node = build(&boxes, &keys_of(&xs));
    assert_eq!(probe(&node, &xs, 0, 100), Some(2));
    assert_eq!(probe(&node, &xs, 3, 100), Some(6));
    assert_eq!(probe(&node, &xs, 10, 100), None);
}

#[test]
fn bvh_volumes_are_unions_of_the_boxes_below() {
    let xs: Vec<u32> = (0..37u32).map(|i| (i * 53) % 101).collect();
    let boxes: Vec<Span> = xs.iter().map(|&x| Span(x, x + (x % 5))).collect();
    let node = build(&boxes, &keys_of(&xs));
    let all = check_volumes(&node, &boxes);
    assert_eq!(all, boxes.iter().fold(boxes[0], |a, b| union(&a, b)));
}

#[test]
fn bvh_large_input_builds() {
    let n = 20000u32;
    let xs: Vec<u32> = (0..n).map(|i| i.wrapping_mul(2654435761) % 100000).collect();
    let boxes: Vec<Span> = xs.iter().map(|&x| Span(x, x)).collect();
    let node = build(&boxes, &keys_of(&xs));
    let mut out = Vec::new();
    leaves(&node, &mut out);
    out.sort();
    assert_eq!(out, (0..n as usize).collect::<Vec<_>>());
}
