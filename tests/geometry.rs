use raytracer::aabb::Aabb;
use raytracer::bvh::{BvhChild, BvhNode};
use raytracer::interval::{Interval, INFINITY_KEY, NEG_INFINITY_KEY};

fn iv(min: i64, max: i64) -> Interval {
    Interval::new(min, max)
}

fn cube(x: i64, y: i64, z: i64, side: i64) -> Aabb {
    Aabb { x: iv(x, x + side), y: iv(y, y + side), z: iv(z, z + side) }
}

fn width(i: Interval) -> i64 {
    i.max - i.min
}

fn child_box(c: &BvhChild, boxes: &[Aabb]) -> Aabb {
    match c {
        BvhChild::Object(i) => boxes[*i],
        BvhChild::Node(n) => n.bbox,
    }
}

fn check_node(n: &BvhNode, boxes: &[Aabb], found: &mut Vec<usize>) {
    let union = Aabb::from_aabbs(&child_box(&n.left, boxes), &child_box(&n.right, boxes));
    assert_eq!(n.bbox, union);
    for c in [&n.left, &n.right] {
        match c {
            BvhChild::Object(i) => found.push(*i),
            BvhChild::Node(m) => check_node(m, boxes, found),
        }
    }
}

#[test]
fn interval_contains_is_inclusive_and_surrounds_is_not() {
    let i = iv(1, 5);
    assert!(i.contains(1) && i.contains(5) && i.contains(3));
    assert!(!i.contains(0) && !i.contains(6));
    assert!(!i.surrounds(1) && !i.surrounds(5) && i.surrounds(3));
}

#[test]
fn interval_empty_and_universe() {
    let e = Interval::new_empty();
    let u = Interval::new_universe();
    assert!(!e.contains(0));
    assert!(u.contains(0) && u.contains(INFINITY_KEY) && u.contains(NEG_INFINITY_KEY));
    assert_eq!(Interval::from_intervals(&e, &iv(2, 3)), iv(2, 3));
}

#[test]
fn interval_clamp_saturates() {
    let i = iv(0, 999);
    assert_eq!(i.clamp(-4), 0);
    assert_eq!(i.clamp(1000), 999);
    assert_eq!(i.clamp(500), 500);
}

#[test]
fn interval_union_contains_both_operands() {
    let a = iv(-3, 1);
    let b = iv(10, 12);
    let u = Interval::from_intervals(&a, &b);
    assert_eq!(u, iv(-3, 12));
    for x in [-3, 0, 1, 10, 11, 12] {
        assert!(u.contains(x));
    }
    assert!(u.contains(5));
}

#[test]
fn aabb_union_and_axis_interval() {
    let a = cube(0, 0, 0, 1);
    let b = cube(5, -2, 3, 2);
    let u = Aabb::from_aabbs(&a, &b);
    assert_eq!(*u.axis_interval(0), iv(0, 7));
    assert_eq!(*u.axis_interval(1), iv(-2, 1));
    assert_eq!(*u.axis_interval(2), iv(0, 5));
    assert_eq!(*u.axis_interval(7), iv(0, 7));
    assert_eq!(Aabb::from_aabbs(&Aabb::new_empty(), &a), a);
}

#[test]
fn longest_axis_tie_order() {
    assert_eq!(Aabb::longest_axis_of(3, 2, 1), 0);
    assert_eq!(Aabb::longest_axis_of(1, 3, 2), 1);
    assert_eq!(Aabb::longest_axis_of(1, 2, 3), 2);
    assert_eq!(Aabb::longest_axis_of(2, 2, 1), 1);
    assert_eq!(Aabb::longest_axis_of(3, 1, 3), 2);
    assert_eq!(Aabb::longest_axis_of(1, 3, 3), 2);
    assert_eq!(Aabb::longest_axis_of(5, 5, 5), 2);
    let b = Aabb { x: iv(0, 10), y: iv(0, 4), z: iv(0, 2) };
    assert_eq!(b.longest_axis(&width), 0);
}

#[test]
fn bvh_single_object_is_on_both_sides() {
    let boxes = vec![cube(1, 2, 3, 1)];
    let node = BvhNode::new(&boxes, &width);
    assert!(matches!(node.left, BvhChild::Object(0)));
    assert!(matches!(node.right, BvhChild::Object(0)));
    assert_eq!(node.bbox, boxes[0]);
}

#[test]
fn bvh_two_objects_keep_their_order() {
    let boxes = vec![cube(9, 0, 0, 1), cube(0, 0, 0, 1)];
    let node = BvhNode::new(&boxes, &width);
    assert!(matches!(node.left, BvhChild::Object(0)));
    assert!(matches!(node.right, BvhChild::Object(1)));
    assert_eq!(node.bbox, Aabb::from_aabbs(&boxes[0], &boxes[1]));
}

#[test]
fn bvh_node_box_is_union_of_children_everywhere() {
    let mut boxes = Vec::new();
    for k in 0..37i64 {
        boxes.push(cube((k * 7919) % 101, (k * 31) % 17, -(k % 5), 1 + k % 3));
    }
    let node = BvhNode::new(&boxes, &width);
    let mut found = Vec::new();
    check_node(&node, &boxes, &mut found);
    found.sort();
    found.dedup();
    assert_eq!(found, (0..37).collect::<Vec<usize>>());
    let mut all = Aabb::new_empty();
    for b in &boxes {
        all = Aabb::from_aabbs(&all, b);
    }
    assert_eq!(node.bbox, all);
}

#[test]
fn bvh_splits_sorted_along_longest_axis() {
    // Spread along x only: the left half holds the three smallest x.
    let boxes: Vec<Aabb> = [40, 10, 30, 0, 20, 50].iter().map(|&x| cube(x, 0, 0, 1)).collect();
    let mut objects: Vec<usize> = (0..6).collect();
    let node = BvhNode::from_objects(&boxes, &mut objects, 0, 6, &width);
    assert_eq!(objects, vec![3, 1, 4, 2, 0, 5]);
    match &node.left {
        BvhChild::Node(l) => assert_eq!(l.bbox, Aabb::from_aabbs(&boxes[3], &boxes[4])),
        BvhChild::Object(_) => panic!("expected a subtree"),
    }
}
