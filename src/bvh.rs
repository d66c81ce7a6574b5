use crate::aabb::{spec_longest_axis, Aabb};
use crate::interval::{Interval, INFINITY_KEY, NEG_INFINITY_KEY};
use vstd::prelude::*;
use vstd::seq_lib::*;

verus! {

/// One side of a hierarchy node: an object, by its index in the box list
/// the tree was built over, or a further node.
pub enum BvhChild {
    Object(usize),
    Node(Box<BvhNode>),
}

/// A node of a bounding-volume hierarchy. A span of one object has that
/// object on both sides.
pub struct BvhNode {
    pub left: BvhChild,
    pub right: BvhChild,
    pub bbox: Aabb,
}

/// The union of the boxes of the objects `s`, folded from the left,
/// starting at the empty box.
pub open spec fn union_all(boxes: Seq<Aabb>, s: Seq<usize>) -> Aabb
    decreases s.len(),
{
    if s.len() == 0 {
        Aabb::spec_empty()
    } else {
        Aabb::spec_union(union_all(boxes, s.drop_last()), boxes[s.last() as int])
    }
}

/// Component `c` of a box: 0 to 2 the minima of x, y, z; 3 to 5 the maxima.
pub open spec fn component(b: Aabb, c: int) -> i64 {
    if c < 3 {
        b.spec_axis(c).min
    } else {
        b.spec_axis(c - 3).max
    }
}

impl BvhChild {
    pub open spec fn spec_box(self, boxes: Seq<Aabb>) -> Aabb {
        match self {
            BvhChild::Object(i) => boxes[i as int],
            BvhChild::Node(n) => n.bbox,
        }
    }
}

impl BvhNode {
    /// Every node's box is exactly the union of its two children's boxes,
    /// and every object index is in range.
    pub open spec fn wf(self, boxes: Seq<Aabb>) -> bool
        decreases self,
    {
        &&& self.bbox == Aabb::spec_union(self.left.spec_box(boxes), self.right.spec_box(boxes))
        &&& match self.left {
            BvhChild::Object(i) => i < boxes.len(),
            BvhChild::Node(n) => n.wf(boxes),
        }
        &&& match self.right {
            BvhChild::Object(i) => i < boxes.len(),
            BvhChild::Node(n) => n.wf(boxes),
        }
    }

    /// The objects at the leaves of the tree.
    pub open spec fn objects(self) -> Set<usize>
        decreases self,
    {
        let l = match self.left {
            BvhChild::Object(i) => set![i],
            BvhChild::Node(n) => n.objects(),
        };
        let r = match self.right {
            BvhChild::Object(i) => set![i],
            BvhChild::Node(n) => n.objects(),
        };
        l + r
    }
}

/// The parameter key of a hit report, if any.
pub open spec fn opt_key<R>(res: Option<(i64, R)>) -> Option<i64> {
    match res {
        Some((t, _)) => Some(t),
        None => None,
    }
}

/// The object test `f` behaves as the function `h`: whatever it reports
/// for object `o` and interval `i` has the parameter `h(o, i)`.
pub open spec fn object_test_is<R, H: Fn(usize, Interval) -> Option<(i64, R)>>(
    f: H,
    h: spec_fn(usize, Interval) -> Option<i64>,
) -> bool {
    forall|o: usize, i: Interval, res: Option<(i64, R)>|
        #[trigger] f.ensures((o, i), res) ==> opt_key(res) == h(o, i)
}

/// The box test `f` behaves as the function `bx`.
pub open spec fn box_test_is<B: Fn(Aabb, Interval) -> bool>(
    f: B,
    bx: spec_fn(Aabb, Interval) -> bool,
) -> bool {
    forall|b: Aabb, i: Interval, res: bool| #[trigger] f.ensures((b, i), res) ==> res == bx(b, i)
}

/// An object test reports only parameters inside the interval it is given.
pub open spec fn hits_in_range(h: spec_fn(usize, Interval) -> Option<i64>) -> bool {
    forall|o: usize, i: Interval|
        match #[trigger] h(o, i) {
            Some(t) => i.min <= t <= i.max,
            None => true,
        }
}

/// An object test reports the closest hit in the interval: lowering the
/// upper end to `m` keeps a hit below `m`, and any hit found below `m` is
/// the hit of the whole interval.
pub open spec fn reports_closest(h: spec_fn(usize, Interval) -> Option<i64>) -> bool {
    forall|o: usize, i: Interval, m: i64|
        #![trigger h(o, i), h(o, Interval { min: i.min, max: m })]
        i.min <= m <= i.max ==> {
            &&& (h(o, Interval { min: i.min, max: m }) is Some ==> h(o, i) == h(
                o,
                Interval { min: i.min, max: m },
            ))
            &&& match h(o, i) {
                Some(t) => t < m ==> h(o, Interval { min: i.min, max: m }) == Some(t),
                None => true,
            }
        }
}

/// A box test is conservative: an object that is hit has its box hit, and a
/// box that encloses a hit box is hit.
pub open spec fn box_test_conservative(
    h: spec_fn(usize, Interval) -> Option<i64>,
    bx: spec_fn(Aabb, Interval) -> bool,
    boxes: Seq<Aabb>,
) -> bool {
    &&& forall|o: usize, i: Interval| #[trigger] h(o, i) is Some ==> bx(boxes[o as int], i)
    &&& forall|b1: Aabb, b2: Aabb, i: Interval|
        b2.spec_encloses(b1) && #[trigger] bx(b1, i) ==> #[trigger] bx(b2, i)
}

/// `r` is the closest hit among `objects` in `i`: `None` when no object is
/// hit, else a parameter at which one is hit and at or below every other
/// object's hit.
pub open spec fn is_closest(
    r: Option<i64>,
    objects: Set<usize>,
    i: Interval,
    h: spec_fn(usize, Interval) -> Option<i64>,
) -> bool {
    match r {
        None => forall|o: usize| objects.contains(o) ==> #[trigger] h(o, i) is None,
        Some(t) => {
            &&& exists|o: usize| objects.contains(o) && #[trigger] h(o, i) == Some(t)
            &&& forall|o: usize|
                objects.contains(o) ==> match #[trigger] h(o, i) {
                    Some(t2) => t <= t2,
                    None => true,
                }
        },
    }
}

impl BvhNode {
    /// What traversal finds in `i`: nothing when the node's box is missed;
    /// else the left side is searched in `i`, the right side up to the
    /// left side's hit, and the right side's hit wins when there is one.
    pub open spec fn spec_hit(
        self,
        i: Interval,
        h: spec_fn(usize, Interval) -> Option<i64>,
        bx: spec_fn(Aabb, Interval) -> bool,
    ) -> Option<i64>
        decreases self,
    {
        if !bx(self.bbox, i) {
            None
        } else {
            let l = match self.left {
                BvhChild::Object(o) => h(o, i),
                BvhChild::Node(n) => n.spec_hit(i, h, bx),
            };
            let i2 = match l {
                Some(t) => Interval { min: i.min, max: t },
                None => i,
            };
            let r = match self.right {
                BvhChild::Object(o) => h(o, i2),
                BvhChild::Node(n) => n.spec_hit(i2, h, bx),
            };
            match r {
                Some(t) => Some(t),
                None => l,
            }
        }
    }
}

impl BvhChild {
    pub open spec fn spec_objects(self) -> Set<usize> {
        match self {
            BvhChild::Object(o) => set![o],
            BvhChild::Node(n) => n.objects(),
        }
    }

    pub open spec fn spec_hit(
        self,
        i: Interval,
        h: spec_fn(usize, Interval) -> Option<i64>,
        bx: spec_fn(Aabb, Interval) -> bool,
    ) -> Option<i64> {
        match self {
            BvhChild::Object(o) => h(o, i),
            BvhChild::Node(n) => n.spec_hit(i, h, bx),
        }
    }

    pub open spec fn spec_wf(self, boxes: Seq<Aabb>) -> bool {
        match self {
            BvhChild::Object(o) => o < boxes.len(),
            BvhChild::Node(n) => n.wf(boxes),
        }
    }
}

/// The closest-hit property of one side of a node.
proof fn lemma_child_hit_is_closest(
    c: BvhChild,
    boxes: Seq<Aabb>,
    i: Interval,
    h: spec_fn(usize, Interval) -> Option<i64>,
    bx: spec_fn(Aabb, Interval) -> bool,
)
    requires
        c.spec_wf(boxes),
        hits_in_range(h),
        reports_closest(h),
        box_test_conservative(h, bx, boxes),
    ensures
        is_closest(c.spec_hit(i, h, bx), c.spec_objects(), i, h),
    decreases c,
{
    match c {
        BvhChild::Object(o) => {
            assert(set![o].contains(o));
        },
        BvhChild::Node(n) => {
            lemma_hit_is_closest(*n, boxes, i, h, bx);
        },
    }
}

/// Traversal finds the closest hit among all objects of a well-formed
/// hierarchy, as testing every object and keeping the nearest would: when
/// each object test reports the closest hit in the interval it is given
/// and the box test is conservative, pruning by boxes and searching the
/// right side only up to the left side's hit lose nothing.
pub proof fn lemma_hit_is_closest(
    node: BvhNode,
    boxes: Seq<Aabb>,
    i: Interval,
    h: spec_fn(usize, Interval) -> Option<i64>,
    bx: spec_fn(Aabb, Interval) -> bool,
)
    requires
        node.wf(boxes),
        hits_in_range(h),
        reports_closest(h),
        box_test_conservative(h, bx, boxes),
    ensures
        is_closest(node.spec_hit(i, h, bx), node.objects(), i, h),
    decreases node,
{
    assert(node.objects() == node.left.spec_objects() + node.right.spec_objects());
    if !bx(node.bbox, i) {
        assert forall|o: usize| node.objects().contains(o) implies #[trigger] h(o, i) is None by {
            if h(o, i) is Some {
                lemma_node_box_encloses_objects(node, boxes, o);
                assert(bx(boxes[o as int], i));
            }
        }
    } else {
        let ls = node.left.spec_objects();
        let rs = node.right.spec_objects();
        let l = node.left.spec_hit(i, h, bx);
        let i2 = match l {
            Some(t) => Interval { min: i.min, max: t },
            None => i,
        };
        let r = node.right.spec_hit(i2, h, bx);
        lemma_child_hit_is_closest(node.left, boxes, i, h, bx);
        lemma_child_hit_is_closest(node.right, boxes, i2, h, bx);
        assert(node.spec_hit(i, h, bx) == match r {
            Some(t) => Some(t),
            None => l,
        });
        match l {
            None => {
                assert(i2 == i);
            },
            Some(tl) => {
                let wl = choose|o: usize| ls.contains(o) && #[trigger] h(o, i) == Some(tl);
                assert(i.min <= tl <= i.max);
                match r {
                    Some(tr) => {
                        let wr = choose|o: usize| rs.contains(o) && #[trigger] h(o, i2) == Some(tr);
                        assert(h(wr, i) == Some(tr));
                        assert(node.objects().contains(wr));
                        assert(tr <= tl);
                        assert forall|o: usize| node.objects().contains(o) implies match #[trigger] h(o, i) {
                            Some(t2) => tr <= t2,
                            None => true,
                        } by {
                            if let Some(t2) = h(o, i) {
                                if rs.contains(o) && t2 < tl {
                                    assert(h(o, i2) == Some(t2));
                                }
                                if ls.contains(o) {
                                    assert(tl <= t2);
                                }
                            }
                        }
                    },
                    None => {
                        assert(node.objects().contains(wl));
                        assert forall|o: usize| node.objects().contains(o) implies match #[trigger] h(o, i) {
                            Some(t2) => tl <= t2,
                            None => true,
                        } by {
                            if let Some(t2) = h(o, i) {
                                if rs.contains(o) && t2 < tl {
                                    assert(h(o, i2) == Some(t2));
                                }
                            }
                        }
                    },
                }
            },
        }
    }
}

/// In a well-formed hierarchy a node's box encloses the box of every
/// object below it, so a ray that misses the node's box misses all of them
/// and the subtree can be skipped.
pub proof fn lemma_node_box_encloses_objects(node: BvhNode, boxes: Seq<Aabb>, o: usize)
    requires
        node.wf(boxes),
        node.objects().contains(o),
    ensures
        node.bbox.spec_encloses(boxes[o as int]),
    decreases node,
{
    let in_left = match node.left {
        BvhChild::Object(i) => i == o,
        BvhChild::Node(n) => n.objects().contains(o),
    };
    let child = if in_left { node.left } else { node.right };
    match child {
        BvhChild::Object(i) => {},
        BvhChild::Node(n) => {
            lemma_node_box_encloses_objects(*n, boxes, o);
        },
    }
}

/// A fold of unions is bounded by the empty box and is, in each component,
/// the least (for minima) or greatest (for maxima) of the folded boxes.
proof fn lemma_union_all_extreme(boxes: Seq<Aabb>, s: Seq<usize>)
    ensures
        forall|c: int|
            0 <= c < 3 ==> {
                &&& component(union_all(boxes, s), c) <= INFINITY_KEY
                &&& forall|k: int|
                    0 <= k < s.len() ==> component(union_all(boxes, s), c) <= component(
                        boxes[s[k] as int],
                        c,
                    )
                &&& (component(union_all(boxes, s), c) == INFINITY_KEY || exists|k: int|
                    0 <= k < s.len() && component(union_all(boxes, s), c) == component(
                        boxes[s[k] as int],
                        c,
                    ))
            },
        forall|c: int|
            3 <= c < 6 ==> {
                &&& component(union_all(boxes, s), c) >= NEG_INFINITY_KEY
                &&& forall|k: int|
                    0 <= k < s.len() ==> component(union_all(boxes, s), c) >= component(
                        boxes[s[k] as int],
                        c,
                    )
                &&& (component(union_all(boxes, s), c) == NEG_INFINITY_KEY || exists|k: int|
                    0 <= k < s.len() && component(union_all(boxes, s), c) == component(
                        boxes[s[k] as int],
                        c,
                    ))
            },
    decreases s.len(),
{
    if s.len() > 0 {
        let t = s.drop_last();
        lemma_union_all_extreme(boxes, t);
        let u = union_all(boxes, s);
        let n = s.len() - 1;
        assert forall|c: int| 0 <= c < 6 implies (c < 3 ==> {
            &&& component(u, c) <= INFINITY_KEY
            &&& forall|k: int| 0 <= k < s.len() ==> component(u, c) <= component(boxes[s[k] as int], c)
            &&& (component(u, c) == INFINITY_KEY || exists|k: int|
                0 <= k < s.len() && component(u, c) == component(boxes[s[k] as int], c))
        }) && (c >= 3 ==> {
            &&& component(u, c) >= NEG_INFINITY_KEY
            &&& forall|k: int| 0 <= k < s.len() ==> component(u, c) >= component(boxes[s[k] as int], c)
            &&& (component(u, c) == NEG_INFINITY_KEY || exists|k: int|
                0 <= k < s.len() && component(u, c) == component(boxes[s[k] as int], c))
        }) by {
            let p = component(union_all(boxes, t), c);
            let q = component(boxes[s[n] as int], c);
            assert(forall|k: int| 0 <= k < t.len() ==> t[k] == s[k]);
            if c < 3 {
                assert(component(u, c) == if p <= q { p } else { q });
                if component(u, c) != INFINITY_KEY {
                    if component(u, c) == q {
                        assert(0 <= n < s.len() && component(u, c) == component(boxes[s[n] as int], c));
                    } else {
                        let k = choose|k: int|
                            0 <= k < t.len() && p == component(boxes[t[k] as int], c);
                        assert(0 <= k < s.len() && component(u, c) == component(boxes[s[k] as int], c));
                    }
                }
            } else {
                assert(component(u, c) == if p >= q { p } else { q });
                if component(u, c) != NEG_INFINITY_KEY {
                    if component(u, c) == q {
                        assert(0 <= n < s.len() && component(u, c) == component(boxes[s[n] as int], c));
                    } else {
                        let k = choose|k: int|
                            0 <= k < t.len() && p == component(boxes[t[k] as int], c);
                        assert(0 <= k < s.len() && component(u, c) == component(boxes[s[k] as int], c));
                    }
                }
            }
        }
    }
}

/// Boxes that agree in all six components are equal.
proof fn lemma_components_equal(a: Aabb, b: Aabb)
    requires
        forall|c: int| 0 <= c < 6 ==> component(a, c) == component(b, c),
    ensures
        a == b,
{
    assert(component(a, 0) == component(b, 0));
    assert(component(a, 1) == component(b, 1));
    assert(component(a, 2) == component(b, 2));
    assert(component(a, 3) == component(b, 3));
    assert(component(a, 4) == component(b, 4));
    assert(component(a, 5) == component(b, 5));
}

/// The union of the boxes of a list of objects does not depend on the
/// order of the list.
pub proof fn lemma_union_all_permutation(boxes: Seq<Aabb>, s1: Seq<usize>, s2: Seq<usize>)
    requires
        s1.to_multiset() == s2.to_multiset(),
    ensures
        union_all(boxes, s1) == union_all(boxes, s2),
{
    lemma_union_all_extreme(boxes, s1);
    lemma_union_all_extreme(boxes, s2);
    let u1 = union_all(boxes, s1);
    let u2 = union_all(boxes, s2);
    assert forall|x: usize| s1.contains(x) <==> s2.contains(x) by {
        to_multiset_contains(s1, x);
        to_multiset_contains(s2, x);
    }
    assert forall|c: int| 0 <= c < 6 implies component(u1, c) == component(u2, c) by {
        if c < 3 {
            if component(u1, c) != INFINITY_KEY {
                let k = choose|k: int| 0 <= k < s1.len() && component(u1, c) == component(boxes[s1[k] as int], c);
                assert(s1.contains(s1[k]));
                let j = choose|j: int| 0 <= j < s2.len() && s2[j] == s1[k];
                assert(component(u2, c) <= component(u1, c));
            }
            if component(u2, c) != INFINITY_KEY {
                let k = choose|k: int| 0 <= k < s2.len() && component(u2, c) == component(boxes[s2[k] as int], c);
                assert(s2.contains(s2[k]));
                let j = choose|j: int| 0 <= j < s1.len() && s1[j] == s2[k];
                assert(component(u1, c) <= component(u2, c));
            }
        } else {
            if component(u1, c) != NEG_INFINITY_KEY {
                let k = choose|k: int| 0 <= k < s1.len() && component(u1, c) == component(boxes[s1[k] as int], c);
                assert(s1.contains(s1[k]));
                let j = choose|j: int| 0 <= j < s2.len() && s2[j] == s1[k];
                assert(component(u2, c) >= component(u1, c));
            }
            if component(u2, c) != NEG_INFINITY_KEY {
                let k = choose|k: int| 0 <= k < s2.len() && component(u2, c) == component(boxes[s2[k] as int], c);
                assert(s2.contains(s2[k]));
                let j = choose|j: int| 0 <= j < s1.len() && s1[j] == s2[k];
                assert(component(u1, c) >= component(u2, c));
            }
        }
    }
    lemma_components_equal(u1, u2);
}

/// The union over a concatenation is the union of the two partial unions.
pub proof fn lemma_union_all_split(boxes: Seq<Aabb>, s1: Seq<usize>, s2: Seq<usize>)
    ensures
        union_all(boxes, s1 + s2) == Aabb::spec_union(union_all(boxes, s1), union_all(boxes, s2)),
    decreases s2.len(),
{
    if s2.len() == 0 {
        assert(s1 + s2 =~= s1);
        lemma_union_all_extreme(boxes, s1);
        let u = union_all(boxes, s1);
        assert(component(u, 0) <= INFINITY_KEY);
        assert(component(u, 1) <= INFINITY_KEY);
        assert(component(u, 2) <= INFINITY_KEY);
        assert(component(u, 3) >= NEG_INFINITY_KEY);
        assert(component(u, 4) >= NEG_INFINITY_KEY);
        assert(component(u, 5) >= NEG_INFINITY_KEY);
    } else {
        assert((s1 + s2).drop_last() =~= s1 + s2.drop_last());
        lemma_union_all_split(boxes, s1, s2.drop_last());
    }
}

/// Two lists that hold the same objects, counted with multiplicity, hold
/// the same set of objects, and all of them are below `n` if one's are.
proof fn lemma_same_objects(s1: Seq<usize>, s2: Seq<usize>, n: nat)
    requires
        s1.to_multiset() == s2.to_multiset(),
        forall|k: int| 0 <= k < s1.len() ==> s1[k] < n,
    ensures
        s1.to_set() == s2.to_set(),
        forall|k: int| 0 <= k < s2.len() ==> s2[k] < n,
{
    assert forall|x: usize| s1.contains(x) <==> s2.contains(x) by {
        to_multiset_contains(s1, x);
        to_multiset_contains(s2, x);
    }
    assert(s1.to_set() =~= s2.to_set());
    assert forall|k: int| 0 <= k < s2.len() implies s2[k] < n by {
        assert(s2.contains(s2[k]));
    }
}

/// The empty box leaves a bounded box unchanged under union.
proof fn lemma_empty_unit(b: Aabb)
    requires
        b.spec_bounded(),
    ensures
        Aabb::spec_union(Aabb::spec_empty(), b) == b,
{
}

/// Relies on `slice::sort_by_key`: it permutes the slice `objects[start..end]`
/// so that the keys come out in non-decreasing order, and touches nothing
/// else. The key of an object is the minimum of its box along `axis`.
#[verifier::external_body]
fn sort_span_by_min(
    boxes: &Vec<Aabb>,
    objects: &mut Vec<usize>,
    start: usize,
    end: usize,
    axis: usize,
)
    requires
        start <= end <= old(objects).len(),
        forall|k: int| start <= k < end ==> old(objects)[k] < boxes.len(),
    ensures
        final(objects).len() == old(objects).len(),
        forall|k: int|
            0 <= k < old(objects).len() && !(start <= k < end) ==> final(objects)[k] == old(
                objects,
            )[k],
        final(objects)@.subrange(start as int, end as int).to_multiset() == old(
            objects,
        )@.subrange(start as int, end as int).to_multiset(),
        forall|i: int, j: int|
            start <= i <= j < end ==> boxes[final(objects)[i] as int].spec_axis(axis as int).min
                <= boxes[final(objects)[j] as int].spec_axis(axis as int).min,
{
    objects[start..end].sort_by_key(|&o| boxes[o].axis_interval(axis).min);
}

/// A copy of `objects[start..end]`.
fn copy_span(objects: &Vec<usize>, start: usize, end: usize) -> (r: Vec<usize>)
    requires
        start <= end <= objects.len(),
    ensures
        r@ == objects@.subrange(start as int, end as int),
{
    let mut r: Vec<usize> = Vec::new();
    let mut k = start;
    while k < end
        invariant
            start <= k <= end <= objects.len(),
            r@ == objects@.subrange(start as int, k as int),
        decreases end - k,
    {
        r.push(objects[k]);
        k += 1;
    }
    r
}

/// Builds the hierarchies over `left` and over `right`, possibly in
/// parallel.
///
/// Relies on `rayon::join`: it runs both closures to completion and returns
/// their results in order; each closure only calls the verified
/// `BvhNode::from_objects`, whose guarantees are restated here.
#[verifier::external_body]
fn build_halves<F: Fn(Interval) -> i64 + Sync>(
    boxes: &Vec<Aabb>,
    left: Vec<usize>,
    right: Vec<usize>,
    extent: &F,
) -> (r: (BvhNode, BvhNode))
    requires
        left.len() > 0,
        right.len() > 0,
        forall|k: int| 0 <= k < left.len() ==> left[k] < boxes.len(),
        forall|k: int| 0 <= k < right.len() ==> right[k] < boxes.len(),
        forall|k: int| 0 <= k < boxes.len() ==> boxes[k].spec_bounded(),
        forall|i: Interval| extent.requires((i,)),
    ensures
        r.0.wf(boxes@),
        r.0.objects() == left@.to_set(),
        r.0.bbox == union_all(boxes@, left@),
        r.1.wf(boxes@),
        r.1.objects() == right@.to_set(),
        r.1.bbox == union_all(boxes@, right@),
{
    let (mut left, mut right) = (left, right);
    let (left_len, right_len) = (left.len(), right.len());
    rayon::join(
        || BvhNode::from_objects(boxes, &mut left, 0, left_len, extent),
        || BvhNode::from_objects(boxes, &mut right, 0, right_len, extent),
    )
}

impl BvhNode {
    /// Searches the hierarchy for a hit in `ray_t`. `hit_object(o, i)`
    /// tests object `o` in interval `i` and reports the hit's parameter key
    /// and record; `hit_box(b, i)` tests box `b`.
    ///
    /// The result follows `spec_hit` for any functions that the two tests
    /// behave as; with `lemma_hit_is_closest` it is the closest hit of all
    /// the objects.
    pub fn hit<R, H: Fn(usize, Interval) -> Option<(i64, R)>, B: Fn(Aabb, Interval) -> bool>(
        &self,
        ray_t: Interval,
        hit_object: &H,
        hit_box: &B,
    ) -> (r: Option<(i64, R)>)
        requires
            forall|o: usize, i: Interval| hit_object.requires((o, i)),
            forall|b: Aabb, i: Interval| hit_box.requires((b, i)),
        ensures
            forall|h: spec_fn(usize, Interval) -> Option<i64>, bx: spec_fn(Aabb, Interval) -> bool|
                object_test_is(*hit_object, h) && box_test_is(*hit_box, bx) ==> opt_key(r)
                    == #[trigger] self.spec_hit(ray_t, h, bx),
        decreases self,
    {
        let box_hit = hit_box(self.bbox, ray_t);
        if !box_hit {
            return None;
        }
        let l = match &self.left {
            BvhChild::Object(o) => hit_object(*o, ray_t),
            BvhChild::Node(n) => n.hit(ray_t, hit_object, hit_box),
        };
        let right_t = match &l {
            Some((t, _)) => Interval::new(ray_t.min, *t),
            None => ray_t,
        };
        let r = match &self.right {
            BvhChild::Object(o) => hit_object(*o, right_t),
            BvhChild::Node(n) => n.hit(right_t, hit_object, hit_box),
        };
        let ghost lk = opt_key(l);
        let ghost rk = opt_key(r);
        let result = match r {
            Some(x) => Some(x),
            None => l,
        };
        proof {
            assert forall|h: spec_fn(usize, Interval) -> Option<i64>, bx: spec_fn(Aabb, Interval) -> bool|
                object_test_is(*hit_object, h) && box_test_is(*hit_box, bx) implies opt_key(result)
                == #[trigger] self.spec_hit(ray_t, h, bx) by {
                assert(box_hit == bx(self.bbox, ray_t));
                assert(lk == self.left.spec_hit(ray_t, h, bx));
                assert(rk == self.right.spec_hit(right_t, h, bx));
            }
        }
        result
    }

    /// The node splits `objects[start..end]` at `mid`: its left subtree
    /// holds `objects[start..mid]` and its right subtree `objects[mid..end]`,
    /// and along the longest axis of the node's box (by `extent`) no left
    /// object's box starts after a right object's box.
    pub open spec fn spec_split_at<F: Fn(Interval) -> i64>(
        self,
        boxes: Seq<Aabb>,
        objects: Seq<usize>,
        start: int,
        mid: int,
        end: int,
        extent: &F,
    ) -> bool {
        match (self.left, self.right) {
            (BvhChild::Node(l), BvhChild::Node(r)) => {
                &&& l.objects() == objects.subrange(start, mid).to_set()
                &&& r.objects() == objects.subrange(mid, end).to_set()
                &&& exists|ex: i64, ey: i64, ez: i64|
                    {
                        &&& extent.ensures((self.bbox.x,), ex)
                        &&& extent.ensures((self.bbox.y,), ey)
                        &&& extent.ensures((self.bbox.z,), ez)
                        &&& forall|a: usize, b: usize|
                            l.objects().contains(a) && r.objects().contains(b) ==> boxes[a as int].spec_axis(
                                spec_longest_axis(ex, ey, ez) as int,
                            ).min <= boxes[b as int].spec_axis(
                                spec_longest_axis(ex, ey, ez) as int,
                            ).min
                    }
            },
            _ => false,
        }
    }

    /// Builds a hierarchy over all objects, whose boxes are `boxes`.
    pub fn new<F: Fn(Interval) -> i64 + Sync>(boxes: &Vec<Aabb>, extent: &F) -> (r: BvhNode)
        requires
            boxes.len() > 0,
            forall|k: int| 0 <= k < boxes.len() ==> boxes[k].spec_bounded(),
            forall|i: Interval| extent.requires((i,)),
        ensures
            r.wf(boxes@),
            r.objects() == Set::new(|o: usize| o < boxes.len()),
            r.bbox == union_all(boxes@, Seq::new(boxes.len() as nat, |k: int| k as usize)),
    {
        let n = boxes.len();
        let mut objects: Vec<usize> = Vec::new();
        let mut i: usize = 0;
        while i < n
            invariant
                i <= n == boxes.len(),
                objects@ == Seq::new(i as nat, |k: int| k as usize),
            decreases n - i,
        {
            objects.push(i);
            i += 1;
        }
        let ghost all = objects@;
        let r = BvhNode::from_objects(boxes, &mut objects, 0, n, extent);
        proof {
            assert(all.subrange(0, n as int) == all);
            assert forall|o: usize| #[trigger] all.to_set().contains(o) <==> o < n by {
                if o < n {
                    assert(all[o as int] == o);
                }
            }
            assert(all.to_set() =~= Set::new(|o: usize| o < boxes.len()));
        }
        r
    }

    /// Builds the hierarchy over the objects `objects[start..end]`.
    ///
    /// Its box is the union of their boxes. A span of one object has it on
    /// both sides; a span of two has them on the left and right in their
    /// order. A longer span is ordered by the minimum of each box along the
    /// longest axis of the span's box (as `extent` measures it), in place,
    /// and split at its middle index; the two halves are built in parallel.
    pub fn from_objects<F: Fn(Interval) -> i64 + Sync>(
        boxes: &Vec<Aabb>,
        objects: &mut Vec<usize>,
        start: usize,
        end: usize,
        extent: &F,
    ) -> (r: BvhNode)
        requires
            start < end <= old(objects).len(),
            forall|k: int| start <= k < end ==> old(objects)[k] < boxes.len(),
            forall|k: int| 0 <= k < boxes.len() ==> boxes[k].spec_bounded(),
            forall|i: Interval| extent.requires((i,)),
        ensures
            r.wf(boxes@),
            r.objects() == old(objects)@.subrange(start as int, end as int).to_set(),
            r.bbox == union_all(boxes@, old(objects)@.subrange(start as int, end as int)),
            end - start == 1 ==> r.left == BvhChild::Object(old(objects)[start as int])
                && r.right == BvhChild::Object(old(objects)[start as int]),
            end - start == 2 ==> r.left == BvhChild::Object(old(objects)[start as int])
                && r.right == BvhChild::Object(old(objects)[start + 1]),
            end - start >= 3 ==> r.spec_split_at(
                boxes@,
                final(objects)@,
                start as int,
                start + (end - start) / 2,
                end as int,
                extent,
            ),
            final(objects).len() == old(objects).len(),
            forall|k: int|
                0 <= k < old(objects).len() && !(start <= k < end) ==> final(objects)[k] == old(
                    objects,
                )[k],
            final(objects)@.subrange(start as int, end as int).to_multiset() == old(
                objects,
            )@.subrange(start as int, end as int).to_multiset(),
        decreases end - start,
    {
        let ghost orig = objects@;
        let ghost span_seq = orig.subrange(start as int, end as int);
        let span = end - start;
        let mut bbox = Aabb::new_empty();
        let mut i = start;
        while i < end
            invariant
                start <= i <= end <= objects.len(),
                objects@ == orig,
                forall|k: int| start <= k < end ==> orig[k] < boxes.len(),
                bbox == union_all(boxes@, orig.subrange(start as int, i as int)),
            decreases end - i,
        {
            let o = objects[i];
            bbox = Aabb::from_aabbs(&bbox, &boxes[o]);
            assert(orig.subrange(start as int, i + 1).drop_last() == orig.subrange(
                start as int,
                i as int,
            ));
            i += 1;
        }
        assert(orig.subrange(start as int, end as int).to_set() =~= span_seq.to_set());
        if span == 1 {
            let o = objects[start];
            proof {
                assert(span_seq.drop_last() =~= Seq::<usize>::empty());
                assert(span_seq.last() == o);
                assert(union_all(boxes@, Seq::<usize>::empty()) == Aabb::spec_empty());
                lemma_empty_unit(boxes[o as int]);
                assert(span_seq.to_set() =~= set![o]) by {
                    assert(span_seq =~= seq![o]);
                }
            }
            let r = BvhNode { left: BvhChild::Object(o), right: BvhChild::Object(o), bbox };
            assert(bbox == boxes[o as int]);
            assert(r.wf(boxes@));
            r
        } else if span == 2 {
            let a = objects[start];
            let b = objects[start + 1];
            proof {
                assert(span_seq.drop_last().drop_last() =~= Seq::<usize>::empty());
                assert(span_seq.drop_last().last() == a);
                assert(span_seq.last() == b);
                assert(union_all(boxes@, Seq::<usize>::empty()) == Aabb::spec_empty());
                lemma_empty_unit(boxes[a as int]);
                assert(union_all(boxes@, span_seq.drop_last()) == boxes[a as int]);
                assert(span_seq =~= seq![a, b]);
                assert(span_seq.to_set() =~= set![a] + set![b]) by {
                    assert(span_seq.contains(a) && span_seq[1] == b);
                }
            }
            let r = BvhNode { left: BvhChild::Object(a), right: BvhChild::Object(b), bbox };
            assert(r.wf(boxes@));
            r
        } else {
            let ex = extent(bbox.x);
            let ey = extent(bbox.y);
            let ez = extent(bbox.z);
            let axis = Aabb::longest_axis_of(ex, ey, ez);
            sort_span_by_min(boxes, objects, start, end, axis);
            let ghost sorted = objects@;
            let mid = start + span / 2;
            proof {
                lemma_same_objects(span_seq, sorted.subrange(start as int, end as int), boxes.len() as nat);
                assert forall|k: int| start <= k < end implies sorted[k] < boxes.len() by {
                    assert(sorted.subrange(start as int, end as int)[k - start] == sorted[k]);
                }
            }
            let left_objects = copy_span(objects, start, mid);
            let right_objects = copy_span(objects, mid, end);
            proof {
                let sl = sorted.subrange(start as int, mid as int);
                let sr = sorted.subrange(mid as int, end as int);
                assert(sorted.subrange(start as int, end as int) =~= sl + sr);
                lemma_multiset_commutative(sl, sr);
                seq_to_set_distributes_over_add(sl, sr);
                lemma_union_all_split(boxes@, sl, sr);
                lemma_union_all_permutation(boxes@, span_seq, sl + sr);
                lemma_same_objects(span_seq, sl + sr, boxes.len() as nat);
            }
            let (left, right) = build_halves(boxes, left_objects, right_objects, extent);
            proof {
                let sl = sorted.subrange(start as int, mid as int);
                let sr = sorted.subrange(mid as int, end as int);
                assert forall|a: usize, b: usize|
                    left.objects().contains(a) && right.objects().contains(b) implies boxes[a as int].spec_axis(
                    spec_longest_axis(ex, ey, ez) as int).min <= boxes[b as int].spec_axis(
                    spec_longest_axis(ex, ey, ez) as int).min by {
                    assert(sl.to_set().contains(a));
                    assert(sr.to_set().contains(b));
                    assert(sl.contains(a));
                    assert(sr.contains(b));
                    let i = choose|i: int| 0 <= i < sl.len() && sl[i] == a;
                    let j = choose|j: int| 0 <= j < sr.len() && sr[j] == b;
                    assert(sorted[start + i] == a);
                    assert(sorted[mid + j] == b);
                }
            }
            let r = BvhNode {
                left: BvhChild::Node(Box::new(left)),
                right: BvhChild::Node(Box::new(right)),
                bbox,
            };
            assert(r.wf(boxes@));
            assert(r.spec_split_at(boxes@, objects@, start as int, mid as int, end as int, extent));
            r
        }
    }
}

} // verus!
