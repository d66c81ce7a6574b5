use crate::aabb::Aabb;
use crate::bvh::{
    box_test_conservative, hits_in_range, is_closest, lemma_hit_is_closest, object_test_is,
    opt_key, reports_closest, BvhNode,
};
use crate::interval::Interval;
use vstd::prelude::*;

verus! {

/// What a scan of objects `0..k` in order finds in `i`: each object is
/// tested up to the closest hit found so far, and a later hit replaces an
/// earlier one.
pub open spec fn spec_scan(k: nat, i: Interval, h: spec_fn(usize, Interval) -> Option<i64>) -> Option<i64>
    decreases k,
{
    if k == 0 {
        None
    } else {
        let prev = spec_scan((k - 1) as nat, i, h);
        let upto = match prev {
            Some(t) => Interval { min: i.min, max: t },
            None => i,
        };
        match h((k - 1) as usize, upto) {
            Some(t) => Some(t),
            None => prev,
        }
    }
}

/// The scan finds the closest hit among all the objects it tests, when
/// each object test reports the closest hit in the interval it is given.
pub proof fn lemma_scan_is_closest(k: nat, i: Interval, h: spec_fn(usize, Interval) -> Option<i64>)
    requires
        hits_in_range(h),
        reports_closest(h),
    ensures
        is_closest(spec_scan(k, i, h), Set::new(|o: usize| o < k), i, h),
    decreases k,
{
    if k > 0 {
        let k1 = (k - 1) as nat;
        lemma_scan_is_closest(k1, i, h);
        let before = Set::new(|o: usize| o < k1);
        let all = Set::new(|o: usize| o < k);
        let last = k1 as usize;
        let prev = spec_scan(k1, i, h);
        match prev {
            None => {
                assert forall|o: usize| all.contains(o) && o != last implies #[trigger] h(o, i) is None by {
                    assert(before.contains(o));
                }
                match h(last, i) {
                    Some(t) => {
                        assert(all.contains(last));
                        assert forall|o: usize| all.contains(o) implies match #[trigger] h(o, i) {
                            Some(t2) => t <= t2,
                            None => true,
                        } by {
                            if o != last {
                                assert(before.contains(o));
                            }
                        }
                    },
                    None => {
                        assert forall|o: usize| all.contains(o) implies #[trigger] h(o, i) is None by {
                            if o != last {
                                assert(before.contains(o));
                            }
                        }
                    },
                }
            },
            Some(tp) => {
                let w = choose|o: usize| before.contains(o) && #[trigger] h(o, i) == Some(tp);
                assert(i.min <= tp <= i.max);
                let upto = Interval { min: i.min, max: tp };
                assert(all.contains(w));
                match h(last, upto) {
                    Some(tl) => {
                        assert(h(last, i) == Some(tl));
                        assert(tl <= tp);
                        assert(all.contains(last));
                        assert forall|o: usize| all.contains(o) implies match #[trigger] h(o, i) {
                            Some(t2) => tl <= t2,
                            None => true,
                        } by {
                            if o != last {
                                assert(before.contains(o));
                            }
                        }
                    },
                    None => {
                        assert forall|o: usize| all.contains(o) implies match #[trigger] h(o, i) {
                            Some(t2) => tp <= t2,
                            None => true,
                        } by {
                            if o != last {
                                assert(before.contains(o));
                            } else if let Some(t2) = h(o, i) {
                                if t2 < tp {
                                    assert(h(last, upto) == Some(t2));
                                }
                            }
                        }
                    },
                }
            },
        }
    }
}

/// There is one closest hit.
proof fn lemma_closest_unique(
    r1: Option<i64>,
    r2: Option<i64>,
    objects: Set<usize>,
    i: Interval,
    h: spec_fn(usize, Interval) -> Option<i64>,
)
    requires
        is_closest(r1, objects, i, h),
        is_closest(r2, objects, i, h),
    ensures
        r1 == r2,
{
    if let Some(t1) = r1 {
        let w = choose|o: usize| objects.contains(o) && #[trigger] h(o, i) == Some(t1);
        assert(h(w, i) is Some);
        if let Some(t2) = r2 {
            let w2 = choose|o: usize| objects.contains(o) && #[trigger] h(o, i) == Some(t2);
            assert(t1 <= t2);
            assert(t2 <= t1);
        }
    } else if let Some(t2) = r2 {
        let w2 = choose|o: usize| objects.contains(o) && #[trigger] h(o, i) == Some(t2);
        assert(h(w2, i) is None);
    }
}

/// Searching a well-formed hierarchy over objects `0..count` finds the same
/// hit as scanning all of them in order, when each object test reports the
/// closest hit in the interval it is given and the box test is
/// conservative.
pub proof fn lemma_hit_matches_scan(
    node: BvhNode,
    boxes: Seq<Aabb>,
    count: nat,
    i: Interval,
    h: spec_fn(usize, Interval) -> Option<i64>,
    bx: spec_fn(Aabb, Interval) -> bool,
)
    requires
        node.wf(boxes),
        node.objects() == Set::new(|o: usize| o < count),
        hits_in_range(h),
        reports_closest(h),
        box_test_conservative(h, bx, boxes),
    ensures
        node.spec_hit(i, h, bx) == spec_scan(count, i, h),
{
    lemma_hit_is_closest(node, boxes, i, h, bx);
    lemma_scan_is_closest(count, i, h);
    lemma_closest_unique(node.spec_hit(i, h, bx), spec_scan(count, i, h), node.objects(), i, h);
}

/// Tests objects `0..count` in order, each up to the closest hit found so
/// far, and returns the last hit reported: the closest hit of all of them
/// (see `lemma_scan_is_closest`).
pub fn closest_hit<R, H: Fn(usize, Interval) -> Option<(i64, R)>>(
    count: usize,
    ray_t: Interval,
    hit_object: &H,
) -> (r: Option<(i64, R)>)
    requires
        forall|o: usize, i: Interval| hit_object.requires((o, i)),
    ensures
        forall|h: spec_fn(usize, Interval) -> Option<i64>|
            object_test_is(*hit_object, h) ==> opt_key(r) == #[trigger] spec_scan(count as nat, ray_t, h),
{
    let mut best: Option<(i64, R)> = None;
    let mut closest_so_far = ray_t.max;
    let mut k: usize = 0;
    while k < count
        invariant
            k <= count,
            forall|o: usize, i: Interval| hit_object.requires((o, i)),
            closest_so_far == match opt_key(best) {
                Some(t) => t,
                None => ray_t.max,
            },
            forall|h: spec_fn(usize, Interval) -> Option<i64>|
                object_test_is(*hit_object, h) ==> opt_key(best) == #[trigger] spec_scan(k as nat, ray_t, h),
        decreases count - k,
    {
        let query = Interval::new(ray_t.min, closest_so_far);
        let found = hit_object(k, query);
        let ghost old_best = opt_key(best);
        match found {
            Some((t, rec)) => {
                closest_so_far = t;
                best = Some((t, rec));
            },
            None => {},
        }
        proof {
            assert forall|h: spec_fn(usize, Interval) -> Option<i64>|
                object_test_is(*hit_object, h) implies opt_key(best) == #[trigger] spec_scan(
                (k + 1) as nat,
                ray_t,
                h,
            ) by {
                assert(old_best == spec_scan(k as nat, ray_t, h));
                let upto = match old_best {
                    Some(t) => Interval { min: ray_t.min, max: t },
                    None => ray_t,
                };
                assert(query == upto);
            }
        }
        k += 1;
    }
    best
}

} // verus!
