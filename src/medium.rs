use crate::interval::Interval;
use vstd::prelude::*;

verus! {

/// The part of a ray inside a medium's boundary that lies in `ray_t`.
///
/// `enter` and `exit` are the parameters at which the ray crosses the
/// boundary. Both are clamped into `ray_t`; when nothing of positive length
/// is left there is no segment. Otherwise the segment starts no earlier
/// than parameter 0 (key 0), since the medium lies ahead of the ray's
/// origin.
pub open spec fn spec_traversed_segment(enter: i64, exit: i64, ray_t: Interval) -> Option<Interval> {
    let t1 = if enter < ray_t.min { ray_t.min } else { enter };
    let t2 = if exit > ray_t.max { ray_t.max } else { exit };
    if t1 >= t2 {
        None
    } else {
        Some(Interval { min: if t1 < 0 { 0 } else { t1 }, max: t2 })
    }
}

pub fn traversed_segment(enter: i64, exit: i64, ray_t: &Interval) -> (r: Option<Interval>)
    ensures
        r == spec_traversed_segment(enter, exit, *ray_t),
        r matches Some(s) ==> s.min >= 0 && s.min >= ray_t.min && s.max <= ray_t.max,
{
    let mut t1 = if enter < ray_t.min { ray_t.min } else { enter };
    let t2 = if exit > ray_t.max { ray_t.max } else { exit };
    if t1 >= t2 {
        return None;
    }
    if t1 < 0 {
        t1 = 0;
    }
    Some(Interval::new(t1, t2))
}

} // verus!
