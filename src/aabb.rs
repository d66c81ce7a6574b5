use crate::interval::{max_key, min_key, Interval, INFINITY_KEY, NEG_INFINITY_KEY};
use vstd::prelude::*;

verus! {

/// An axis-aligned box: one interval of keys per axis.
#[derive(Clone, Copy, Debug, PartialEq, Eq, Structural)]
pub struct Aabb {
    pub x: Interval,
    pub y: Interval,
    pub z: Interval,
}

/// Which axis wins the comparison chain: `x` against `y` first, then the
/// winner against `z`; a tie goes to the later axis of each comparison.
pub open spec fn spec_longest_axis(ex: i64, ey: i64, ez: i64) -> usize {
    if ex > ey {
        if ex > ez { 0 } else { 2 }
    } else {
        if ey > ez { 1 } else { 2 }
    }
}

/// `a < b` where `None` stands for a NaN parameter, which compares as
/// neither less nor greater than anything.
pub open spec fn key_lt(a: Option<i64>, b: Option<i64>) -> bool {
    match (a, b) {
        (Some(x), Some(y)) => x < y,
        _ => false,
    }
}

/// One slab step of the box test: the two parameters at which the ray
/// crosses the slab's planes, in increasing order, narrow the parameter
/// range `i`; a NaN parameter narrows nothing.
pub open spec fn spec_narrow(i: Interval, roots: (Option<i64>, Option<i64>)) -> Interval {
    let (t0, t1) = roots;
    let (lo, hi) = if key_lt(t0, t1) { (t0, t1) } else { (t1, t0) };
    let min = match lo {
        Some(t) => if t > i.min { t } else { i.min },
        None => i.min,
    };
    let max = match hi {
        Some(t) => if t < i.max { t } else { i.max },
        None => i.max,
    };
    Interval { min, max }
}

/// The box test over three slabs, in the order x, y, z, stopping at the
/// first that leaves an empty range (`max <= min`).
pub open spec fn spec_slab_hit(
    i: Interval,
    rx: (Option<i64>, Option<i64>),
    ry: (Option<i64>, Option<i64>),
    rz: (Option<i64>, Option<i64>),
) -> bool {
    let i1 = spec_narrow(i, rx);
    let i2 = spec_narrow(i1, ry);
    let i3 = spec_narrow(i2, rz);
    i1.max > i1.min && i2.max > i2.min && i3.max > i3.min
}

/// The slab-crossing function `f` behaves as `g`.
pub open spec fn roots_are<F: Fn(Interval, usize) -> (Option<i64>, Option<i64>)>(
    f: F,
    g: spec_fn(Interval, usize) -> (Option<i64>, Option<i64>),
) -> bool {
    forall|slab: Interval, axis: usize, res: (Option<i64>, Option<i64>)|
        #[trigger] f.ensures((slab, axis), res) ==> res == g(slab, axis)
}

impl Interval {
    /// Both ends lie between the keys of `-inf` and `+inf`, as the keys of
    /// all coordinates that are not NaN do.
    pub open spec fn spec_bounded(self) -> bool {
        NEG_INFINITY_KEY <= self.min <= INFINITY_KEY && NEG_INFINITY_KEY <= self.max <= INFINITY_KEY
    }
}

impl Aabb {
    pub open spec fn spec_bounded(self) -> bool {
        self.x.spec_bounded() && self.y.spec_bounded() && self.z.spec_bounded()
    }

    /// The interval of axis `n` (0 is x, 1 is y, 2 is z); any other index
    /// gives the x interval.
    pub open spec fn spec_axis(self, n: int) -> Interval {
        if n == 1 {
            self.y
        } else if n == 2 {
            self.z
        } else {
            self.x
        }
    }

    /// The smallest box containing both boxes.
    pub open spec fn spec_union(a: Aabb, b: Aabb) -> Aabb {
        Aabb {
            x: Interval::spec_union(a.x, b.x),
            y: Interval::spec_union(a.y, b.y),
            z: Interval::spec_union(a.z, b.z),
        }
    }

    /// Every axis interval of `self` contains the one of `inner`.
    pub open spec fn spec_encloses(self, inner: Aabb) -> bool {
        &&& self.x.min <= inner.x.min && inner.x.max <= self.x.max
        &&& self.y.min <= inner.y.min && inner.y.max <= self.y.max
        &&& self.z.min <= inner.z.min && inner.z.max <= self.z.max
    }

    pub open spec fn spec_empty() -> Aabb {
        Aabb { x: Interval::spec_empty(), y: Interval::spec_empty(), z: Interval::spec_empty() }
    }

    /// The box that contains nothing; it is the unit of `from_aabbs` for
    /// every box whose minima lie at or below `+inf` and maxima at or above
    /// `-inf`.
    pub fn new_empty() -> (r: Aabb)
        ensures
            r == Aabb::spec_empty(),
    {
        Aabb { x: Interval::new_empty(), y: Interval::new_empty(), z: Interval::new_empty() }
    }

    /// The smallest box containing both `box0` and `box1`.
    pub fn from_aabbs(box0: &Aabb, box1: &Aabb) -> (r: Aabb)
        ensures
            r == Aabb::spec_union(*box0, *box1),
    {
        Aabb {
            x: Interval::from_intervals(&box0.x, &box1.x),
            y: Interval::from_intervals(&box0.y, &box1.y),
            z: Interval::from_intervals(&box0.z, &box1.z),
        }
    }

    pub fn axis_interval(&self, n: usize) -> (r: &Interval)
        ensures
            *r == self.spec_axis(n as int),
    {
        match n {
            1 => &self.y,
            2 => &self.z,
            _ => &self.x,
        }
    }

    /// Whether a ray meets the box for a parameter in `ray_t`.
    ///
    /// `roots(slab, axis)` gives the keys of the parameters at which the ray
    /// crosses the two planes of the slab `slab` of axis `axis` (`None` for
    /// NaN; a ray parallel to a slab gives infinite parameters). Axis by
    /// axis the parameter range is narrowed to those crossings, and the
    /// test fails as soon as it is empty.
    pub fn hit<F: Fn(Interval, usize) -> (Option<i64>, Option<i64>)>(
        &self,
        ray_t: Interval,
        roots: &F,
    ) -> (r: bool)
        requires
            forall|slab: Interval, axis: usize| roots.requires((slab, axis)),
        ensures
            forall|g: spec_fn(Interval, usize) -> (Option<i64>, Option<i64>)|
                roots_are(*roots, g) ==> r == #[trigger] spec_slab_hit(
                    ray_t,
                    g(self.x, 0),
                    g(self.y, 1),
                    g(self.z, 2),
                ),
    {
        let rx = roots(self.x, 0);
        let i1 = Aabb::narrow(ray_t, rx);
        if i1.max <= i1.min {
            return false;
        }
        let ry = roots(self.y, 1);
        let i2 = Aabb::narrow(i1, ry);
        if i2.max <= i2.min {
            return false;
        }
        let rz = roots(self.z, 2);
        let i3 = Aabb::narrow(i2, rz);
        i3.max > i3.min
    }

    /// One slab step of `hit`.
    pub fn narrow(i: Interval, roots: (Option<i64>, Option<i64>)) -> (r: Interval)
        ensures
            r == spec_narrow(i, roots),
    {
        let (t0, t1) = roots;
        let swap = match (t0, t1) {
            (Some(x), Some(y)) => !(x < y),
            _ => true,
        };
        let (lo, hi) = if swap { (t1, t0) } else { (t0, t1) };
        let min = match lo {
            Some(t) => if t > i.min { t } else { i.min },
            None => i.min,
        };
        let max = match hi {
            Some(t) => if t < i.max { t } else { i.max },
            None => i.max,
        };
        Interval { min, max }
    }

    /// The axis of greatest extent, where `extent` gives the extent key of
    /// an interval; ties as in `spec_longest_axis`.
    pub fn longest_axis<F: Fn(Interval) -> i64>(&self, extent: &F) -> (r: usize)
        requires
            forall|i: Interval| extent.requires((i,)),
        ensures
            r < 3,
            exists|ex: i64, ey: i64, ez: i64|
                extent.ensures((self.x,), ex) && extent.ensures((self.y,), ey) && extent.ensures(
                    (self.z,),
                    ez,
                ) && r == spec_longest_axis(ex, ey, ez),
    {
        let ex = extent(self.x);
        let ey = extent(self.y);
        let ez = extent(self.z);
        Aabb::longest_axis_of(ex, ey, ez)
    }

    /// The axis of greatest extent, given the extent keys of the three
    /// axes, with the tie order of `spec_longest_axis`.
    pub fn longest_axis_of(ex: i64, ey: i64, ez: i64) -> (r: usize)
        ensures
            r == spec_longest_axis(ex, ey, ez),
            r < 3,
    {
        if ex > ey {
            if ex > ez {
                0
            } else {
                2
            }
        } else {
            if ey > ez {
                1
            } else {
                2
            }
        }
    }
}

/// With every crossing a number, the box test succeeds exactly when the
/// three crossing ranges and `i` share more than one parameter: the
/// latest entry lies strictly before the earliest exit.
pub proof fn lemma_slab_hit_is_overlap(i: Interval, x0: i64, x1: i64, y0: i64, y1: i64, z0: i64, z1: i64)
    ensures
        spec_slab_hit(i, (Some(x0), Some(x1)), (Some(y0), Some(y1)), (Some(z0), Some(z1)))
            <==> max_key(max_key(i.min, min_key(x0, x1)), max_key(min_key(y0, y1), min_key(z0, z1)))
            < min_key(min_key(i.max, max_key(x0, x1)), min_key(max_key(y0, y1), max_key(z0, z1))),
{
}

} // verus!
