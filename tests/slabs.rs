use raytracer::aabb::Aabb;
use raytracer::interval::Interval;

fn key(x: f64) -> i64 {
    let bits = x.to_bits() as i64;
    if bits >= 0 {
        bits
    } else {
        (bits & i64::MAX).wrapping_neg()
    }
}

fn param_key(x: f64) -> Option<i64> {
    if x.is_nan() {
        None
    } else {
        Some(key(x))
    }
}

fn unit_box() -> Aabb {
    Aabb {
        x: Interval::new(key(-1.0), key(1.0)),
        y: Interval::new(key(-1.0), key(1.0)),
        z: Interval::new(key(-1.0), key(1.0)),
    }
}

fn hits(b: &Aabb, orig: [f64; 3], dir: [f64; 3]) -> bool {
    let roots = |slab: Interval, axis: usize| {
        let lo = f64::from_bits(slab.min as u64);
        let hi = f64::from_bits(slab.max as u64);
        let lo = if slab.min < 0 { -f64::from_bits(slab.min.wrapping_neg() as u64) } else { lo };
        let hi = if slab.max < 0 { -f64::from_bits(slab.max.wrapping_neg() as u64) } else { hi };
        let adinv = 1.0 / dir[axis];
        (param_key((lo - orig[axis]) * adinv), param_key((hi - orig[axis]) * adinv))
    };
    b.hit(Interval::new_universe(), &roots)
}

#[test]
fn slab_ray_through_center_hits() {
    assert!(hits(&unit_box(), [0.0, 0.0, -5.0], [0.0, 0.0, 1.0]));
    assert!(hits(&unit_box(), [-4.0, -4.0, -4.0], [1.0, 1.0, 1.0]));
}

#[test]
fn slab_ray_outside_misses() {
    assert!(!hits(&unit_box(), [0.0, 3.0, -5.0], [0.0, 0.0, 1.0]));
    assert!(!hits(&unit_box(), [-4.0, 0.0, 0.0], [1.0, 3.0, 0.2]));
}

#[test]
fn slab_ray_with_zero_component_inside_slab_hits() {
    assert!(hits(&unit_box(), [0.5, -5.0, 0.25], [0.0, 1.0, 0.0]));
}

#[test]
fn slab_ray_with_zero_component_outside_slab_misses() {
    assert!(!hits(&unit_box(), [1.5, -5.0, 0.25], [0.0, 1.0, 0.0]));
}

#[test]
fn slab_ray_tangent_to_face_follows_float_comparisons() {
    // Along the plane x = 1 the x slab's crossings are -inf and NaN (0 * inf).
    // As with f64 comparisons, the pair is not reordered, the NaN narrows
    // nothing, and the exit at -inf empties the range: a miss.
    assert!(!hits(&unit_box(), [1.0, -5.0, 0.0], [0.0, 1.0, 0.0]));
    // Along x = -1 the crossings are NaN and +inf: the entry at +inf
    // empties the range in the same way.
    assert!(!hits(&unit_box(), [-1.0, -5.0, 0.0], [0.0, 1.0, 0.0]));
}

#[test]
fn slab_narrow_orders_crossings() {
    let i = Interval::new(-100, 100);
    assert_eq!(Aabb::narrow(i, (Some(30), Some(-20))), Interval::new(-20, 30));
    assert_eq!(Aabb::narrow(i, (Some(-500), Some(500))), i);
    assert_eq!(Aabb::narrow(i, (None, Some(50))), Interval::new(50, 100));
    assert_eq!(Aabb::narrow(i, (Some(50), None)), Interval::new(-100, 50));
}
