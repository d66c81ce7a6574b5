use raytracer::integrator::{classify_hit, next_depth, Bounce};
use raytracer::interval::{Interval, INFINITY_KEY};
use raytracer::medium::traversed_segment;
use raytracer::render::render_image;

#[test]
fn depth_zero_is_black() {
    assert_eq!(next_depth(0), None);
    assert_eq!(next_depth(-3), None);
    assert_eq!(next_depth(1), Some(0));
    assert_eq!(next_depth(50), Some(49));
}

#[test]
fn bounce_decisions() {
    assert_eq!(classify_hit(false, true, true), Bounce::Background);
    assert_eq!(classify_hit(true, false, true), Bounce::Emitted);
    assert_eq!(classify_hit(true, true, true), Bounce::Specular);
    assert_eq!(classify_hit(true, true, false), Bounce::Sampled);
}

#[test]
fn medium_segment_is_clamped_to_query() {
    let q = Interval::new(10, 100);
    assert_eq!(traversed_segment(5, 50, &q), Some(Interval::new(10, 50)));
    assert_eq!(traversed_segment(20, 500, &q), Some(Interval::new(20, 100)));
    assert_eq!(traversed_segment(200, 300, &q), None);
    assert_eq!(traversed_segment(40, 40, &q), None);
}

#[test]
fn medium_segment_starts_at_ray_origin() {
    let q = Interval::new(-INFINITY_KEY, INFINITY_KEY);
    assert_eq!(traversed_segment(-7, 9, &q), Some(Interval::new(0, 9)));
}

#[test]
fn rows_come_out_in_order() {
    let text = render_image(2, 4, &|j: u32| format!("row {}\n", j));
    assert_eq!(text, "P3\n2 4\n255\nrow 0\nrow 1\nrow 2\nrow 3\n");
}
