use raytracer::aabb::Aabb;
use raytracer::bvh::BvhNode;
use raytracer::hittable_list::closest_hit;
use raytracer::interval::Interval;

/// A small deterministic generator, so that failures reproduce.
struct Lcg(u64);

impl Lcg {
    fn next(&mut self, bound: i64) -> i64 {
        self.0 = self.0.wrapping_mul(6364136223846793005).wrapping_add(1442695040888963407);
        ((self.0 >> 33) % bound as u64) as i64
    }
}

fn width(i: Interval) -> i64 {
    i.max - i.min
}

/// Objects are sets of hit parameters; an object's box spans its
/// parameters on x and is a unit on y and z, offset per object.
fn scene(seed: u64, n: usize) -> (Vec<Vec<i64>>, Vec<Aabb>) {
    let mut g = Lcg(seed);
    let mut hits = Vec::new();
    let mut boxes = Vec::new();
    for k in 0..n {
        let base = g.next(1000);
        let ts: Vec<i64> = (0..1 + g.next(3)).map(|_| base + g.next(40)).collect();
        let lo = *ts.iter().min().unwrap();
        let hi = *ts.iter().max().unwrap();
        let y = (k as i64 * 37) % 11;
        boxes.push(Aabb {
            x: Interval::new(lo, hi),
            y: Interval::new(y, y + 1),
            z: Interval::new(0, 1),
        });
        hits.push(ts);
    }
    (hits, boxes)
}

fn closest_in(ts: &[i64], i: Interval) -> Option<i64> {
    ts.iter().copied().filter(|&t| i.contains(t)).min()
}

#[test]
fn bvh_hit_matches_linear_scan() {
    for seed in 1..6u64 {
        let (hits, boxes) = scene(seed, 40);
        let bvh = BvhNode::new(&boxes, &width);
        let hit_object = |o: usize, i: Interval| closest_in(&hits[o], i).map(|t| (t, o));
        let hit_box = |b: Aabb, i: Interval| b.x.min <= i.max && i.min <= b.x.max;
        let mut g = Lcg(seed * 97);
        for _ in 0..1000 {
            let lo = g.next(1100) - 50;
            let ray_t = Interval::new(lo, lo + g.next(600));
            let scan = (0..hits.len()).filter_map(|o| closest_in(&hits[o], ray_t)).min();
            let found = bvh.hit(ray_t, &hit_object, &hit_box);
            assert_eq!(found.map(|(t, _)| t), scan);
            if let Some((t, o)) = found {
                assert!(hits[o].contains(&t));
            }
        }
    }
}

#[test]
fn bvh_hit_prunes_missed_boxes() {
    let boxes = vec![
        Aabb { x: Interval::new(0, 1), y: Interval::new(0, 1), z: Interval::new(0, 1) },
        Aabb { x: Interval::new(5, 6), y: Interval::new(0, 1), z: Interval::new(0, 1) },
        Aabb { x: Interval::new(9, 9), y: Interval::new(0, 1), z: Interval::new(0, 1) },
    ];
    let bvh = BvhNode::new(&boxes, &width);
    let never = |_: Aabb, _: Interval| false;
    let always_hit = |o: usize, _: Interval| Some((o as i64, ()));
    assert!(bvh.hit(Interval::new(0, 100), &always_hit, &never).is_none());
}

#[test]
fn list_scan_finds_closest() {
    let hits: Vec<Vec<i64>> = vec![vec![30, 70], vec![50], vec![10, 90], vec![], vec![60]];
    let hit_object = |o: usize, i: Interval| closest_in(&hits[o], i).map(|t| (t, o));
    assert_eq!(closest_hit(hits.len(), Interval::new(0, 100), &hit_object), Some((10, 2)));
    assert_eq!(closest_hit(hits.len(), Interval::new(20, 100), &hit_object), Some((30, 0)));
    assert_eq!(closest_hit(hits.len(), Interval::new(55, 65), &hit_object), Some((60, 4)));
    assert_eq!(closest_hit(hits.len(), Interval::new(91, 100), &hit_object), None);
    assert_eq!(closest_hit(0, Interval::new(0, 100), &hit_object), None);
}

#[test]
fn bvh_and_scan_agree() {
    let (hits, boxes) = scene(11, 25);
    let bvh = BvhNode::new(&boxes, &width);
    let hit_object = |o: usize, i: Interval| closest_in(&hits[o], i).map(|t| (t, o));
    let hit_box = |b: Aabb, i: Interval| b.x.min <= i.max && i.min <= b.x.max;
    let mut g = Lcg(5);
    for _ in 0..500 {
        let lo = g.next(1000);
        let ray_t = Interval::new(lo, lo + g.next(300));
        let a = bvh.hit(ray_t, &hit_object, &hit_box).map(|(t, _)| t);
        let b = closest_hit(hits.len(), ray_t, &hit_object).map(|(t, _)| t);
        assert_eq!(a, b);
    }
}
