use raytracer::color::{write_color, write_color_to_string};
use raytracer::pdf::SpherePdf;
use raytracer::perlin::{Perlin, POINT_COUNT};
use raytracer::render::{assemble_image, ppm_header, sqrt_samples};
use raytracer::rtw_stb_image::RtwImage;
use raytracer::rtweekend::random_int;
use raytracer::texture::SolidColor;

#[test]
fn pixel_line_text() {
    assert_eq!(write_color_to_string(255, 0, 12), "255 0 12\n");
    assert_eq!(write_color_to_string(7, 100, 9), "7 100 9\n");
}

#[test]
fn write_color_appends() {
    let mut out = String::from("P3\n");
    write_color(&mut out, 1, 2, 3);
    write_color(&mut out, 40, 50, 60);
    assert_eq!(out, "P3\n1 2 3\n40 50 60\n");
}

#[test]
fn header_and_rows_in_order() {
    assert_eq!(ppm_header(200, 100), "P3\n200 100\n255\n");
    let rows = vec!["0 0 0\n".to_string(), "1 1 1\n".to_string(), "2 2 2\n".to_string()];
    assert_eq!(assemble_image(1, 3, &rows), "P3\n1 3\n255\n0 0 0\n1 1 1\n2 2 2\n");
    assert_eq!(assemble_image(4, 0, &Vec::new()), "P3\n4 0\n255\n");
}

#[test]
fn stratification_side() {
    assert_eq!(sqrt_samples(10), 3);
    assert_eq!(sqrt_samples(9), 3);
    assert_eq!(sqrt_samples(8), 2);
    assert_eq!(sqrt_samples(1), 1);
    assert_eq!(sqrt_samples(0), 0);
    assert_eq!(sqrt_samples(-4), 0);
    assert_eq!(sqrt_samples(i32::MAX), 46340);
}

#[test]
fn random_int_stays_in_range() {
    for _ in 0..1000 {
        let r = random_int(-3, 4);
        assert!((-3..=4).contains(&r));
    }
    assert_eq!(random_int(7, 7), 7);
}

#[test]
fn perlin_tables_are_permutations() {
    for _ in 0..3 {
        let mut p = Perlin::perlin_generate_perm();
        assert_eq!(p.len(), POINT_COUNT);
        p.sort();
        assert_eq!(p, (0..POINT_COUNT).collect::<Vec<usize>>());
    }
}

#[test]
fn permute_keeps_entries_and_tail() {
    let mut p: Vec<usize> = (0..20).collect();
    Perlin::permute(&mut p, 10);
    assert_eq!(&p[10..], &(10..20).collect::<Vec<usize>>()[..]);
    let mut head = p[..10].to_vec();
    head.sort();
    assert_eq!(head, (0..10).collect::<Vec<usize>>());
}

#[test]
fn lattice_index_in_range_and_wraps() {
    let perlin = Perlin::new();
    for i in -300..300 {
        assert!(perlin.lattice_index(i, 2 * i, -i) < POINT_COUNT);
        assert_eq!(perlin.lattice_index(i, 5, 9), perlin.lattice_index(i + 256, 5 - 512, 9 + 256));
    }
}

#[test]
fn image_lookup_clamps() {
    let bytes: Vec<u8> = (0..12).collect();
    let img = RtwImage::from_bytes(2, 2, bytes).unwrap();
    assert_eq!((img.width(), img.height()), (2, 2));
    assert_eq!(img.pixel_data(0, 0), [0, 1, 2]);
    assert_eq!(img.pixel_data(1, 0), [3, 4, 5]);
    assert_eq!(img.pixel_data(0, 1), [6, 7, 8]);
    assert_eq!(img.pixel_data(9, 9), [9, 10, 11]);
}

#[test]
fn image_without_data_is_magenta() {
    let img = RtwImage::empty();
    assert_eq!(img.height(), 0);
    assert_eq!(img.pixel_data(3, 4), [255, 0, 255]);
    assert!(RtwImage::from_bytes(2, 2, vec![0; 11]).is_none());
    assert!(RtwImage::from_bytes(0, 2, Vec::new()).is_none());
}

#[test]
fn solid_color_and_sphere_pdf() {
    let t = SolidColor::new((1u8, 2u8, 3u8));
    assert_eq!(t.value(), (1, 2, 3));
    assert_eq!(SpherePdf::new(), SpherePdf);
}
