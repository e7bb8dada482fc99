use raytracer::{encode_ppm, Image, Lambertian, Nothing, RenderTask, Rgb, Scatter};

#[test]
fn lambertian_new_keeps_albedo() {
    let m = Lambertian::new((0.4, 0.2, 0.1));
    assert_eq!(m.albedo, (0.4, 0.2, 0.1));
}

#[test]
fn lambertian_scatters_from_hit_point_with_albedo() {
    let m = Lambertian::new([0.5f64, 0.25, 0.125]);
    let s: Scatter<[f64; 3], [f64; 3]> = m
        .scatter([1.0, 2.0, 3.0], [0.0, 1.0, 0.0], [0.3, 1.2, -0.4], false)
        .unwrap();
    assert_eq!(s.attenuation, [0.5, 0.25, 0.125]);
    assert_eq!(s.origin, [1.0, 2.0, 3.0]);
    assert_eq!(s.direction, [0.3, 1.2, -0.4]);
}

#[test]
fn lambertian_falls_back_to_normal_when_degenerate() {
    let m = Lambertian::new([0.9f64, 0.9, 0.9]);
    let s = m.scatter([0.0, 0.0, -1.0], [0.0, 0.0, 1.0], [1e-9, 0.0, 0.0], true).unwrap();
    assert_eq!(s.direction, [0.0, 0.0, 1.0]);
    assert_eq!(s.origin, [0.0, 0.0, -1.0]);
    assert_eq!(s.attenuation, [0.9, 0.9, 0.9]);
}

#[test]
fn nothing_absorbs() {
    let n = Nothing {};
    let s: Option<Scatter<f64, f64>> = n.scatter();
    assert!(s.is_none());
}

fn text(bytes: Vec<u8>) -> String {
    String::from_utf8(bytes).unwrap()
}

#[test]
fn ppm_of_two_by_two_image() {
    let colours = [
        Rgb { r: 255, g: 0, b: 7 },
        Rgb { r: 10, g: 100, b: 0 },
        Rgb { r: 1, g: 2, b: 3 },
        Rgb { r: 99, g: 128, b: 255 },
    ];
    let task = RenderTask::new(0, 4, 1);
    let img: Image<Rgb> = task.render(2, 2, Rgb { r: 0, g: 0, b: 0 }, |x, y| colours[(y * 2 + x) as usize]);
    assert_eq!(
        text(encode_ppm(&img)),
        "P3\n2 2\n255\n255 0 7\n10 100 0\n1 2 3\n99 128 255\n"
    );
}

#[test]
fn ppm_of_empty_image_is_header_only() {
    let img: Image<Rgb> = Image::new(0, 0, Rgb { r: 0, g: 0, b: 0 });
    assert_eq!(text(encode_ppm(&img)), "P3\n0 0\n255\n");
}

#[test]
fn ppm_writes_multi_digit_dimensions() {
    let img: Image<Rgb> = Image::new(12, 1, Rgb { r: 0, g: 5, b: 40 });
    let out = text(encode_ppm(&img));
    assert!(out.starts_with("P3\n12 1\n255\n"));
    assert_eq!(out.lines().count(), 3 + 12);
    assert!(out.lines().skip(3).all(|l| l == "0 5 40"));
}
