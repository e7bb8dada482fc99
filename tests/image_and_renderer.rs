use raytracer::{Image, RenderTask, Renderer};

#[test]
fn new_image_is_filled_with_zero() {
    let img: Image<f64> = Image::new(4, 2, 0.0);
    assert_eq!(img.width(), 4);
    assert_eq!(img.height(), 2);
    for y in 0..2 {
        for x in 0..4 {
            assert_eq!(img.pixel(x, y), 0.0);
        }
    }
}

#[test]
fn empty_image_has_no_pixels() {
    let img: Image<u8> = Image::new(0, 0, 1);
    assert_eq!(img.width(), 0);
    assert_eq!(img.height(), 0);
}

#[test]
fn set_pixel_changes_one_pixel() {
    let mut img: Image<i32> = Image::new(3, 2, 0);
    img.set_pixel(2, 1, 5);
    for y in 0..2 {
        for x in 0..3 {
            let expected = if (x, y) == (2, 1) { 5 } else { 0 };
            assert_eq!(img.pixel(x, y), expected);
        }
    }
}

#[test]
fn add_image_sums_pixelwise() {
    let mut a: Image<f64> = Image::new(2, 2, 1.0);
    let mut b: Image<f64> = Image::new(2, 2, 0.0);
    b.set_pixel(0, 1, 2.5);
    b.set_pixel(1, 0, -1.0);
    a.add_image(&b, |p, q| p + q);
    assert_eq!(a.pixel(0, 0), 1.0);
    assert_eq!(a.pixel(1, 0), 0.0);
    assert_eq!(a.pixel(0, 1), 3.5);
    assert_eq!(a.pixel(1, 1), 1.0);
}

#[test]
fn merging_sub_images_in_either_order_gives_the_same_sum() {
    let parts: Vec<Image<f64>> = (0..3)
        .map(|s| {
            let task = RenderTask::new(0, 6, 1);
            task.render(3, 2, 0.0, |x, y| (s * 100 + y * 3 + x) as f64)
        })
        .collect();
    let mut forward: Image<f64> = Image::new(3, 2, 0.0);
    for p in parts.iter() {
        forward.add_image(p, |a, b| a + b);
    }
    let mut backward: Image<f64> = Image::new(3, 2, 0.0);
    for p in parts.iter().rev() {
        backward.add_image(p, |a, b| a + b);
    }
    for y in 0..2 {
        for x in 0..3 {
            assert_eq!(forward.pixel(x, y), backward.pixel(x, y));
            assert_eq!(forward.pixel(x, y), (300 + 3 * (y * 3 + x)) as f64);
        }
    }
}

#[test]
fn map_applies_to_every_pixel() {
    let task = RenderTask::new(0, 4, 1);
    let img: Image<i32> = task.render(2, 2, 0, |x, y| x + 2 * y);
    let doubled = img.map(|v| (v * 2) as u8);
    assert_eq!(doubled.width(), 2);
    assert_eq!(doubled.height(), 2);
    assert_eq!(doubled.pixel(0, 0), 0);
    assert_eq!(doubled.pixel(1, 0), 2);
    assert_eq!(doubled.pixel(0, 1), 4);
    assert_eq!(doubled.pixel(1, 1), 6);
}

#[test]
fn renderer_starts_with_one_task_per_thread() {
    let mut r: Renderer<u32> = Renderer::new(3, 4, 4, 9, 0);
    assert_eq!(r.threads(), 3);
    assert_eq!(r.image_width(), 4);
    assert_eq!(r.image_height(), 4);
    assert_eq!(r.samples_per_pixel(), 9);
    let all = r.generate_render_tasks();
    let first = r.start();
    assert_eq!(first, all[0..3].to_vec());
    assert!(!r.is_finished());
}

#[test]
fn renderer_hands_out_each_task_once_and_merges_all() {
    let (threads, width, height, samples) = (3, 5, 4, 10);
    let mut r: Renderer<u32> = Renderer::new(threads, width, height, samples, 0);
    let all = r.generate_render_tasks();
    let mut pending: Vec<RenderTask> = r.start();
    let mut handed: Vec<RenderTask> = pending.clone();
    let mut merged = 0;
    while let Some(task) = pending.pop() {
        let sub: Image<u32> = task.render(width, height, 0, |_, _| task.samples_per_pixel as u32);
        if let Some(next) = r.complete_task(&sub, |a, b| a + b) {
            handed.push(next);
            pending.insert(0, next);
        }
        merged += 1;
        assert!(pending.len() <= threads as usize);
    }
    assert_eq!(merged, 9);
    assert!(r.is_finished());
    assert_eq!(handed, all);
    for y in 0..height {
        for x in 0..width {
            assert_eq!(r.image().pixel(x, y), samples as u32);
        }
    }
}

#[test]
fn complete_task_returns_none_when_all_handed_out() {
    let mut r: Renderer<u8> = Renderer::new(1, 1, 1, 1, 0);
    let first = r.start();
    assert_eq!(first, vec![RenderTask::new(0, 1, 1)]);
    let sub: Image<u8> = first[0].render(1, 1, 0, |_, _| 7);
    assert_eq!(r.complete_task(&sub, |a, b| a + b), None);
    assert!(r.is_finished());
    assert_eq!(r.image().pixel(0, 0), 7);
}
