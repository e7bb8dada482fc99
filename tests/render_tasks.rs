use raytracer::{Image, RenderTask, Renderer};

fn tasks(threads: i32, width: i32, height: i32, samples: i32) -> Vec<RenderTask> {
    let r: Renderer<u32> = Renderer::new(threads, width, height, samples, 0);
    r.generate_render_tasks()
}

#[test]
fn render_task_new_keeps_fields() {
    let t = RenderTask::new(3, 9, 4);
    assert_eq!(t.start_id, 3);
    assert_eq!(t.end_id, 9);
    assert_eq!(t.samples_per_pixel, 4);
}

#[test]
fn grid_has_threads_squared_tasks_in_order() {
    let t = tasks(2, 3, 1, 5);
    assert_eq!(
        t,
        vec![
            RenderTask::new(0, 1, 2),
            RenderTask::new(1, 3, 2),
            RenderTask::new(0, 1, 3),
            RenderTask::new(1, 3, 3),
        ]
    );
}

#[test]
fn single_thread_takes_whole_frame() {
    let t = tasks(1, 4, 3, 7);
    assert_eq!(t, vec![RenderTask::new(0, 12, 7)]);
}

#[test]
fn fewer_pixels_than_threads_puts_all_in_last_block() {
    let t = tasks(3, 2, 1, 3);
    assert_eq!(t.len(), 9);
    for s in 0..3 {
        assert_eq!(t[s * 3], RenderTask::new(0, 0, 1));
        assert_eq!(t[s * 3 + 1], RenderTask::new(0, 0, 1));
        assert_eq!(t[s * 3 + 2], RenderTask::new(0, 2, 1));
    }
}

#[test]
fn fewer_samples_than_threads_gives_them_to_last_share() {
    let t = tasks(4, 4, 2, 2);
    for k in 0..16 {
        let expected = if k / 4 == 3 { 2 } else { 0 };
        assert_eq!(t[k].samples_per_pixel, expected);
    }
}

#[test]
fn blocks_tile_frame_for_each_share() {
    for threads in 1..7 {
        for (width, height) in [(0, 0), (1, 1), (5, 3), (7, 7), (400, 225)] {
            let pixels = width * height;
            let t = tasks(threads, width, height, 10);
            for s in 0..threads as usize {
                let row = &t[s * threads as usize..(s + 1) * threads as usize];
                assert_eq!(row[0].start_id, 0);
                assert_eq!(row[threads as usize - 1].end_id, pixels);
                for i in 0..threads as usize - 1 {
                    assert_eq!(row[i].end_id, row[i + 1].start_id);
                    assert!(row[i].start_id <= row[i].end_id);
                }
            }
        }
    }
}

#[test]
fn sample_shares_sum_to_samples_per_pixel() {
    for threads in 1..9 {
        for samples in [0, 1, 5, 20, 33] {
            let t = tasks(threads, 3, 3, samples);
            let total: i32 = (0..threads as usize).map(|s| t[s * threads as usize].samples_per_pixel).sum();
            assert_eq!(total, samples);
        }
    }
}

#[test]
fn every_pixel_gets_the_full_sample_budget() {
    for threads in 1..6 {
        let (width, height, samples) = (7, 5, 13);
        let t = tasks(threads, width, height, samples);
        for p in 0..width * height {
            let got: i32 = t
                .iter()
                .filter(|task| task.start_id <= p && p < task.end_id)
                .map(|task| task.samples_per_pixel)
                .sum();
            assert_eq!(got, samples);
        }
    }
}

#[test]
fn task_render_fills_only_its_range() {
    let task = RenderTask::new(2, 7, 1);
    let img: Image<i32> = task.render(3, 3, -1, |x, y| 10 * y + x);
    assert_eq!(img.width(), 3);
    assert_eq!(img.height(), 3);
    let expected = [[-1, -1, 2], [10, 11, 12], [20, -1, -1]];
    for y in 0..3 {
        for x in 0..3 {
            assert_eq!(img.pixel(x, y), expected[y as usize][x as usize]);
        }
    }
}

#[test]
fn task_render_shades_in_row_major_order() {
    let task = RenderTask::new(1, 5, 1);
    let order = std::cell::RefCell::new(Vec::new());
    let _img: Image<u8> = task.render(2, 3, 0, |x, y| {
        order.borrow_mut().push((x, y));
        1
    });
    assert_eq!(order.into_inner(), vec![(1, 0), (0, 1), (1, 1), (0, 2)]);
}

#[test]
fn task_render_clips_range_to_frame() {
    let task = RenderTask::new(-4, 100, 1);
    let img: Image<u8> = task.render(2, 2, 0, |_, _| 9);
    for y in 0..2 {
        for x in 0..2 {
            assert_eq!(img.pixel(x, y), 9);
        }
    }
    let empty = RenderTask::new(3, 3, 1);
    let img: Image<u8> = empty.render(2, 2, 0, |_, _| 9);
    for y in 0..2 {
        for x in 0..2 {
            assert_eq!(img.pixel(x, y), 0);
        }
    }
}
