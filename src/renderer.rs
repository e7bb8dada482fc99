use vstd::prelude::*;

use crate::image::Image;
use crate::render_task::{lemma_split_bounds, task_grid, RenderTask};

verus! {

/// Splits one frame into `threads * threads` render tasks, hands them out so
/// that at most `threads` are in flight, and sums the finished sub-images into
/// the frame's accumulator.
pub struct Renderer<P> {
    threads: i32,
    image_width: i32,
    image_height: i32,
    samples_per_pixel: i32,
    image: Image<P>,
    tasks: Vec<RenderTask>,
    started: bool,
    current_task_id: i32,
    merged: i32,
}

impl<P> Renderer<P> {
    pub closed spec fn spec_threads(&self) -> int {
        self.threads as int
    }

    pub closed spec fn spec_width(&self) -> int {
        self.image_width as int
    }

    pub closed spec fn spec_height(&self) -> int {
        self.image_height as int
    }

    pub closed spec fn spec_samples(&self) -> int {
        self.samples_per_pixel as int
    }

    /// Whether the first tasks have been handed out.
    pub closed spec fn spec_started(&self) -> bool {
        self.started
    }

    /// How many tasks have been handed out so far.
    pub closed spec fn spec_dispatched(&self) -> int {
        self.current_task_id as int
    }

    /// How many finished sub-images have been summed into the accumulator.
    pub closed spec fn spec_merged(&self) -> int {
        self.merged as int
    }

    /// The accumulated frame.
    pub closed spec fn spec_image(&self) -> Image<P> {
        self.image
    }

    /// The number of tasks of this render.
    pub open spec fn task_count(&self) -> int {
        self.spec_threads() * self.spec_threads()
    }

    /// The frame parameters are in range: at least one thread, and the task
    /// count and the flattened pixel count fit in an `i32`.
    pub open spec fn params_ok(threads: int, width: int, height: int, samples: int) -> bool {
        &&& threads >= 1
        &&& threads * threads <= i32::MAX
        &&& width >= 0
        &&& height >= 0
        &&& width * height <= i32::MAX
        &&& samples >= 0
    }

    /// The parameters are in range, the accumulator has the frame's size, and
    /// the hand-out state is consistent: nothing before the start; after it,
    /// the tasks are the frame's grid, no more than `threads` are in flight,
    /// and no sub-image is merged before its task was handed out.
    pub closed spec fn wf(&self) -> bool {
        &&& Self::params_ok(
            self.threads as int,
            self.image_width as int,
            self.image_height as int,
            self.samples_per_pixel as int,
        )
        &&& self.image.wf()
        &&& self.image.spec_width() == self.image_width
        &&& self.image.spec_height() == self.image_height
        &&& 0 <= self.merged <= self.current_task_id <= self.threads * self.threads
        &&& self.current_task_id - self.merged <= self.threads
        &&& !self.started ==> self.current_task_id == 0
        &&& self.started ==> self.tasks@ == self.spec_tasks() && self.current_task_id >= self.threads
    }

    /// The tasks of this render, in the order they are handed out.
    pub open spec fn spec_tasks(&self) -> Seq<RenderTask> {
        task_grid(self.spec_threads(), self.spec_width() * self.spec_height(), self.spec_samples())
    }

    /// The tasks of the frame: the flattened pixel range `[0, width * height)`
    /// split into `threads` contiguous blocks and `samples_per_pixel` into
    /// `threads` shares (the last block and the last share take the
    /// remainders), one task for each pair, share by share.
    pub fn generate_render_tasks(&self) -> (r: Vec<RenderTask>)
        requires
            self.wf(),
        ensures
            r@ == self.spec_tasks(),
    {
        let threads = self.threads;
        let task_nums = threads * threads;
        let mut task_queue: Vec<RenderTask> = Vec::with_capacity(task_nums as usize);
        let pixel_nums = self.image_width * self.image_height;
        let ghost grid = self.spec_tasks();
        proof {
            lemma_split_bounds(threads as int, self.samples_per_pixel as int, 0);
            lemma_split_bounds(threads as int, pixel_nums as int, 0);
        }
        let samples_per_thread = self.samples_per_pixel / threads;
        let last_thread_samples = self.samples_per_pixel - samples_per_thread * (threads - 1);
        let pixels_per_thread = pixel_nums / threads;
        let last_thread_pixels = pixel_nums - pixels_per_thread * (threads - 1);
        let mut sample_part: i32 = 0;
        assert(grid.len() == threads * threads);
        while sample_part < threads
            invariant
                self.wf(),
                threads == self.threads,
                grid == self.spec_tasks(),
                pixel_nums == self.image_width * self.image_height,
                samples_per_thread == self.samples_per_pixel / threads,
                last_thread_samples == self.samples_per_pixel - samples_per_thread * (threads - 1),
                pixels_per_thread == pixel_nums / threads,
                last_thread_pixels == pixel_nums - pixels_per_thread * (threads - 1),
                0 <= sample_part <= threads,
                grid.len() == threads * threads,
                task_queue.len() == sample_part * threads,
                task_queue.len() <= threads * threads,
                forall|k: int| 0 <= k < task_queue.len() ==> task_queue@[k] == #[trigger] grid[k],
            decreases threads - sample_part,
        {
            assert(sample_part * threads <= threads * threads) by (nonlinear_arith)
                requires 0 <= sample_part < threads;
            let mut img_part: i32 = 0;
            while img_part < threads
                invariant
                    self.wf(),
                    threads == self.threads,
                    grid == self.spec_tasks(),
                    pixel_nums == self.image_width * self.image_height,
                    samples_per_thread == self.samples_per_pixel / threads,
                    last_thread_samples == self.samples_per_pixel - samples_per_thread * (threads
                        - 1),
                    pixels_per_thread == pixel_nums / threads,
                    last_thread_pixels == pixel_nums - pixels_per_thread * (threads - 1),
                    0 <= sample_part < threads,
                    0 <= img_part <= threads,
                    grid.len() == threads * threads,
                    task_queue.len() == sample_part * threads + img_part,
                    task_queue.len() <= threads * threads,
                    forall|k: int|
                        0 <= k < task_queue.len() ==> task_queue@[k] == #[trigger] grid[k],
                decreases threads - img_part,
            {
                assert(sample_part * threads + img_part < threads * threads) by (nonlinear_arith)
                    requires 0 <= sample_part < threads, 0 <= img_part < threads;
                proof {
                    lemma_split_bounds(threads as int, pixel_nums as int, img_part as int);
                    lemma_split_bounds(threads as int, self.samples_per_pixel as int, sample_part as int);
                }
                let start_id: i32;
                let end_id: i32;
                let s: i32;
                if img_part == threads - 1 {
                    start_id = img_part * pixels_per_thread;
                    end_id = start_id + last_thread_pixels;
                } else {
                    start_id = img_part * pixels_per_thread;
                    end_id = start_id + pixels_per_thread;
                }
                if sample_part == threads - 1 {
                    s = last_thread_samples;
                } else {
                    s = samples_per_thread;
                }
                let ghost k = sample_part * threads + img_part;
                proof {
                    vstd::arithmetic::div_mod::lemma_fundamental_div_mod_converse(
                        k,
                        threads as int,
                        sample_part as int,
                        img_part as int,
                    );
                    assert(k < threads * threads) by (nonlinear_arith)
                        requires
                            k == sample_part * threads + img_part,
                            0 <= sample_part < threads,
                            0 <= img_part < threads,
                    ;
                    assert((img_part + 1) * pixels_per_thread == img_part * pixels_per_thread
                        + pixels_per_thread) by (nonlinear_arith);
                }
                task_queue.push(RenderTask::new(start_id, end_id, s));
                img_part += 1;
            }
            assert(sample_part * threads + threads == (sample_part + 1) * threads) by (nonlinear_arith);
            assert((sample_part + 1) * threads <= threads * threads) by (nonlinear_arith)
                requires 0 <= sample_part < threads;
            sample_part += 1;
        }
        assert(task_queue@ =~= grid);
        task_queue
    }
}

impl<P: Copy> Renderer<P> {
    /// A renderer for a `image_width` x `image_height` frame with
    /// `samples_per_pixel` samples per pixel, split over `threads` workers.
    /// The accumulator starts with every pixel at `zero`; no task is out.
    pub fn new(
        threads: i32,
        image_width: i32,
        image_height: i32,
        samples_per_pixel: i32,
        zero: P,
    ) -> (r: Renderer<P>)
        requires
            Self::params_ok(
                threads as int,
                image_width as int,
                image_height as int,
                samples_per_pixel as int,
            ),
        ensures
            r.wf(),
            r.spec_threads() == threads,
            r.spec_width() == image_width,
            r.spec_height() == image_height,
            r.spec_samples() == samples_per_pixel,
            !r.spec_started(),
            r.spec_dispatched() == 0,
            r.spec_merged() == 0,
            r.spec_image().spec_width() == image_width,
            r.spec_image().spec_height() == image_height,
            forall|x: int, y: int| r.spec_image().in_bounds(x, y) ==> r.spec_image()@[y][x] == zero,
    {
        Renderer {
            threads,
            image_width,
            image_height,
            samples_per_pixel,
            image: Image::new(image_width, image_height, zero),
            tasks: Vec::new(),
            started: false,
            current_task_id: 0,
            merged: 0,
        }
    }

    /// Starts the render: returns the first `threads` tasks of the grid, one
    /// for each worker.
    pub fn start(&mut self) -> (r: Vec<RenderTask>)
        requires
            old(self).wf(),
            !old(self).spec_started(),
        ensures
            final(self).wf(),
            final(self).spec_started(),
            final(self).spec_dispatched() == old(self).spec_threads(),
            final(self).spec_merged() == 0,
            final(self).spec_dispatched() <= final(self).task_count(),
            final(self).spec_image() == old(self).spec_image(),
            final(self).spec_threads() == old(self).spec_threads(),
            final(self).spec_width() == old(self).spec_width(),
            final(self).spec_height() == old(self).spec_height(),
            final(self).spec_samples() == old(self).spec_samples(),
            r@ == old(self).spec_tasks().subrange(0, old(self).spec_threads()),
    {
        let tasks = self.generate_render_tasks();
        let threads = self.threads;
        assert(threads <= threads * threads) by (nonlinear_arith)
            requires threads >= 1;
        let mut first: Vec<RenderTask> = Vec::with_capacity(threads as usize);
        let mut i: i32 = 0;
        while i < threads
            invariant
                tasks.len() == threads * threads,
                threads <= threads * threads,
                0 <= i <= threads,
                first@ == tasks@.subrange(0, i as int),
            decreases threads - i,
        {
            first.push(tasks[i as usize]);
            i += 1;
            assert(first@ =~= tasks@.subrange(0, i as int));
        }
        self.tasks = tasks;
        self.started = true;
        self.current_task_id = threads;
        first
    }

    /// Records a finished task: sums its sub-image into the accumulator with
    /// `combine` and returns the next task to hand out, if any is left. One
    /// finishing task frees one worker, so no more than `threads` tasks are
    /// ever in flight.
    pub fn complete_task<F: Fn(P, P) -> P>(&mut self, sub_image: &Image<P>, combine: F) -> (r:
        Option<RenderTask>)
        requires
            old(self).wf(),
            old(self).spec_started(),
            old(self).spec_merged() < old(self).spec_dispatched(),
            sub_image.wf(),
            sub_image.spec_width() == old(self).spec_width(),
            sub_image.spec_height() == old(self).spec_height(),
            forall|a: P, b: P| #[trigger] combine.requires((a, b)),
        ensures
            final(self).wf(),
            final(self).spec_started(),
            final(self).spec_merged() == old(self).spec_merged() + 1,
            final(self).spec_merged() <= final(self).spec_dispatched() <= final(self).task_count(),
            final(self).spec_dispatched() - final(self).spec_merged() <= final(self).spec_threads(),
            final(self).spec_threads() == old(self).spec_threads(),
            final(self).spec_width() == old(self).spec_width(),
            final(self).spec_height() == old(self).spec_height(),
            final(self).spec_samples() == old(self).spec_samples(),
            old(self).spec_dispatched() < old(self).task_count() ==> {
                &&& r == Some(old(self).spec_tasks()[old(self).spec_dispatched()])
                &&& final(self).spec_dispatched() == old(self).spec_dispatched() + 1
            },
            old(self).spec_dispatched() == old(self).task_count() ==> {
                &&& r.is_none()
                &&& final(self).spec_dispatched() == old(self).spec_dispatched()
            },
            final(self).spec_image().wf(),
            final(self).spec_image().spec_width() == old(self).spec_width(),
            final(self).spec_image().spec_height() == old(self).spec_height(),
            forall|x: int, y: int|
                final(self).spec_image().in_bounds(x, y) ==> combine.ensures(
                    (old(self).spec_image()@[y][x], sub_image@[y][x]),
                    #[trigger] final(self).spec_image()@[y][x],
                ),
    {
        self.image.add_image(sub_image, combine);
        self.merged += 1;
        if self.current_task_id < self.threads * self.threads {
            let next = self.tasks[self.current_task_id as usize];
            self.current_task_id += 1;
            Some(next)
        } else {
            None
        }
    }

    /// Whether every task's sub-image has been merged.
    pub fn is_finished(&self) -> (r: bool)
        requires
            self.wf(),
        ensures
            r == (self.spec_merged() == self.task_count()),
    {
        self.merged == self.threads * self.threads
    }

    /// How many handed-out tasks have not been completed yet.
    pub fn tasks_in_flight(&self) -> (r: i32)
        requires
            self.wf(),
        ensures
            r == self.spec_dispatched() - self.spec_merged(),
    {
        self.current_task_id - self.merged
    }

    pub fn threads(&self) -> (r: i32)
        ensures
            r == self.spec_threads(),
    {
        self.threads
    }

    pub fn image_width(&self) -> (r: i32)
        ensures
            r == self.spec_width(),
    {
        self.image_width
    }

    pub fn image_height(&self) -> (r: i32)
        ensures
            r == self.spec_height(),
    {
        self.image_height
    }

    pub fn samples_per_pixel(&self) -> (r: i32)
        ensures
            r == self.spec_samples(),
    {
        self.samples_per_pixel
    }

    /// The accumulated frame.
    pub fn image(&self) -> (r: &Image<P>)
        requires
            self.wf(),
        ensures
            *r == self.spec_image(),
            r.wf(),
            r.spec_width() == self.spec_width(),
            r.spec_height() == self.spec_height(),
    {
        &self.image
    }
}

} // verus!
