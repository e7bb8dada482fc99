use vstd::prelude::*;

use crate::image::Image;

verus! {

/// A unit of work: the flattened pixel indices `[start_id, end_id)` of the
/// frame, each rendered with `samples_per_pixel` samples.
#[derive(Clone, Copy, Debug, PartialEq, Eq, Structural)]
pub struct RenderTask {
    pub start_id: i32,
    pub end_id: i32,
    pub samples_per_pixel: i32,
}

impl RenderTask {
    /// Whether the flattened pixel index `p` lies in the task's range.
    pub open spec fn covers(self, p: int) -> bool {
        self.start_id <= p < self.end_id
    }

    pub fn new(start_id: i32, end_id: i32, samples_per_pixel: i32) -> (r: RenderTask)
        ensures
            r == (RenderTask { start_id, end_id, samples_per_pixel }),
    {
        RenderTask { start_id: start_id, end_id: end_id, samples_per_pixel: samples_per_pixel }
    }

    /// Renders the task into a sub-image the size of the whole frame. Pixel
    /// `(x, y)` has flattened index `y * image_width + x`; each pixel the task
    /// covers holds what `shade(x, y)` returned for it, and every other pixel
    /// holds `zero`. Covered pixels are shaded in row-major order.
    pub fn render<P: Copy, F: Fn(i32, i32) -> P>(
        &self,
        image_width: i32,
        image_height: i32,
        zero: P,
        shade: F,
    ) -> (r: Image<P>)
        requires
            image_width >= 0,
            image_height >= 0,
            image_width * image_height <= i32::MAX,
            forall|x: i32, y: i32| #[trigger] shade.requires((x, y)),
        ensures
            r.wf(),
            r.spec_width() == image_width,
            r.spec_height() == image_height,
            forall|x: int, y: int|
                r.in_bounds(x, y) ==> if self.covers(y * image_width + x) {
                    shade.ensures((x as i32, y as i32), #[trigger] r@[y][x])
                } else {
                    r@[y][x] == zero
                },
    {
        let w = image_width;
        let pixel_nums = image_width * image_height;
        let mut image = Image::new(image_width, image_height, zero);
        let lo: i32 = if self.start_id < 0 {
            0
        } else {
            self.start_id
        };
        let hi: i32 = if self.end_id > pixel_nums {
            pixel_nums
        } else {
            self.end_id
        };
        let mut k: i32 = lo;
        while k < hi
            invariant
                image.wf(),
                image.spec_width() == w,
                image.spec_height() == image_height,
                w >= 0,
                image_height >= 0,
                pixel_nums == w * image_height,
                lo == if self.start_id < 0 { 0 } else { self.start_id as int },
                hi <= pixel_nums,
                hi <= self.end_id,
                lo <= k,
                k <= hi || k == lo,
                forall|x: i32, y: i32| #[trigger] shade.requires((x, y)),
                forall|x: int, y: int|
                    image.in_bounds(x, y) ==> if lo <= y * w + x < k {
                        shade.ensures((x as i32, y as i32), #[trigger] image@[y][x])
                    } else {
                        image@[y][x] == zero
                    },
            decreases hi - k,
        {
            assert(w > 0) by (nonlinear_arith)
                requires 0 <= lo <= k < hi <= pixel_nums, pixel_nums == w * image_height, w >= 0;
            let x = k % w;
            let y = k / w;
            proof {
                vstd::arithmetic::div_mod::lemma_fundamental_div_mod(k as int, w as int);
                assert(y < image_height) by (nonlinear_arith)
                    requires
                        k == w * y + x,
                        0 <= x < w,
                        k < w * image_height,
                ;
                assert(y * w + x == k) by (nonlinear_arith)
                    requires k == w * y + x;
            }
            let c = shade(x, y);
            let ghost before = image@;
            image.set_pixel(x, y, c);
            proof {
                assert forall|xx: int, yy: int| image.in_bounds(xx, yy) implies if lo <= yy * w + xx
                    < k + 1 {
                    shade.ensures((xx as i32, yy as i32), #[trigger] image@[yy][xx])
                } else {
                    image@[yy][xx] == zero
                } by {
                    if yy * w + xx == k {
                        vstd::arithmetic::div_mod::lemma_fundamental_div_mod_converse(
                            k as int,
                            w as int,
                            yy,
                            xx,
                        );
                    } else {
                        assert(yy != y || xx != x);
                        assert(image@[yy][xx] == before[yy][xx]);
                    }
                }
            }
            k += 1;
        }
        proof {
            assert forall|x: int, y: int| image.in_bounds(x, y) implies (self.covers(y * w + x)
                <==> lo <= y * w + x < k) by {
                assert(y * w + x < pixel_nums) by (nonlinear_arith)
                    requires
                        0 <= x < w,
                        0 <= y < image_height,
                        pixel_nums == w * image_height,
                ;
            }
        }
        image
    }
}

/// First flattened pixel index of image-axis block `part` when `pixels`
/// pixels are split into `threads` contiguous blocks.
pub open spec fn block_start(threads: int, pixels: int, part: int) -> int {
    part * (pixels / threads)
}

/// One past the last pixel index of image-axis block `part`; the last block
/// absorbs the remainder of the division.
pub open spec fn block_end(threads: int, pixels: int, part: int) -> int {
    if part == threads - 1 {
        pixels
    } else {
        (part + 1) * (pixels / threads)
    }
}

/// Samples per pixel of sample-axis share `part`; the last share absorbs the
/// remainder of the division.
pub open spec fn sample_share(threads: int, samples: int, part: int) -> int {
    if part == threads - 1 {
        samples - (samples / threads) * (threads - 1)
    } else {
        samples / threads
    }
}

/// The `threads * threads` tasks of one render, sample share by sample share:
/// task `k` takes image block `k % threads` and sample share `k / threads`.
pub open spec fn task_grid(threads: int, pixels: int, samples: int) -> Seq<RenderTask> {
    Seq::new(
        (threads * threads) as nat,
        |k: int|
            RenderTask {
                start_id: block_start(threads, pixels, k % threads) as i32,
                end_id: block_end(threads, pixels, k % threads) as i32,
                samples_per_pixel: sample_share(threads, samples, k / threads) as i32,
            },
    )
}

/// The quotients used by the split stay within the quantities they split.
pub(crate) proof fn lemma_split_bounds(threads: int, total: int, part: int)
    requires
        threads >= 1,
        total >= 0,
        0 <= part < threads,
    ensures
        0 <= total / threads,
        threads * (total / threads) <= total,
        0 <= part * (total / threads) <= (threads - 1) * (total / threads),
        (threads - 1) * (total / threads) + total / threads <= total,
        0 <= (total / threads) * (threads - 1) <= total - total / threads,
{
    let q = total / threads;
    assert(0 <= q) by (nonlinear_arith)
        requires threads >= 1, total >= 0, q == total / threads;
    assert(threads * q <= total) by (nonlinear_arith)
        requires threads >= 1, total >= 0, q == total / threads;
    assert(0 <= part * q <= (threads - 1) * q) by (nonlinear_arith)
        requires 0 <= part < threads, q >= 0;
    assert((threads - 1) * q + q == threads * q) by (nonlinear_arith);
    assert(q * (threads - 1) == (threads - 1) * q) by (nonlinear_arith);
    assert(0 <= (threads - 1) * q) by (nonlinear_arith)
        requires threads >= 1, q >= 0;
}

/// The index of the image block that holds pixel `p` (meaningful for
/// `0 <= p < pixels`): blocks are `pixels / threads` wide, and the last one
/// also takes the remainder.
pub open spec fn block_of(threads: int, pixels: int, p: int) -> int {
    let per = pixels / threads;
    if per == 0 || p / per >= threads - 1 {
        threads - 1
    } else {
        p / per
    }
}

/// The sum of the first `n` sample shares.
pub open spec fn shares_total(threads: int, samples: int, n: int) -> int
    decreases n,
{
    if n <= 0 {
        0
    } else {
        shares_total(threads, samples, n - 1) + sample_share(threads, samples, n - 1)
    }
}

/// How many samples the tasks of `tasks` take, in total, at pixel `p`.
pub open spec fn samples_at(tasks: Seq<RenderTask>, p: int) -> int
    decreases tasks.len(),
{
    if tasks.len() == 0 {
        0
    } else {
        samples_at(tasks.drop_last(), p) + if tasks.last().covers(p) {
            tasks.last().samples_per_pixel as int
        } else {
            0
        }
    }
}

/// Image block `part` holds pixel `p` exactly when `p` is a pixel of the
/// frame and `part` is the block `block_of` names.
proof fn lemma_block_membership(threads: int, pixels: int, part: int, p: int)
    requires
        threads >= 1,
        pixels >= 0,
        0 <= part < threads,
    ensures
        0 <= p < pixels ==> 0 <= block_of(threads, pixels, p) < threads,
        (block_start(threads, pixels, part) <= p < block_end(threads, pixels, part)) <==> (0 <= p
            < pixels && part == block_of(threads, pixels, p)),
{
    let q = pixels / threads;
    lemma_split_bounds(threads, pixels, part);
    if q == 0 {
        assert(part * q == 0 && (part + 1) * q == 0) by (nonlinear_arith)
            requires q == 0;
    } else {
        let d = p / q;
        vstd::arithmetic::div_mod::lemma_fundamental_div_mod(p, q);
        let r = p % q;
        assert(p >= 0 ==> d >= 0) by (nonlinear_arith)
            requires p == q * d + r, 0 <= r < q;
        assert(p < 0 ==> d < 0) by (nonlinear_arith)
            requires p == q * d + r, 0 <= r < q;
        assert((part * q <= p < (part + 1) * q) <==> d == part) by (nonlinear_arith)
            requires p == q * d + r, 0 <= r < q, q > 0;
        assert(((threads - 1) * q <= p) <==> d >= threads - 1) by (nonlinear_arith)
            requires p == q * d + r, 0 <= r < q, q > 0;
        assert((part + 1) * q <= threads * q) by (nonlinear_arith)
            requires part < threads, q > 0;
    }
}

/// Before the last part every share is `samples / threads`.
proof fn lemma_equal_shares_total(threads: int, samples: int, n: int)
    requires
        threads >= 1,
        0 <= n <= threads - 1,
    ensures
        shares_total(threads, samples, n) == n * (samples / threads),
    decreases n,
{
    if n > 0 {
        lemma_equal_shares_total(threads, samples, n - 1);
        assert(n * (samples / threads) == (n - 1) * (samples / threads) + samples / threads)
            by (nonlinear_arith);
    } else {
        assert(0 * (samples / threads) == 0);
    }
}

/// The sample shares of all `threads` parts add up to `samples`.
proof fn lemma_shares_sum(threads: int, samples: int)
    requires
        threads >= 1,
        samples >= 0,
    ensures
        shares_total(threads, samples, threads) == samples,
        forall|part: int| 0 <= part < threads ==> 0 <= #[trigger] sample_share(threads, samples, part) <= samples,
{
    let q = samples / threads;
    lemma_split_bounds(threads, samples, 0);
    lemma_equal_shares_total(threads, samples, threads - 1);
    assert((threads - 1) * q == q * (threads - 1)) by (nonlinear_arith);
}

/// Whether some task of sample share `s` (task `k` belongs to share
/// `k / threads`) covers pixel `p`.
pub open spec fn share_covers(tasks: Seq<RenderTask>, threads: int, s: int, p: int) -> bool {
    exists|k: int| 0 <= k < tasks.len() && k / threads == s && (#[trigger] tasks[k]).covers(p)
}

/// The fields of task `k` of the grid, read back as integers.
proof fn lemma_grid_task(threads: int, pixels: int, samples: int, k: int)
    requires
        threads >= 1,
        threads * threads <= i32::MAX,
        0 <= pixels <= i32::MAX,
        0 <= samples <= i32::MAX,
        0 <= k < threads * threads,
    ensures
        task_grid(threads, pixels, samples).len() == threads * threads,
        0 <= k % threads < threads,
        0 <= k / threads < threads,
        k == (k / threads) * threads + k % threads,
        task_grid(threads, pixels, samples)[k].start_id == block_start(threads, pixels, k % threads),
        task_grid(threads, pixels, samples)[k].end_id == block_end(threads, pixels, k % threads),
        task_grid(threads, pixels, samples)[k].samples_per_pixel == sample_share(
            threads,
            samples,
            k / threads,
        ),
        0 <= block_start(threads, pixels, k % threads) <= block_end(threads, pixels, k % threads)
            <= pixels,
{
    vstd::arithmetic::div_mod::lemma_fundamental_div_mod(k, threads);
    let s = k / threads;
    let i = k % threads;
    assert(0 <= s < threads) by (nonlinear_arith)
        requires k == threads * s + i, 0 <= i < threads, 0 <= k < threads * threads;
    assert(k == s * threads + i) by (nonlinear_arith)
        requires k == threads * s + i;
    lemma_split_bounds(threads, pixels, i);
    lemma_split_bounds(threads, samples, s);
    assert((i + 1) * (pixels / threads) == i * (pixels / threads) + pixels / threads) by (nonlinear_arith);
}

/// Partition completeness: within every sample share `s` (the tasks `k` with
/// `k / threads == s`), the tasks' pixel ranges cover each pixel of
/// `[0, pixels)` and nothing else, no pixel twice; and the sample shares of
/// the `threads` parts add up to `samples` exactly.
pub proof fn lemma_partition_complete(threads: int, pixels: int, samples: int)
    requires
        threads >= 1,
        threads * threads <= i32::MAX,
        0 <= pixels <= i32::MAX,
        0 <= samples <= i32::MAX,
    ensures
        task_grid(threads, pixels, samples).len() == threads * threads,
        forall|s: int, p: int|
            0 <= s < threads ==> ((0 <= p < pixels) <==> #[trigger] share_covers(
                task_grid(threads, pixels, samples),
                threads,
                s,
                p,
            )),
        forall|k1: int, k2: int, p: int|
            0 <= k1 < threads * threads && 0 <= k2 < threads * threads && k1 / threads == k2
                / threads && #[trigger] task_grid(threads, pixels, samples)[k1].covers(p)
                && #[trigger] task_grid(threads, pixels, samples)[k2].covers(p) ==> k1 == k2,
        forall|k: int|
            0 <= k < threads * threads ==> (#[trigger] task_grid(threads, pixels, samples)[k]).samples_per_pixel
                == sample_share(threads, samples, k / threads),
        shares_total(threads, samples, threads) == samples,
{
    let grid = task_grid(threads, pixels, samples);
    lemma_shares_sum(threads, samples);
    assert forall|k: int| 0 <= k < threads * threads implies (#[trigger] grid[k]).samples_per_pixel
        == sample_share(threads, samples, k / threads) by {
        lemma_grid_task(threads, pixels, samples, k);
    }
    assert forall|s: int, p: int| 0 <= s < threads implies ((0 <= p < pixels) <==> #[trigger] share_covers(
        grid,
        threads,
        s,
        p,
    )) by {
        if 0 <= p < pixels {
            let b = block_of(threads, pixels, p);
            lemma_block_membership(threads, pixels, 0, p);
            let k = s * threads + b;
            assert(0 <= k < threads * threads) by (nonlinear_arith)
                requires k == s * threads + b, 0 <= s < threads, 0 <= b < threads;
            vstd::arithmetic::div_mod::lemma_fundamental_div_mod_converse(k, threads, s, b);
            lemma_grid_task(threads, pixels, samples, k);
            lemma_block_membership(threads, pixels, b, p);
            assert(grid[k].covers(p));
        } else {
            assert forall|k: int| 0 <= k < threads * threads implies !(#[trigger] grid[k]).covers(
                p) by {
                lemma_grid_task(threads, pixels, samples, k);
            }
        }
    }
    assert forall|k1: int, k2: int, p: int|
        0 <= k1 < threads * threads && 0 <= k2 < threads * threads && k1 / threads == k2 / threads
            && #[trigger] grid[k1].covers(p) && #[trigger] grid[k2].covers(p) implies k1
        == k2 by {
        lemma_grid_task(threads, pixels, samples, k1);
        lemma_grid_task(threads, pixels, samples, k2);
        lemma_block_membership(threads, pixels, k1 % threads, p);
        lemma_block_membership(threads, pixels, k2 % threads, p);
    }
}

/// Samples taken at pixel `p` by the first `m` tasks of the grid: the full
/// shares of the sample parts already passed, plus the current part's share
/// once its task for `p`'s block has been passed.
proof fn lemma_samples_prefix(threads: int, pixels: int, samples: int, p: int, m: int)
    requires
        threads >= 1,
        threads * threads <= i32::MAX,
        0 <= pixels <= i32::MAX,
        0 <= samples <= i32::MAX,
        0 <= m <= threads * threads,
    ensures
        samples_at(task_grid(threads, pixels, samples).subrange(0, m), p) == if 0 <= p < pixels {
            shares_total(threads, samples, m / threads) + if block_of(threads, pixels, p) < m
                % threads {
                sample_share(threads, samples, m / threads)
            } else {
                0
            }
        } else {
            0
        },
    decreases m,
{
    let grid = task_grid(threads, pixels, samples);
    lemma_block_membership(threads, pixels, 0, p);
    if m == 0 {
        assert(grid.subrange(0, 0).len() == 0);
    } else {
        lemma_samples_prefix(threads, pixels, samples, p, m - 1);
        let prefix = grid.subrange(0, m);
        assert(prefix.drop_last() =~= grid.subrange(0, m - 1));
        lemma_grid_task(threads, pixels, samples, m - 1);
        let s = (m - 1) / threads;
        let i = (m - 1) % threads;
        lemma_block_membership(threads, pixels, i, p);
        if i < threads - 1 {
            vstd::arithmetic::div_mod::lemma_fundamental_div_mod_converse(m, threads, s, i + 1);
        } else {
            assert(m == (s + 1) * threads + 0) by (nonlinear_arith)
                requires m - 1 == s * threads + i, i == threads - 1;
            vstd::arithmetic::div_mod::lemma_fundamental_div_mod_converse(m, threads, s + 1, 0);
        }
    }
}

/// Every pixel of the frame is sampled exactly `samples` times by the tasks
/// of the grid taken together, and a pixel outside the frame not at all: the
/// sum of all the tasks' sub-images holds the full sample budget at each
/// pixel, whatever the number of threads.
pub proof fn lemma_every_pixel_fully_sampled(threads: int, pixels: int, samples: int, p: int)
    requires
        threads >= 1,
        threads * threads <= i32::MAX,
        0 <= pixels <= i32::MAX,
        0 <= samples <= i32::MAX,
    ensures
        samples_at(task_grid(threads, pixels, samples), p) == if 0 <= p < pixels {
            samples
        } else {
            0
        },
{
    let grid = task_grid(threads, pixels, samples);
    let m = threads * threads;
    lemma_samples_prefix(threads, pixels, samples, p, m);
    assert(grid.subrange(0, m) =~= grid);
    vstd::arithmetic::div_mod::lemma_fundamental_div_mod_converse(m, threads, threads, 0);
    lemma_shares_sum(threads, samples);
}

} // verus!
