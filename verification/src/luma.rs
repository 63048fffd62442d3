//! Sparse samples of the brightness of a frame.
//!
//! A frame's statistics are taken from a grid of its rows and columns, so that a large frame costs
//! little more than a small one.
use vstd::arithmetic::div_mod::*;
use vstd::prelude::*;

verus! {

/// About how many rows and columns of a frame are sampled.
pub const SAMPLES: usize = 48;

/// The distance between sampled rows or columns of a frame with `dim` of them.
pub open spec fn grid_step(dim: int) -> int {
    if dim / (SAMPLES as int) >= 1 {
        dim / (SAMPLES as int)
    } else {
        1
    }
}

/// How many rows or columns are sampled of a frame with `dim` of them: those at the multiples of
/// the distance.
pub open spec fn grid_count(dim: int) -> int {
    if dim <= 0 {
        0
    } else {
        (dim - 1) / grid_step(dim) + 1
    }
}

/// The row of a sample, counting the samples row by row.
pub open spec fn sample_row(width: int, height: int, k: int) -> int {
    (k / grid_count(width)) * grid_step(height)
}

/// The column of a sample, counting the samples row by row.
pub open spec fn sample_column(width: int, k: int) -> int {
    (k % grid_count(width)) * grid_step(width)
}

/// The place of a sample in the plane, counting pixels row by row.
pub open spec fn sample_pixel(width: int, height: int, k: int) -> int {
    sample_row(width, height, k) * width + sample_column(width, k)
}

/// How many samples are taken of a frame.
pub open spec fn sample_count(width: int, height: int) -> int {
    grid_count(width) * grid_count(height)
}

/// The samples of a plane of 8-bit pixels.
pub open spec fn nv12_samples(luma: Seq<u8>, width: int, height: int) -> Seq<u16> {
    Seq::new(
        sample_count(width, height) as nat,
        |k: int| luma[sample_pixel(width, height, k)] as u16,
    )
}

/// A 10-bit pixel: the upper bits of two bytes, the lower byte first.
pub open spec fn p010_pixel(luma: Seq<u8>, pixel: int) -> u16 {
    ((luma[pixel * 2] as int + 256 * luma[pixel * 2 + 1]) / 64) as u16
}

/// The samples of a plane of 10-bit pixels.
pub open spec fn p010_samples(luma: Seq<u8>, width: int, height: int) -> Seq<u16> {
    Seq::new(
        sample_count(width, height) as nat,
        |k: int| p010_pixel(luma, sample_pixel(width, height, k)),
    )
}

/// The sampled rows or columns are those at multiples of the distance, and all of them.
pub proof fn law_the_grid_spans_the_frame(dim: int, i: int)
    requires
        dim > 0,
        i >= 0,
    ensures
        i < grid_count(dim) <==> i * grid_step(dim) < dim,
{
    let step = grid_step(dim);
    let last = (dim - 1) / step;
    lemma_fundamental_div_mod(dim - 1, step);
    lemma_mod_bound(dim - 1, step);
    if i <= last {
        assert(i * step <= last * step) by (nonlinear_arith)
            requires
                i <= last,
                step >= 1,
        ;
        assert(last * step <= dim - 1) by (nonlinear_arith)
            requires
                dim - 1 == step * last + (dim - 1) % step,
                0 <= (dim - 1) % step,
        ;
    } else {
        assert(i * step >= (last + 1) * step) by (nonlinear_arith)
            requires
                i >= last + 1,
                step >= 1,
        ;
        assert((last + 1) * step > dim - 1) by (nonlinear_arith)
            requires
                dim - 1 == step * last + (dim - 1) % step,
                (dim - 1) % step < step,
        ;
    }
}

/// However large a frame, fewer than two times [`SAMPLES`] of its rows or columns are sampled.
pub proof fn law_the_grid_is_sparse(dim: int)
    requires
        dim > 0,
    ensures
        0 < grid_count(dim) < 2 * SAMPLES,
{
    let step = grid_step(dim);
    let last = (dim - 1) / step;
    lemma_fundamental_div_mod(dim - 1, step);
    lemma_mod_bound(dim - 1, step);
    assert(dim / (SAMPLES as int) == dim / 48) by (nonlinear_arith)
        requires
            SAMPLES == 48,
    ;
    assert(dim <= 48 * step + 47);
    assert(last <= 94) by (nonlinear_arith)
        requires
            dim - 1 == step * last + (dim - 1) % step,
            0 <= (dim - 1) % step,
            dim <= 48 * step + 47,
            step >= 1,
    ;
    assert(last >= 0) by (nonlinear_arith)
        requires
            dim - 1 == step * last + (dim - 1) % step,
            (dim - 1) % step < step,
            dim >= 1,
            step >= 1,
    ;
}

/// Every sample lies in the frame.
pub proof fn law_samples_lie_in_the_frame(width: int, height: int, k: int)
    requires
        width > 0,
        height > 0,
        0 <= k < sample_count(width, height),
    ensures
        0 <= sample_row(width, height, k) < height,
        0 <= sample_column(width, k) < width,
        0 <= sample_pixel(width, height, k) < width * height,
{
    let columns = grid_count(width);
    law_the_grid_is_sparse(width);
    law_the_grid_is_sparse(height);
    lemma_fundamental_div_mod(k, columns);
    lemma_mod_bound(k, columns);
    let r = k / columns;
    let c = k % columns;
    assert(0 <= r < grid_count(height)) by (nonlinear_arith)
        requires
            k == columns * r + c,
            0 <= c < columns,
            0 <= k < columns * grid_count(height),
            r == k / columns,
    ;
    law_the_grid_spans_the_frame(width, c);
    law_the_grid_spans_the_frame(height, r);
    let y = sample_row(width, height, k);
    let x = sample_column(width, k);
    assert(0 <= y) by (nonlinear_arith)
        requires
            y == r * grid_step(height),
            r >= 0,
            grid_step(height) >= 1,
    ;
    assert(0 <= x) by (nonlinear_arith)
        requires
            x == c * grid_step(width),
            c >= 0,
            grid_step(width) >= 1,
    ;
    assert(0 <= y * width + x < width * height) by (nonlinear_arith)
        requires
            0 <= y < height,
            0 <= x < width,
    ;
}

/// The distance between sampled rows or columns.
fn step_of(dim: usize) -> (step: usize)
    ensures
        step == grid_step(dim as int),
        step >= 1,
{
    let step: usize = dim / SAMPLES;
    if step >= 1 {
        step
    } else {
        1
    }
}

/// The places of all samples in a plane, in order.
fn sampled_pixels(width: usize, height: usize) -> (pixels: Vec<usize>)
    requires
        width > 0,
        height > 0,
        width * height <= usize::MAX,
    ensures
        pixels@.len() == sample_count(width as int, height as int),
        forall|k: int|
            0 <= k < pixels@.len() ==> #[trigger] pixels@[k] == sample_pixel(
                width as int,
                height as int,
                k,
            ),
{
    let x_step: usize = step_of(width);
    let y_step: usize = step_of(height);
    let columns: usize = (width - 1) / x_step + 1;
    let rows: usize = (height - 1) / y_step + 1;
    proof {
        law_the_grid_is_sparse(width as int);
        law_the_grid_is_sparse(height as int);
    }
    let ghost w = width as int;
    let ghost h = height as int;
    let mut pixels: Vec<usize> = Vec::new();
    let mut r: usize = 0;
    assert(0 * columns == 0) by (nonlinear_arith);
    while r < rows
        invariant
            width > 0,
            height > 0,
            w == width,
            h == height,
            width * height <= usize::MAX,
            x_step == grid_step(w),
            y_step == grid_step(h),
            columns == grid_count(w),
            rows == grid_count(h),
            0 < columns < 2 * SAMPLES,
            0 < rows < 2 * SAMPLES,
            0 <= r <= rows,
            pixels@.len() == r * columns,
            forall|k: int| 0 <= k < pixels@.len() ==> #[trigger] pixels@[k] == sample_pixel(w, h, k),
        decreases rows - r,
    {
        let mut c: usize = 0;
        while c < columns
            invariant
                width > 0,
                height > 0,
                w == width,
                h == height,
                width * height <= usize::MAX,
                x_step == grid_step(w),
                y_step == grid_step(h),
                columns == grid_count(w),
                rows == grid_count(h),
                0 < columns < 2 * SAMPLES,
                0 <= r < rows,
                0 <= c <= columns,
                pixels@.len() == r * columns + c,
                forall|k: int|
                    0 <= k < pixels@.len() ==> #[trigger] pixels@[k] == sample_pixel(w, h, k),
            decreases columns - c,
        {
            let ghost k = r * columns + c;
            proof {
                assert(k == columns * r + c) by (nonlinear_arith)
                    requires
                        k == r * columns + c,
                ;
                lemma_fundamental_div_mod_converse(k, columns as int, r as int, c as int);
                assert(0 <= k < columns * rows) by (nonlinear_arith)
                    requires
                        k == r * columns + c,
                        0 <= c < columns,
                        0 <= r < rows,
                ;
                law_samples_lie_in_the_frame(w, h, k);
                lemma_in_the_frame(sample_row(w, h, k), w, h);
            }
            let y: usize = r * y_step;
            let x: usize = c * x_step;
            pixels.push(y * width + x);
            c = c + 1;
        }
        assert((r + 1) * columns == r * columns + columns) by (nonlinear_arith);
        r = r + 1;
    }
    assert(rows * columns == columns * rows) by (nonlinear_arith);
    pixels
}

/// The pixels before a row of a frame are pixels of the frame.
proof fn lemma_in_the_frame(y: int, width: int, height: int)
    requires
        0 <= y < height,
        0 < width,
    ensures
        0 <= y * width <= width * height - width,
{
    assert(0 <= y * width <= width * height - width) by (nonlinear_arith)
        requires
            0 <= y < height,
            0 < width,
    ;
}

/// Samples a plane of 8-bit pixels; `None` if the frame is empty or the plane is too short for it.
pub fn sample_nv12_luma(luma: &[u8], width: u32, height: u32) -> (samples: Option<Vec<u16>>)
    requires
        width * height <= usize::MAX,
    ensures
        match samples {
            Some(samples) => {
                &&& width > 0 && height > 0 && luma@.len() >= width * height
                &&& samples@ == nv12_samples(luma@, width as int, height as int)
            },
            None => width == 0 || height == 0 || luma@.len() < width * height,
        },
{
    let w: usize = width as usize;
    let h: usize = height as usize;
    if width == 0 || height == 0 || luma.len() < w * h {
        return None;
    }
    let pixels: Vec<usize> = sampled_pixels(w, h);
    let mut samples: Vec<u16> = Vec::new();
    let mut k: usize = 0;
    while k < pixels.len()
        invariant
            w > 0,
            h > 0,
            luma@.len() >= w * h,
            0 <= k <= pixels.len(),
            pixels@.len() == sample_count(w as int, h as int),
            forall|j: int|
                0 <= j < pixels@.len() ==> #[trigger] pixels@[j] == sample_pixel(
                    w as int,
                    h as int,
                    j,
                ),
            samples@.len() == k,
            forall|j: int|
                0 <= j < k ==> #[trigger] samples@[j] == nv12_samples(
                    luma@,
                    w as int,
                    h as int,
                )[j],
        decreases pixels.len() - k,
    {
        proof {
            law_samples_lie_in_the_frame(w as int, h as int, k as int);
        }
        samples.push(luma[pixels[k]] as u16);
        k = k + 1;
    }
    assert(samples@ =~= nv12_samples(luma@, width as int, height as int));
    Some(samples)
}

/// Samples a plane of 10-bit pixels, each in the upper bits of two bytes, the lower byte first;
/// `None` if the frame is empty or the plane is too short for it.
pub fn sample_p010_luma(luma: &[u8], width: u32, height: u32) -> (samples: Option<Vec<u16>>)
    requires
        width * height * 2 <= usize::MAX,
    ensures
        match samples {
            Some(samples) => {
                &&& width > 0 && height > 0 && luma@.len() >= width * height * 2
                &&& samples@ == p010_samples(luma@, width as int, height as int)
            },
            None => width == 0 || height == 0 || luma@.len() < width * height * 2,
        },
{
    let w: usize = width as usize;
    let h: usize = height as usize;
    assert(width * height <= width * height * 2) by (nonlinear_arith);
    if width == 0 || height == 0 || luma.len() < w * h * 2 {
        return None;
    }
    let pixels: Vec<usize> = sampled_pixels(w, h);
    let mut samples: Vec<u16> = Vec::new();
    let mut k: usize = 0;
    while k < pixels.len()
        invariant
            w > 0,
            h > 0,
            luma@.len() >= w * h * 2,
            w * h * 2 <= usize::MAX,
            0 <= k <= pixels.len(),
            pixels@.len() == sample_count(w as int, h as int),
            forall|j: int|
                0 <= j < pixels@.len() ==> #[trigger] pixels@[j] == sample_pixel(
                    w as int,
                    h as int,
                    j,
                ),
            samples@.len() == k,
            forall|j: int|
                0 <= j < k ==> #[trigger] samples@[j] == p010_samples(
                    luma@,
                    w as int,
                    h as int,
                )[j],
        decreases pixels.len() - k,
    {
        proof {
            law_samples_lie_in_the_frame(w as int, h as int, k as int);
        }
        let pixel: usize = pixels[k];
        let low: u16 = luma[pixel * 2] as u16;
        let high: u16 = luma[pixel * 2 + 1] as u16;
        samples.push((low + 256 * high) / 64);
        k = k + 1;
    }
    assert(samples@ =~= p010_samples(luma@, width as int, height as int));
    Some(samples)
}

/// A 10-bit sample is never more than its full scale.
pub proof fn law_samples_keep_to_their_scale(luma: Seq<u8>, pixel: int)
    ensures
        p010_pixel(luma, pixel) <= 1023,
{
}

/// Only the upper ten bits of a pixel count: two planes whose pixels agree in them have the same
/// samples.
pub proof fn law_only_the_upper_bits_count(one: Seq<u8>, other: Seq<u8>, width: int, height: int)
    requires
        width > 0,
        height > 0,
        forall|pixel: int|
            0 <= pixel < width * height ==> #[trigger] p010_pixel(one, pixel) == p010_pixel(
                other,
                pixel,
            ),
    ensures
        p010_samples(one, width, height) == p010_samples(other, width, height),
{
    assert forall|k: int| 0 <= k < sample_count(width, height) implies p010_pixel(
        one,
        #[trigger] sample_pixel(width, height, k),
    ) == p010_pixel(other, sample_pixel(width, height, k)) by {
        law_samples_lie_in_the_frame(width, height, k);
    }
    assert(p010_samples(one, width, height) =~= p010_samples(other, width, height));
}

/// Rows and columns are sampled at the largest distance at which [`SAMPLES`] of them fit into the
/// frame; in a frame with fewer, each of them is.
pub proof fn law_the_grid_is_as_wide_as_the_frame(dim: int)
    requires
        dim > 0,
    ensures
        dim >= 48 ==> 48 * grid_step(dim) <= dim < 48 * (grid_step(dim) + 1),
        dim < 48 ==> grid_step(dim) == 1,
{
    assert(dim / (SAMPLES as int) == dim / 48) by (nonlinear_arith)
        requires
            SAMPLES == 48,
    ;
}

/// The samples are those at the crossings of the sampled rows and columns, counted row by row: in
/// the `r`-th sampled row, at the `r`-th multiple of the distance between rows, the `c`-th sample is
/// at the `c`-th multiple of the distance between columns.
pub proof fn law_samples_are_at_the_crossings(width: int, height: int, r: int, c: int)
    requires
        width > 0,
        height > 0,
        0 <= r < grid_count(height),
        0 <= c < grid_count(width),
    ensures
        ({
            let k = r * grid_count(width) + c;
            &&& 0 <= k < grid_count(width) * grid_count(height)
            &&& sample_count(width, height) == grid_count(width) * grid_count(height)
            &&& sample_row(width, height, k) == r * grid_step(height)
            &&& sample_column(width, k) == c * grid_step(width)
            &&& sample_pixel(width, height, k) == (r * grid_step(height)) * width + c * grid_step(
                width,
            )
        }),
{
    let columns = grid_count(width);
    let rows = grid_count(height);
    let k = r * columns + c;
    assert(k == columns * r + c) by (nonlinear_arith)
        requires
            k == r * columns + c,
    ;
    lemma_fundamental_div_mod_converse(k, columns, r, c);
    assert(0 <= k < columns * rows) by (nonlinear_arith)
        requires
            k == r * columns + c,
            0 <= c < columns,
            0 <= r < rows,
    ;
}

/// The sample one sampled row further on is in the same column and the distance between sampled rows
/// below; the next sample of the same sampled row is the distance between sampled columns to the
/// right.
pub proof fn law_neighbouring_samples_are_one_step_apart(width: int, height: int, k: int)
    requires
        width > 0,
        height > 0,
        0 <= k < sample_count(width, height),
    ensures
        ({
            let below = k + grid_count(width);
            &&& sample_row(width, height, below) - sample_row(width, height, k) == grid_step(height)
            &&& sample_column(width, below) == sample_column(width, k)
        }),
        (k + 1) % grid_count(width) != 0 ==> {
            &&& sample_row(width, height, k + 1) == sample_row(width, height, k)
            &&& sample_column(width, k + 1) - sample_column(width, k) == grid_step(width)
        },
        (k + 1) % grid_count(width) == 0 ==> {
            &&& sample_row(width, height, k + 1) - sample_row(width, height, k) == grid_step(height)
            &&& sample_column(width, k + 1) == 0
        },
{
    let columns = grid_count(width);
    law_the_grid_is_sparse(width);
    lemma_fundamental_div_mod(k, columns);
    lemma_mod_bound(k, columns);
    let r = k / columns;
    let c = k % columns;
    let (down, across) = (grid_step(height), grid_step(width));
    assert(k + columns == columns * (r + 1) + c) by (nonlinear_arith)
        requires
            k == columns * r + c,
    ;
    assert(k + columns == (r + 1) * columns + c) by (nonlinear_arith)
        requires
            k + columns == columns * (r + 1) + c,
    ;
    lemma_fundamental_div_mod_converse(k + columns, columns, r + 1, c);
    assert((r + 1) * down - r * down == down) by (nonlinear_arith);
    if c + 1 < columns {
        assert(k + 1 == (r * columns) + (c + 1)) by (nonlinear_arith)
            requires
                k == columns * r + c,
        ;
        lemma_fundamental_div_mod_converse(k + 1, columns, r, c + 1);
        assert((c + 1) * across - c * across == across) by (nonlinear_arith);
    } else {
        assert(k + 1 == (r + 1) * columns + 0) by (nonlinear_arith)
            requires
                k == columns * r + c,
                c + 1 == columns,
        ;
        lemma_fundamental_div_mod_converse(k + 1, columns, r + 1, 0);
        assert(0 * across == 0) by (nonlinear_arith);
    }
}

/// No part of a frame is left out: every pixel has a sample in the rows right above it and the
/// columns right before it, each nearer than one step.
pub proof fn law_every_pixel_is_near_a_sample(width: int, height: int, x: int, y: int)
    requires
        0 <= x < width,
        0 <= y < height,
    ensures
        exists|k: int|
            {
                &&& 0 <= k < sample_count(width, height)
                &&& #[trigger] sample_row(width, height, k) <= y
                &&& y < sample_row(width, height, k) + grid_step(height)
                &&& sample_column(width, k) <= x
                &&& x < sample_column(width, k) + grid_step(width)
            },
{
    let r = y / grid_step(height);
    let c = x / grid_step(width);
    lemma_place_on_the_grid(height, y);
    lemma_place_on_the_grid(width, x);
    law_samples_are_at_the_crossings(width, height, r, c);
    let k = r * grid_count(width) + c;
    assert(sample_row(width, height, k) <= y);
}

/// The sampled row or column that one belongs to.
proof fn lemma_place_on_the_grid(dim: int, at: int)
    requires
        0 <= at < dim,
    ensures
        0 <= at / grid_step(dim) < grid_count(dim),
        (at / grid_step(dim)) * grid_step(dim) <= at,
        at < (at / grid_step(dim)) * grid_step(dim) + grid_step(dim),
{
    let step = grid_step(dim);
    let i = at / step;
    lemma_fundamental_div_mod(at, step);
    lemma_mod_bound(at, step);
    assert(i >= 0) by (nonlinear_arith)
        requires
            at == step * i + at % step,
            at % step < step,
            at >= 0,
            step >= 1,
    ;
    assert(i * step == step * i) by (nonlinear_arith);
    law_the_grid_spans_the_frame(dim, i);
}

/// An 8-bit sample is the pixel at its crossing, and a 10-bit sample the upper ten bits of the two
/// bytes there, the second of which counts 256 times as much as the first.
pub proof fn law_samples_are_pixels(luma: Seq<u8>, width: int, height: int, r: int, c: int)
    requires
        width > 0,
        height > 0,
        0 <= r < grid_count(height),
        0 <= c < grid_count(width),
    ensures
        ({
            let k = r * grid_count(width) + c;
            let pixel = (r * grid_step(height)) * width + c * grid_step(width);
            let wide = luma[pixel * 2] + 256 * luma[pixel * 2 + 1];
            &&& nv12_samples(luma, width, height).len() == grid_count(width) * grid_count(height)
            &&& nv12_samples(luma, width, height)[k] == luma[pixel]
            &&& p010_samples(luma, width, height).len() == grid_count(width) * grid_count(height)
            &&& 64 * p010_samples(luma, width, height)[k] <= wide
            &&& wide < 64 * (p010_samples(luma, width, height)[k] + 1)
        }),
{
    law_samples_are_at_the_crossings(width, height, r, c);
    law_the_grid_is_sparse(width);
    law_the_grid_is_sparse(height);
}

/// A plane of 8-bit pixels is sampled if and only if the frame is not empty and the plane holds all
/// of it; there is then a sample for every crossing, and it is the pixel there.
pub proof fn law_complete_planes_are_sampled(
    luma: &[u8],
    width: u32,
    height: u32,
    samples: Option<Vec<u16>>,
    r: int,
    c: int,
)
    requires
        call_ensures(sample_nv12_luma, (luma, width, height), samples),
    ensures
        samples is Some <==> width > 0 && height > 0 && luma@.len() >= width * height,
        samples matches Some(samples) ==> {
            let (columns, rows) = (grid_count(width as int), grid_count(height as int));
            &&& samples@.len() == columns * rows
            &&& 0 <= r < rows && 0 <= c < columns ==> samples@[r * columns + c] == luma@[(r
                * grid_step(height as int)) * width + c * grid_step(width as int)]
        },
{
    let (w, h) = (width as int, height as int);
    if samples is Some && 0 <= r < grid_count(h) && 0 <= c < grid_count(w) {
        law_samples_are_pixels(luma@, w, h, r, c);
    }
    if samples is Some {
        law_the_grid_is_sparse(w);
        law_the_grid_is_sparse(h);
        assert(grid_count(w) * grid_count(h) >= 0) by (nonlinear_arith)
            requires
                grid_count(w) > 0,
                grid_count(h) > 0,
        ;
    }
}

/// A plane of 10-bit pixels is sampled if and only if the frame is not empty and the plane holds two
/// bytes for each of its pixels; there is then a sample for every crossing, and it is the upper ten
/// bits of the two bytes there.
pub proof fn law_complete_wide_planes_are_sampled(
    luma: &[u8],
    width: u32,
    height: u32,
    samples: Option<Vec<u16>>,
    r: int,
    c: int,
)
    requires
        call_ensures(sample_p010_luma, (luma, width, height), samples),
    ensures
        samples is Some <==> width > 0 && height > 0 && luma@.len() >= width * height * 2,
        samples matches Some(samples) ==> {
            let (columns, rows) = (grid_count(width as int), grid_count(height as int));
            let pixel = (r * grid_step(height as int)) * width + c * grid_step(width as int);
            let wide = luma@[pixel * 2] + 256 * luma@[pixel * 2 + 1];
            &&& samples@.len() == columns * rows
            &&& 0 <= r < rows && 0 <= c < columns ==> 64 * samples@[r * columns + c] <= wide
                && wide < 64 * (samples@[r * columns + c] + 1)
        },
{
    let (w, h) = (width as int, height as int);
    if samples is Some && 0 <= r < grid_count(h) && 0 <= c < grid_count(w) {
        law_samples_are_pixels(luma@, w, h, r, c);
    }
    if samples is Some {
        law_the_grid_is_sparse(w);
        law_the_grid_is_sparse(h);
        assert(grid_count(w) * grid_count(h) >= 0) by (nonlinear_arith)
            requires
                grid_count(w) > 0,
                grid_count(h) > 0,
        ;
    }
}

} // verus!
