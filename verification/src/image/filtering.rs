//! Rank filtering: the 3x3 median with replicated borders.

use vstd::prelude::*;

use crate::buffer::{packed_model, unsupported_format, ImageBuffer, ImageModel};
use crate::error::{PerceptionError, PerceptionResult};
use crate::image::grid::{grid, lemma_grid_index, lemma_grid_next};
use crate::image::operations::{border_pick, border_sample, lemma_gray_packed_fits, require_gray, BorderMode, BorderRule};
use crate::types::PixelFormat;

verus! {

/// Number of entries of `s` that are at most `v`.
pub open spec fn count_at_most(s: Seq<u8>, v: int) -> nat
    decreases s.len(),
{
    if s.len() == 0 {
        0
    } else {
        count_at_most(s.drop_last(), v) + if s.last() <= v {
            1nat
        } else {
            0nat
        }
    }
}

/// `v` is the middle (fifth smallest) of nine values: at most four values lie below it
/// and at least five lie at or below it.
pub open spec fn is_middle(s: Seq<u8>, v: u8) -> bool {
    count_at_most(s, v - 1) <= 4 && count_at_most(s, v as int) >= 5
}

/// The middle of nine values: the fifth entry once they are sorted.
pub open spec fn middle_value(s: Seq<u8>) -> u8 {
    choose|v: u8| is_middle(s, v)
}

/// The nine samples of the 3x3 neighbourhood of (`x`, `y`), row by row, with
/// coordinates outside the image replaced by the nearest edge pixel.
pub open spec fn neighborhood9(m: ImageModel, x: int, y: int) -> Seq<u8> {
    Seq::new(9, |k: int| border_pick(m, x + k % 3 - 1, y + k / 3 - 1, 0, BorderRule::Replicate))
}

/// Counting entries at or below a bound is monotone in the bound, gives no entries below
/// zero, and every entry at 255.
pub proof fn lemma_count_at_most_bounds(s: Seq<u8>, a: int, b: int)
    ensures
        a <= b ==> count_at_most(s, a) <= count_at_most(s, b),
        a < 0 ==> count_at_most(s, a) == 0,
        b >= 255 ==> count_at_most(s, b) == s.len(),
    decreases s.len(),
{
    if s.len() > 0 {
        lemma_count_at_most_bounds(s.drop_last(), a, b);
    }
}

/// When raising the bound from `t - 1` to `t` counts more entries, some entry equals `t`.
proof fn lemma_count_jump(s: Seq<u8>, t: int)
    requires
        count_at_most(s, t) > count_at_most(s, t - 1),
    ensures
        exists|i: int| 0 <= i < s.len() && s[i] == t,
    decreases s.len(),
{
    if s.len() > 0 {
        if s.last() == t {
            assert(s[s.len() - 1] == t);
        } else {
            lemma_count_jump(s.drop_last(), t);
            let i = choose|i: int| 0 <= i < s.drop_last().len() && s.drop_last()[i] == t;
            assert(s[i] == t);
        }
    }
}

/// If at least five entries lie at or below `t`, some entry at or below `t` already has at
/// least five entries at or below it.
proof fn lemma_candidate_below(s: Seq<u8>, t: int)
    requires
        t >= 0,
        count_at_most(s, t) >= 5,
    ensures
        exists|i: int| 0 <= i < s.len() && s[i] <= t && count_at_most(s, s[i] as int) >= 5,
    decreases t,
{
    if t > 0 && count_at_most(s, t - 1) >= 5 {
        lemma_candidate_below(s, t - 1);
        let i = choose|i: int| 0 <= i < s.len() && s[i] <= t - 1 && count_at_most(s, s[i] as int) >= 5;
        assert(s[i] <= t);
    } else {
        lemma_count_at_most_bounds(s, t - 1, t);
        lemma_count_jump(s, t);
        let i = choose|i: int| 0 <= i < s.len() && s[i] == t;
        assert(count_at_most(s, s[i] as int) >= 5);
    }
}

/// Nine values have exactly one middle value.
pub proof fn lemma_middle_unique(s: Seq<u8>, v: u8, w: u8)
    requires
        is_middle(s, v),
        is_middle(s, w),
    ensures
        v == w,
{
    if v < w {
        lemma_count_at_most_bounds(s, v as int, w - 1);
    } else if w < v {
        lemma_count_at_most_bounds(s, w as int, v - 1);
    }
}

/// Number of entries of `values` at most `v`.
fn count_at_most_exec(values: &Vec<u8>, v: u8) -> (count: usize)
    requires
        values@.len() <= 9,
    ensures
        count == count_at_most(values@, v as int),
{
    let mut count: usize = 0;
    let mut j: usize = 0;
    while j < values.len()
        invariant
            values@.len() <= 9,
            j <= values@.len(),
            count == count_at_most(values@.take(j as int), v as int),
            count <= j,
        decreases values@.len() - j,
    {
        proof {
            assert(values@.take(j + 1).drop_last() =~= values@.take(j as int));
        }
        if values[j] <= v {
            count = count + 1;
        }
        j = j + 1;
    }
    proof {
        assert(values@.take(values@.len() as int) =~= values@);
    }
    count
}

/// The middle of nine values: the smallest value with at least five values at or below it.
pub fn middle_of_nine(values: &Vec<u8>) -> (middle: u8)
    requires
        values@.len() == 9,
    ensures
        is_middle(values@, middle),
        middle == middle_value(values@),
{
    let ghost s = values@;
    let mut best: Option<u8> = None;
    let mut i: usize = 0;
    while i < 9
        invariant
            s == values@,
            s.len() == 9,
            i <= 9,
            forall|j: int| 0 <= j < i && count_at_most(s, s[j] as int) >= 5 ==> (best matches Some(b) && b <= s[j]),
            best matches Some(b) ==> count_at_most(s, b as int) >= 5,
        decreases 9 - i,
    {
        let value = values[i];
        let count = count_at_most_exec(values, value);
        if count >= 5 {
            match best {
                Some(b) => {
                    if value < b {
                        best = Some(value);
                    }
                },
                None => {
                    best = Some(value);
                },
            }
        }
        i = i + 1;
    }
    proof {
        lemma_count_at_most_bounds(s, 0, 255);
        lemma_candidate_below(s, 255);
    }
    let middle = best.unwrap();
    proof {
        if middle >= 1 && count_at_most(s, middle - 1) >= 5 {
            lemma_candidate_below(s, middle - 1);
        }
        lemma_count_at_most_bounds(s, middle - 1, 0);
        assert(is_middle(s, middle));
        lemma_middle_unique(s, middle, middle_value(s));
    }
    middle
}

/// Component (`x`, `y`) of the median-filtered image.
pub open spec fn median_pick(m: ImageModel) -> spec_fn(int, int, int) -> u8 {
    |x: int, y: int, c: int| middle_value(neighborhood9(m, x, y))
}

/// Applies a 3x3 median filter with replicated borders to a Gray8 image.
pub fn median_blur_3x3(input: &ImageBuffer) -> (result: PerceptionResult<ImageBuffer>)
    requires
        input.wf(),
        input.model().shape.width <= i32::MAX,
        input.model().shape.height <= i32::MAX,
    ensures
        input.model().pixel_format != PixelFormat::Gray8 ==> (result matches Err(e) && unsupported_format(
            e,
            "median_blur_3x3",
            input.model().pixel_format,
        )),
        input.model().pixel_format == PixelFormat::Gray8 && input.model().is_empty() ==> result == Err::<
            ImageBuffer,
            PerceptionError,
        >(input.model().empty_error()),
        input.model().pixel_format == PixelFormat::Gray8 && !input.model().is_empty() ==> (result matches Ok(
            output,
        ) && output.wf() && output.model() == packed_model(
            input.model().shape.width,
            input.model().shape.height,
            PixelFormat::Gray8,
            grid(input.model().shape.width as nat, input.model().shape.height as nat, 1, median_pick(input.model())),
        )),
{
    require_gray(input, "median_blur_3x3")?;
    let ghost m = input.model();
    let ghost f = median_pick(m);
    proof {
        lemma_gray_packed_fits(m);
        assert(m.shape.width * 1 * m.shape.height == m.shape.width * m.shape.height) by (nonlinear_arith);
    }
    let width = input.width();
    let height = input.height();
    let border = BorderMode::Replicate;
    let mut data: Vec<u8> = Vec::new();
    let mut y: u32 = 0;
    proof {
        assert((0 * width + 0) * 1 == 0) by (nonlinear_arith);
    }
    while y < height
        invariant
            m == input.model(),
            input.wf(),
            m.pixel_format == PixelFormat::Gray8,
            f == median_pick(m),
            border == BorderMode::Replicate,
            width == m.shape.width,
            height == m.shape.height,
            width <= i32::MAX,
            height <= i32::MAX,
            y <= height,
            data@.len() == (y * width + 0) * 1,
            forall|i: int| 0 <= i < data@.len() ==> data@[i] == grid(width as nat, height as nat, 1, f)[i],
        decreases height - y,
    {
        let mut x: u32 = 0;
        while x < width
            invariant
                m == input.model(),
                input.wf(),
                m.pixel_format == PixelFormat::Gray8,
                f == median_pick(m),
                border == BorderMode::Replicate,
                width == m.shape.width,
                height == m.shape.height,
                width <= i32::MAX,
                height <= i32::MAX,
                y < height,
                x <= width,
                data@.len() == (y * width + x) * 1,
                forall|i: int| 0 <= i < data@.len() ==> data@[i] == grid(width as nat, height as nat, 1, f)[i],
            decreases width - x,
        {
            let mut values: Vec<u8> = Vec::new();
            let mut oy: i32 = -1;
            while oy <= 1
                invariant
                    m == input.model(),
                    input.wf(),
                    m.pixel_format == PixelFormat::Gray8,
                    border == BorderMode::Replicate,
                    width == m.shape.width,
                    height == m.shape.height,
                    width <= i32::MAX,
                    height <= i32::MAX,
                    x < width,
                    y < height,
                    -1 <= oy <= 2,
                    values@.len() == (oy + 1) * 3,
                    forall|k: int| 0 <= k < values@.len() ==> values@[k] == neighborhood9(m, x as int, y as int)[k],
                decreases 2 - oy,
            {
                let mut ox: i32 = -1;
                while ox <= 1
                    invariant
                        m == input.model(),
                        input.wf(),
                        m.pixel_format == PixelFormat::Gray8,
                        border == BorderMode::Replicate,
                        width == m.shape.width,
                        height == m.shape.height,
                        width <= i32::MAX,
                        height <= i32::MAX,
                        x < width,
                        y < height,
                        -1 <= oy <= 1,
                        -1 <= ox <= 2,
                        values@.len() == (oy + 1) * 3 + (ox + 1),
                        forall|k: int| 0 <= k < values@.len() ==> values@[k] == neighborhood9(m, x as int, y as int)[k],
                    decreases 2 - ox,
                {
                    let sx = x as i32 + ox;
                    let sy = y as i32 + oy;
                    proof {
                        crate::image::operations::lemma_border_source_inside(m, sx as int, sy as int, BorderRule::Replicate);
                        crate::types::lemma_u8_interleaved_one_byte_per_channel(m.pixel_format);
                        let k = (oy + 1) * 3 + (ox + 1);
                        assert(k % 3 == ox + 1 && k / 3 == oy + 1);
                    }
                    let value = border_sample(input, sx, sy, 0, &border).unwrap();
                    values.push(value);
                    ox = ox + 1;
                }
                oy = oy + 1;
            }
            proof {
                assert(values@ =~= neighborhood9(m, x as int, y as int));
            }
            let middle = middle_of_nine(&values);
            proof {
                lemma_grid_index(width as nat, height as nat, 1, x as int, y as int, 0);
                lemma_grid_next(width as nat, 1, x as int, y as int, 0);
            }
            data.push(middle);
            x = x + 1;
        }
        proof {
            lemma_grid_next(width as nat, 1, x as int, y as int, 0);
        }
        y = y + 1;
    }
    proof {
        assert(data@.len() == width * height * 1) by (nonlinear_arith)
            requires
                data@.len() == (height * width + 0) * 1,
        ;
        assert(data@ =~= grid(width as nat, height as nat, 1, f));
    }
    ImageBuffer::new(width, height, PixelFormat::Gray8, data)
}

/// A neighbourhood whose nine samples are all `v` has middle value `v`: the median filter
/// keeps flat regions unchanged.
pub proof fn lemma_flat_neighborhood_middle(s: Seq<u8>, v: u8)
    requires
        s.len() == 9,
        forall|k: int| 0 <= k < 9 ==> s[k] == v,
    ensures
        middle_value(s) == v,
{
    assert(count_at_most(s, v as int) == 9) by {
        reveal_with_fuel(count_at_most, 10);
        assert(s.drop_last().drop_last().drop_last().drop_last().drop_last().drop_last().drop_last().drop_last().drop_last().len() == 0);
    }
    assert(count_at_most(s, v - 1) == 0) by {
        reveal_with_fuel(count_at_most, 10);
        assert(s.drop_last().drop_last().drop_last().drop_last().drop_last().drop_last().drop_last().drop_last().drop_last().len() == 0);
    }
    assert(is_middle(s, v));
    lemma_middle_unique(s, v, middle_value(s));
}

} // verus!
