//! Binary-mask morphology and foreground segmentation used by the classical document
//! detector: 3x3 dilation, erosion and closing, Otsu-style foreground masks, 4-connected
//! components and their boundary pixels.

use vstd::prelude::*;
use vstd::arithmetic::div_mod::{lemma_fundamental_div_mod, lemma_fundamental_div_mod_converse};

use crate::buffer::{lemma_packed_index, lemma_packed_len, lemma_row_in_footprint, ImageBuffer, ImageModel};
use crate::types::PixelFormat;
use crate::error::PerceptionResult;
use crate::image::operations::{prefix_max, prefix_min};

verus! {

/// Mask value at (`x`, `y`); every position outside the `width` x `height` frame reads as
/// background.
pub open spec fn mask_at(mask: Seq<bool>, width: int, height: int, x: int, y: int) -> bool {
    0 <= x < width && 0 <= y < height && mask[y * width + x]
}

/// Some position of the 3x3 neighbourhood centred on (`x`, `y`) is foreground.
pub open spec fn neighborhood_any(mask: Seq<bool>, width: int, height: int, x: int, y: int) -> bool {
    ||| mask_at(mask, width, height, x - 1, y - 1)
    ||| mask_at(mask, width, height, x, y - 1)
    ||| mask_at(mask, width, height, x + 1, y - 1)
    ||| mask_at(mask, width, height, x - 1, y)
    ||| mask_at(mask, width, height, x, y)
    ||| mask_at(mask, width, height, x + 1, y)
    ||| mask_at(mask, width, height, x - 1, y + 1)
    ||| mask_at(mask, width, height, x, y + 1)
    ||| mask_at(mask, width, height, x + 1, y + 1)
}

/// Every position of the 3x3 neighbourhood centred on (`x`, `y`) is foreground (so the
/// whole neighbourhood lies inside the frame).
pub open spec fn neighborhood_all(mask: Seq<bool>, width: int, height: int, x: int, y: int) -> bool {
    &&& mask_at(mask, width, height, x - 1, y - 1)
    &&& mask_at(mask, width, height, x, y - 1)
    &&& mask_at(mask, width, height, x + 1, y - 1)
    &&& mask_at(mask, width, height, x - 1, y)
    &&& mask_at(mask, width, height, x, y)
    &&& mask_at(mask, width, height, x + 1, y)
    &&& mask_at(mask, width, height, x - 1, y + 1)
    &&& mask_at(mask, width, height, x, y + 1)
    &&& mask_at(mask, width, height, x + 1, y + 1)
}

/// 3x3 dilation: entry `i` of the frame is set when its neighbourhood holds foreground;
/// entries past the frame are cleared.
pub open spec fn dilated(mask: Seq<bool>, width: int, height: int) -> Seq<bool> {
    Seq::new(
        mask.len(),
        |i: int| i < width * height && neighborhood_any(mask, width, height, i % width, i / width),
    )
}

/// 3x3 erosion: entry `i` of the frame is set when its whole neighbourhood is foreground;
/// entries past the frame are cleared.
pub open spec fn eroded(mask: Seq<bool>, width: int, height: int) -> Seq<bool> {
    Seq::new(
        mask.len(),
        |i: int| i < width * height && neighborhood_all(mask, width, height, i % width, i / width),
    )
}

/// 3x3 closing: erosion of the dilation.
pub open spec fn closed(mask: Seq<bool>, width: int, height: int) -> Seq<bool> {
    eroded(dilated(mask, width, height), width, height)
}

/// Index `y * width + x` splits back into column `x` and row `y`.
pub proof fn lemma_index_split(width: int, height: int, x: int, y: int)
    requires
        0 <= x < width,
        0 <= y < height,
    ensures
        0 <= y * width + x < width * height,
        (y * width + x) % width == x,
        (y * width + x) / width == y,
{
    lemma_fundamental_div_mod_converse(y * width + x, width, y, x);
    assert(0 <= y * width + x < width * height) by (nonlinear_arith)
        requires
            0 <= x < width,
            0 <= y < height,
    ;
}

/// Both frame sides are representable as `i32`, the coordinate type of mask lookups.
pub open spec fn frame_fits_i32(width: u32, height: u32) -> bool {
    width <= i32::MAX && height <= i32::MAX
}

/// Whether (`x`, `y`) holds foreground; positions outside the frame read as background,
/// and so does every position of a frame whose sides do not fit in `i32`.
pub fn sample_mask(mask: &[bool], width: u32, height: u32, x: i32, y: i32) -> (value: bool)
    requires
        mask@.len() >= width * height,
    ensures
        value == (frame_fits_i32(width, height) && mask_at(mask@, width as int, height as int, x as int, y as int)),
{
    if width > i32::MAX as u32 || height > i32::MAX as u32 {
        return false;
    }
    if x >= 0 && y >= 0 && x < width as i32 && y < height as i32 {
        let len = mask.len();
        proof {
            lemma_index_split(width as int, height as int, x as int, y as int);
            assert(y * width <= y * width + x) by (nonlinear_arith)
                requires
                    0 <= x,
            ;
            assert(len == mask@.len());
        }
        mask[y as usize * width as usize + x as usize]
    } else {
        false
    }
}

/// Whether any position of the 3x3 neighbourhood of (`x`, `y`) holds foreground.
fn any_in_neighborhood(mask: &[bool], width: u32, height: u32, x: i32, y: i32) -> (value: bool)
    requires
        mask@.len() >= width * height,
        0 <= x < width,
        0 <= y < height,
        width <= i32::MAX,
        height <= i32::MAX,
    ensures
        value == neighborhood_any(mask@, width as int, height as int, x as int, y as int),
{
    sample_mask(mask, width, height, x - 1, y - 1) || sample_mask(mask, width, height, x, y - 1)
        || sample_mask(mask, width, height, x + 1, y - 1) || sample_mask(mask, width, height, x - 1, y)
        || sample_mask(mask, width, height, x, y) || sample_mask(mask, width, height, x + 1, y)
        || sample_mask(mask, width, height, x - 1, y + 1) || sample_mask(mask, width, height, x, y + 1)
        || sample_mask(mask, width, height, x + 1, y + 1)
}

/// Whether every position of the 3x3 neighbourhood of (`x`, `y`) holds foreground.
fn all_in_neighborhood(mask: &[bool], width: u32, height: u32, x: i32, y: i32) -> (value: bool)
    requires
        mask@.len() >= width * height,
        0 <= x < width,
        0 <= y < height,
        width <= i32::MAX,
        height <= i32::MAX,
    ensures
        value == neighborhood_all(mask@, width as int, height as int, x as int, y as int),
{
    sample_mask(mask, width, height, x - 1, y - 1) && sample_mask(mask, width, height, x, y - 1)
        && sample_mask(mask, width, height, x + 1, y - 1) && sample_mask(mask, width, height, x - 1, y)
        && sample_mask(mask, width, height, x, y) && sample_mask(mask, width, height, x + 1, y)
        && sample_mask(mask, width, height, x - 1, y + 1) && sample_mask(mask, width, height, x, y + 1)
        && sample_mask(mask, width, height, x + 1, y + 1)
}

/// The all-background mask of `len` entries.
pub open spec fn cleared(len: nat) -> Seq<bool> {
    Seq::new(len, |i: int| false)
}

/// Applies the 3x3 neighbourhood test (`any` for dilation, `all` for erosion) at every
/// position of the frame.
fn morph_binary(input: &[bool], width: u32, height: u32, any: bool) -> (output: Vec<bool>)
    requires
        input@.len() >= width * height,
    ensures
        !frame_fits_i32(width, height) ==> output@ == cleared(input@.len()),
        frame_fits_i32(width, height) && any ==> output@ == dilated(input@, width as int, height as int),
        frame_fits_i32(width, height) && !any ==> output@ == eroded(input@, width as int, height as int),
{
    if width > i32::MAX as u32 || height > i32::MAX as u32 {
        let output: Vec<bool> = vec![false; input.len()];
        proof {
            assert(output@ =~= cleared(input@.len()));
        }
        return output;
    }
    let ghost w = width as int;
    let ghost h = height as int;
    let ghost target = if any {
        dilated(input@, w, h)
    } else {
        eroded(input@, w, h)
    };
    let mut output: Vec<bool> = vec![false; input.len()];
    let mut y: u32 = 0;
    while y < height
        invariant
            input@.len() >= w * h,
            w == width,
            h == height,
            width <= i32::MAX,
            height <= i32::MAX,
            target == (if any {
                dilated(input@, w, h)
            } else {
                eroded(input@, w, h)
            }),
            y <= height,
            output@.len() == input@.len(),
            forall|i: int| 0 <= i < y * w ==> output@[i] == target[i],
            forall|i: int| y * w <= i < output@.len() ==> !output@[i],
        decreases height - y,
    {
        let mut x: u32 = 0;
        while x < width
            invariant
                input@.len() >= w * h,
                w == width,
                h == height,
                width <= i32::MAX,
                height <= i32::MAX,
                target == (if any {
                    dilated(input@, w, h)
                } else {
                    eroded(input@, w, h)
                }),
                y < height,
                x <= width,
                output@.len() == input@.len(),
                forall|i: int| 0 <= i < y * w + x ==> output@[i] == target[i],
                forall|i: int| y * w + x <= i < output@.len() ==> !output@[i],
            decreases width - x,
        {
            let len = input.len();
            proof {
                lemma_index_split(w, h, x as int, y as int);
                assert(len == input@.len());
            }
            let value = if any {
                any_in_neighborhood(input, width, height, x as i32, y as i32)
            } else {
                all_in_neighborhood(input, width, height, x as i32, y as i32)
            };
            let index = y as usize * width as usize + x as usize;
            output.set(index, value);
            x = x + 1;
        }
        proof {
            assert(y * w + w == (y + 1) * w) by (nonlinear_arith);
        }
        y = y + 1;
    }
    proof {
        assert forall|i: int| 0 <= i < output@.len() implies output@[i] == target[i] by {
            if i >= w * h {
                assert(!target[i]);
            }
        }
        assert(output@ =~= target);
    }
    output
}

/// 3x3 binary dilation over a `width` x `height` row-major mask.
pub fn dilate_binary(input: &[bool], width: u32, height: u32) -> (output: Vec<bool>)
    requires
        input@.len() >= width * height,
    ensures
        frame_fits_i32(width, height) ==> output@ == dilated(input@, width as int, height as int),
        !frame_fits_i32(width, height) ==> output@ == cleared(input@.len()),
{
    morph_binary(input, width, height, true)
}

/// 3x3 binary erosion over a `width` x `height` row-major mask.
pub fn erode_binary(input: &[bool], width: u32, height: u32) -> (output: Vec<bool>)
    requires
        input@.len() >= width * height,
    ensures
        frame_fits_i32(width, height) ==> output@ == eroded(input@, width as int, height as int),
        !frame_fits_i32(width, height) ==> output@ == cleared(input@.len()),
{
    morph_binary(input, width, height, false)
}

/// 3x3 binary closing (dilation followed by erosion), which bridges one-pixel gaps.
pub fn close_binary(input: &[bool], width: u32, height: u32) -> (output: Vec<bool>)
    requires
        input@.len() >= width * height,
    ensures
        frame_fits_i32(width, height) ==> output@ == closed(input@, width as int, height as int),
        !frame_fits_i32(width, height) ==> output@ == cleared(input@.len()),
{
    let dilation = dilate_binary(input, width, height);
    erode_binary(&dilation, width, height)
}

/// Dilation and erosion are monotone: a mask contained in another (inside the frame)
/// dilates and erodes to masks contained in the other's.
pub proof fn lemma_morphology_monotone(small: Seq<bool>, large: Seq<bool>, width: int, height: int, i: int)
    requires
        small.len() == large.len(),
        small.len() >= width * height,
        forall|j: int| 0 <= j < width * height && #[trigger] small[j] ==> large[j],
        0 <= i < small.len(),
    ensures
        dilated(small, width, height)[i] ==> dilated(large, width, height)[i],
        eroded(small, width, height)[i] ==> eroded(large, width, height)[i],
{
    if i < width * height {
        let x = i % width;
        let y = i / width;
        assert forall|px: int, py: int| #[trigger] mask_at(small, width, height, px, py) implies mask_at(
            large,
            width,
            height,
            px,
            py,
        ) by {
            lemma_index_split(width, height, px, py);
        }
        assert(mask_at(small, width, height, x - 1, y - 1) ==> mask_at(large, width, height, x - 1, y - 1));
        assert(mask_at(small, width, height, x, y - 1) ==> mask_at(large, width, height, x, y - 1));
        assert(mask_at(small, width, height, x + 1, y - 1) ==> mask_at(large, width, height, x + 1, y - 1));
        assert(mask_at(small, width, height, x - 1, y) ==> mask_at(large, width, height, x - 1, y));
        assert(mask_at(small, width, height, x, y) ==> mask_at(large, width, height, x, y));
        assert(mask_at(small, width, height, x + 1, y) ==> mask_at(large, width, height, x + 1, y));
        assert(mask_at(small, width, height, x - 1, y + 1) ==> mask_at(large, width, height, x - 1, y + 1));
        assert(mask_at(small, width, height, x, y + 1) ==> mask_at(large, width, height, x, y + 1));
        assert(mask_at(small, width, height, x + 1, y + 1) ==> mask_at(large, width, height, x + 1, y + 1));
    }
}

/// Erosion only removes foreground and dilation only adds it: inside the frame,
/// `eroded ⊆ mask ⊆ dilated`.
pub proof fn lemma_erode_within_dilate(mask: Seq<bool>, width: int, height: int, i: int)
    requires
        0 < width,
        0 < height,
        mask.len() >= width * height,
        0 <= i < width * height,
    ensures
        eroded(mask, width, height)[i] ==> mask[i],
        mask[i] ==> dilated(mask, width, height)[i],
{
    lemma_fundamental_div_mod(i, width);
    assert(i / width * width == width * (i / width)) by (nonlinear_arith);
    assert(0 <= i / width < height) by (nonlinear_arith)
        requires
            0 <= i < width * height,
            width > 0,
    ;
}

/// A foreground pixel marks every position of its 3x3 neighbourhood in the dilation.
proof fn lemma_dilated_near(mask: Seq<bool>, width: int, height: int, x: int, y: int, px: int, py: int)
    requires
        mask.len() >= width * height,
        0 <= x < width,
        0 <= y < height,
        0 <= px < width,
        0 <= py < height,
        -1 <= px - x <= 1,
        -1 <= py - y <= 1,
        mask[y * width + x],
    ensures
        mask_at(dilated(mask, width, height), width, height, px, py),
{
    lemma_index_split(width, height, px, py);
    lemma_index_split(width, height, x, y);
    assert(mask_at(mask, width, height, x, y));
    assert(neighborhood_any(mask, width, height, px, py));
}

/// Closing keeps every foreground pixel whose 3x3 neighbourhood lies inside the frame.
pub proof fn lemma_close_keeps_interior(mask: Seq<bool>, width: int, height: int, x: int, y: int)
    requires
        mask.len() >= width * height,
        1 <= x < width - 1,
        1 <= y < height - 1,
        mask[y * width + x],
    ensures
        closed(mask, width, height)[y * width + x],
{
    let d = dilated(mask, width, height);
    lemma_index_split(width, height, x, y);
    lemma_dilated_near(mask, width, height, x, y, x - 1, y - 1);
    lemma_dilated_near(mask, width, height, x, y, x, y - 1);
    lemma_dilated_near(mask, width, height, x, y, x + 1, y - 1);
    lemma_dilated_near(mask, width, height, x, y, x - 1, y);
    lemma_dilated_near(mask, width, height, x, y, x, y);
    lemma_dilated_near(mask, width, height, x, y, x + 1, y);
    lemma_dilated_near(mask, width, height, x, y, x - 1, y + 1);
    lemma_dilated_near(mask, width, height, x, y, x, y + 1);
    lemma_dilated_near(mask, width, height, x, y, x + 1, y + 1);
    assert(neighborhood_all(d, width, height, x, y));
}

/// Pixels of one 4-connected foreground component, as (`x`, `y`) pairs.
#[derive(Clone, Debug)]
pub struct Component {
    /// Member pixels; the first is the component's lowest row-major index.
    pub pixels: Vec<(u32, u32)>,
}

/// Row-major index of pixel `p` in a frame `width` pixels wide.
pub open spec fn pixel_index(p: (u32, u32), width: int) -> int {
    p.1 * width + p.0
}

/// Indices `a` and `b` of a `width` x `height` frame are 4-neighbours (share an edge).
pub open spec fn adjacent(width: int, height: int, a: int, b: int) -> bool {
    &&& 0 <= a < width * height
    &&& 0 <= b < width * height
    &&& {
        ||| b == a + 1 && b % width != 0
        ||| a == b + 1 && a % width != 0
        ||| b == a + width
        ||| a == b + width
    }
}

/// `path` walks through foreground pixels, each step to a 4-neighbour.
pub open spec fn is_foreground_path(mask: Seq<bool>, width: int, height: int, path: Seq<int>) -> bool {
    &&& path.len() >= 1
    &&& forall|k: int| 0 <= k < path.len() ==> 0 <= #[trigger] path[k] < mask.len() && mask[path[k]]
    &&& forall|k: int| 0 <= k < path.len() - 1 ==> adjacent(width, height, #[trigger] path[k], path[k + 1])
}

/// Foreground pixels `a` and `b` are joined by a 4-connected foreground path.
pub open spec fn linked(mask: Seq<bool>, width: int, height: int, a: int, b: int) -> bool {
    exists|path: Seq<int>|
        #[trigger] is_foreground_path(mask, width, height, path) && path[0] == a && path.last() == b
}

/// The pixel lists of `components`.
pub open spec fn component_pixels(components: Seq<Component>) -> Seq<Seq<(u32, u32)>> {
    components.map_values(|c: Component| c.pixels@)
}

/// `parts` lists the 4-connected foreground components of `mask`: every member is a
/// foreground pixel of the frame, every foreground pixel belongs to exactly one part
/// (once), parts are closed under foreground 4-adjacency, every member is linked to the
/// part's first pixel, which is its lowest index, and parts come in increasing order of
/// that first pixel.
pub open spec fn is_component_partition(mask: Seq<bool>, width: int, height: int, parts: Seq<Seq<(u32, u32)>>) -> bool {
    &&& forall|k: int| 0 <= k < parts.len() ==> #[trigger] parts[k].len() >= 1
    &&& forall|k: int, j: int|
        0 <= k < parts.len() && 0 <= j < parts[k].len() ==> {
            let p = #[trigger] parts[k][j];
            &&& p.0 < width
            &&& p.1 < height
            &&& mask[pixel_index(p, width)]
            &&& pixel_index(parts[k][0], width) <= pixel_index(p, width)
            &&& linked(mask, width, height, pixel_index(parts[k][0], width), pixel_index(p, width))
        }
    &&& forall|i: int|
        0 <= i < width * height && #[trigger] mask[i] ==> exists|k: int, j: int|
            0 <= k < parts.len() && 0 <= j < parts[k].len() && pixel_index(#[trigger] parts[k][j], width) == i
    &&& forall|k1: int, j1: int, k2: int, j2: int|
        0 <= k1 < parts.len() && 0 <= j1 < parts[k1].len() && 0 <= k2 < parts.len() && 0 <= j2 < parts[k2].len()
            && pixel_index(#[trigger] parts[k1][j1], width) == pixel_index(#[trigger] parts[k2][j2], width) ==> k1 == k2
            && j1 == j2
    &&& forall|k: int, j: int, q: int|
        0 <= k < parts.len() && 0 <= j < parts[k].len() && adjacent(width, height, pixel_index(#[trigger] parts[k][j], width), q)
            && #[trigger] mask[q] ==> exists|j2: int| 0 <= j2 < parts[k].len() && pixel_index(#[trigger] parts[k][j2], width) == q
    &&& forall|k1: int, k2: int|
        0 <= k1 < k2 < parts.len() ==> pixel_index(#[trigger] parts[k1][0], width) < pixel_index(#[trigger] parts[k2][0], width)
}

/// Marks and pushes, in order, those of the first `k` candidates that are foreground
/// pixels not yet seen.
pub open spec fn push_unseen(mask: Seq<bool>, seen: Set<int>, stack: Seq<int>, candidates: Seq<int>, k: int) -> (
    Set<int>,
    Seq<int>,
)
    decreases k,
{
    if k <= 0 {
        (seen, stack)
    } else {
        let (marked, pushed) = push_unseen(mask, seen, stack, candidates, k - 1);
        let q = candidates[k - 1];
        if mask[q] && !marked.contains(q) {
            (marked.insert(q), pushed.push(q))
        } else {
            (marked, pushed)
        }
    }
}

/// The depth-first flood fill from `start` after `steps` pixels were taken from its stack:
/// the pixels seen, the stack, and the pixels taken, in order. Each step takes the top of
/// the stack and pushes its unseen foreground neighbours in `neighbor_order`.
pub open spec fn search_after(mask: Seq<bool>, width: int, height: int, start: int, steps: nat) -> (
    Set<int>,
    Seq<int>,
    Seq<int>,
)
    decreases steps,
{
    if steps == 0 {
        (set![start], seq![start], Seq::empty())
    } else {
        let (seen, stack, taken) = search_after(mask, width, height, start, (steps - 1) as nat);
        if stack.len() == 0 {
            (seen, stack, taken)
        } else {
            let top = stack.last();
            let candidates = neighbor_order(width, height, top);
            let (marked, pushed) = push_unseen(mask, seen, stack.drop_last(), candidates, candidates.len() as int);
            (marked, pushed, taken.push(top))
        }
    }
}

/// Each part lists its pixels in the order of the depth-first flood fill from its first
/// pixel, which has ended with an empty stack after taking exactly those pixels.
pub open spec fn in_search_order(mask: Seq<bool>, width: int, height: int, parts: Seq<Seq<(u32, u32)>>) -> bool {
    forall|k: int|
        0 <= k < parts.len() ==> {
            let run = #[trigger] search_after(mask, width, height, pixel_index(parts[k][0], width), parts[k].len());
            &&& run.1.len() == 0
            &&& run.2.len() == parts[k].len()
            &&& forall|j: int| 0 <= j < parts[k].len() ==> pixel_index(#[trigger] parts[k][j], width) == run.2[j]
        }
}

/// The stack entries as integers.
pub open spec fn stack_ints(stack: Seq<usize>) -> Seq<int> {
    stack.map_values(|v: usize| v as int)
}

/// The frame indices of `pixels`, in order.
pub open spec fn taken_indices(pixels: Seq<(u32, u32)>, width: int) -> Seq<int> {
    pixels.map_values(|p: (u32, u32)| pixel_index(p, width))
}

/// Number of unset entries of `s`.
pub open spec fn count_unset(s: Seq<bool>) -> nat
    decreases s.len(),
{
    if s.len() == 0 {
        0
    } else {
        count_unset(s.drop_last()) + if s.last() {
            0nat
        } else {
            1nat
        }
    }
}

/// Setting an unset entry lowers the number of unset entries by one.
proof fn lemma_count_unset_set(s: Seq<bool>, i: int)
    requires
        0 <= i < s.len(),
        !s[i],
    ensures
        count_unset(s.update(i, true)) + 1 == count_unset(s),
    decreases s.len(),
{
    if i == s.len() - 1 {
        assert(s.update(i, true).drop_last() =~= s.drop_last());
    } else {
        assert(s.update(i, true).drop_last() =~= s.drop_last().update(i, true));
        lemma_count_unset_set(s.drop_last(), i);
    }
}

/// A foreground pixel is linked to itself.
proof fn lemma_link_self(mask: Seq<bool>, width: int, height: int, a: int)
    requires
        0 <= a < mask.len(),
        mask[a],
    ensures
        linked(mask, width, height, a, a),
{
    let path = seq![a];
    assert(is_foreground_path(mask, width, height, path));
}

/// A link extends by one step to a foreground 4-neighbour.
proof fn lemma_link_extend(mask: Seq<bool>, width: int, height: int, a: int, b: int, q: int)
    requires
        linked(mask, width, height, a, b),
        adjacent(width, height, b, q),
        0 <= q < mask.len(),
        mask[q],
    ensures
        linked(mask, width, height, a, q),
{
    let path = choose|path: Seq<int>|
        #[trigger] is_foreground_path(mask, width, height, path) && path[0] == a && path.last() == b;
    let longer = path.push(q);
    assert forall|k: int| 0 <= k < longer.len() - 1 implies adjacent(width, height, #[trigger] longer[k], longer[k + 1]) by {
        if k < path.len() - 1 {
            assert(longer[k] == path[k] && longer[k + 1] == path[k + 1]);
        }
    }
    assert(is_foreground_path(mask, width, height, longer));
}

/// The in-frame 4-neighbours of `index` in the order right, left, below, above.
pub open spec fn neighbor_order(width: int, height: int, index: int) -> Seq<int> {
    let x = index % width;
    let y = index / width;
    let right = if x + 1 < width { seq![index + 1] } else { Seq::<int>::empty() };
    let left = if x > 0 { seq![index - 1] } else { Seq::<int>::empty() };
    let below = if y + 1 < height { seq![index + width] } else { Seq::<int>::empty() };
    let above = if y > 0 { seq![index - width] } else { Seq::<int>::empty() };
    right + left + below + above
}

/// In-frame 4-neighbours of `index`, in the order right, left, down, up.
fn grid_neighbors(index: usize, width: u32, height: u32) -> (neighbors: Vec<usize>)
    requires
        index < width * height,
        width * height <= usize::MAX,
    ensures
        neighbors@.len() <= 4,
        neighbors@.len() == neighbor_order(width as int, height as int, index as int).len(),
        forall|k: int|
            0 <= k < neighbors@.len() ==> #[trigger] neighbors@[k] as int == neighbor_order(
                width as int,
                height as int,
                index as int,
            )[k],
        forall|k: int| 0 <= k < neighbors@.len() ==> adjacent(width as int, height as int, index as int, #[trigger] neighbors@[k] as int),
        forall|q: int| #[trigger] adjacent(width as int, height as int, index as int, q) ==> exists|k: int|
            0 <= k < neighbors@.len() && neighbors@[k] == q,
{
    let ghost w = width as int;
    let ghost h = height as int;
    let ghost i = index as int;
    let w_us = width as usize;
    proof {
        assert(w > 0) by (nonlinear_arith)
            requires
                i < w * h,
                0 <= i,
                w >= 0,
                h >= 0,
        ;
        lemma_fundamental_div_mod(i, w);
        assert(i / w * w == w * (i / w)) by (nonlinear_arith);
        assert(0 <= i / w < h) by (nonlinear_arith)
            requires
                0 <= i < w * h,
                w > 0,
        ;
    }
    let x = index % w_us;
    let y = index / w_us;
    proof {
        lemma_index_split(w, h, x as int, y as int);
    }
    let mut neighbors: Vec<usize> = Vec::new();
    let ghost mut order: Seq<int> = Seq::empty();
    let ghost mut right: int = -1;
    let ghost mut left: int = -1;
    let ghost mut down: int = -1;
    let ghost mut up: int = -1;
    if x + 1 < w_us {
        proof {
            lemma_index_split(w, h, x + 1, y as int);
            right = neighbors@.len() as int;
            order = order + seq![i + 1];
        }
        neighbors.push(index + 1);
        proof {
            assert(forall|k: int| 0 <= k < neighbors@.len() ==> neighbors@[k] as int == order[k]);
        }
    } else {
        proof {
            assert((y + 1) * w == y * w + w) by (nonlinear_arith);
            lemma_fundamental_div_mod_converse(i + 1, w, y + 1, 0);
        }
    }
    if x > 0 {
        proof {
            left = neighbors@.len() as int;
            order = order + seq![i - 1];
        }
        neighbors.push(index - 1);
        proof {
            assert(forall|k: int| 0 <= k < neighbors@.len() ==> neighbors@[k] as int == order[k]);
        }
    }
    if y + 1 < height as usize {
        proof {
            lemma_index_split(w, h, x as int, y + 1);
            assert((y + 1) * w + x == i + w) by (nonlinear_arith)
                requires
                    i == y * w + x,
            ;
            down = neighbors@.len() as int;
            order = order + seq![i + w];
        }
        neighbors.push(index + w_us);
        proof {
            assert(forall|k: int| 0 <= k < neighbors@.len() ==> neighbors@[k] as int == order[k]);
        }
    } else {
        proof {
            assert(i + w >= w * h) by (nonlinear_arith)
                requires
                    i == y * w + x,
                    y + 1 >= h,
                    x >= 0,
                    w > 0,
            ;
        }
    }
    if y > 0 {
        proof {
            assert(i >= w) by (nonlinear_arith)
                requires
                    i == y * w + x,
                    y >= 1,
                    x >= 0,
                    w > 0,
            ;
            up = neighbors@.len() as int;
            order = order + seq![i - w];
        }
        neighbors.push(index - w_us);
        proof {
            assert(forall|k: int| 0 <= k < neighbors@.len() ==> neighbors@[k] as int == order[k]);
        }
    } else {
        assert(i < w);
    }
    proof {
        assert(order =~= neighbor_order(w, h, i));
        assert forall|q: int| #[trigger] adjacent(w, h, i, q) implies exists|k: int|
            0 <= k < neighbors@.len() && neighbors@[k] == q by {
            if q == i + 1 && q % w != 0 {
                assert(neighbors@[right] == q);
            } else if i == q + 1 && i % w != 0 {
                assert(neighbors@[left] == q);
            } else if q == i + w {
                assert(neighbors@[down] == q);
            } else {
                assert(neighbors@[up] == q);
            }
        }
    }
    neighbors
}

/// Search marks: visited entries are foreground and name a part below `limit`.
spec fn marks_ok(mask: Seq<bool>, visited: Seq<bool>, comp_of: Seq<int>, limit: int) -> bool {
    &&& visited.len() == mask.len()
    &&& comp_of.len() == mask.len()
    &&& forall|i: int| 0 <= i < mask.len() && #[trigger] visited[i] ==> mask[i] && 0 <= comp_of[i] < limit
}

/// The parts found so far are complete, disjoint, closed, linked and ordered.
spec fn finished_ok(
    mask: Seq<bool>,
    width: int,
    height: int,
    visited: Seq<bool>,
    comp_of: Seq<int>,
    parts: Seq<Seq<(u32, u32)>>,
) -> bool {
    let c = parts.len() as int;
    &&& forall|k: int| 0 <= k < c ==> #[trigger] parts[k].len() >= 1
    &&& forall|k: int, j: int|
        0 <= k < c && 0 <= j < parts[k].len() ==> {
            let p = #[trigger] parts[k][j];
            let i = pixel_index(p, width);
            &&& p.0 < width
            &&& p.1 < height
            &&& 0 <= i < mask.len()
            &&& visited[i]
            &&& comp_of[i] == k
            &&& pixel_index(parts[k][0], width) <= i
            &&& linked(mask, width, height, pixel_index(parts[k][0], width), i)
        }
    &&& forall|i: int|
        0 <= i < mask.len() && #[trigger] visited[i] && comp_of[i] < c ==> exists|j: int|
            0 <= j < parts[comp_of[i]].len() && pixel_index(#[trigger] parts[comp_of[i]][j], width) == i
    &&& forall|k: int, j1: int, j2: int|
        0 <= k < c && 0 <= j1 < parts[k].len() && 0 <= j2 < parts[k].len() && pixel_index(
            #[trigger] parts[k][j1],
            width,
        ) == pixel_index(#[trigger] parts[k][j2], width) ==> j1 == j2
    &&& forall|i: int, q: int|
        #![trigger adjacent(width, height, i, q)]
        0 <= i < mask.len() && visited[i] && comp_of[i] < c && adjacent(width, height, i, q) && mask[q] ==> visited[q]
            && comp_of[q] == comp_of[i]
    &&& forall|k1: int, k2: int|
        0 <= k1 < k2 < c ==> pixel_index(#[trigger] parts[k1][0], width) < pixel_index(#[trigger] parts[k2][0], width)
}

/// The part being flooded from `start`: what is on the stack or already collected.
spec fn current_ok(
    mask: Seq<bool>,
    width: int,
    height: int,
    visited: Seq<bool>,
    comp_of: Seq<int>,
    c: int,
    start: int,
    pixels: Seq<(u32, u32)>,
    stack: Seq<usize>,
) -> bool {
    &&& 0 <= start < mask.len()
    &&& visited[start]
    &&& comp_of[start] == c
    &&& forall|s: int|
        0 <= s < stack.len() ==> {
            let v = #[trigger] stack[s] as int;
            0 <= v < mask.len() && visited[v] && comp_of[v] == c
        }
    &&& forall|s1: int, s2: int| 0 <= s1 < stack.len() && 0 <= s2 < stack.len() && #[trigger] stack[s1] == #[trigger] stack[s2] ==> s1 == s2
    &&& forall|j: int|
        0 <= j < pixels.len() ==> {
            let p = #[trigger] pixels[j];
            let i = pixel_index(p, width);
            p.0 < width && p.1 < height && 0 <= i < mask.len() && visited[i] && comp_of[i] == c
        }
    &&& forall|j1: int, j2: int|
        0 <= j1 < pixels.len() && 0 <= j2 < pixels.len() && pixel_index(#[trigger] pixels[j1], width) == pixel_index(
            #[trigger] pixels[j2],
            width,
        ) ==> j1 == j2
    &&& forall|s: int, j: int|
        0 <= s < stack.len() && 0 <= j < pixels.len() ==> #[trigger] stack[s] as int != pixel_index(#[trigger] pixels[j], width)
    &&& forall|i: int|
        0 <= i < mask.len() && #[trigger] visited[i] && comp_of[i] == c ==> (exists|s: int|
            0 <= s < stack.len() && #[trigger] stack[s] as int == i) || (exists|j: int|
            0 <= j < pixels.len() && pixel_index(#[trigger] pixels[j], width) == i)
    &&& forall|i: int|
        0 <= i < mask.len() && #[trigger] visited[i] && comp_of[i] == c ==> start <= i && linked(mask, width, height, start, i)
    &&& pixels.len() > 0 ==> pixel_index(pixels[0], width) == start
    &&& pixels.len() == 0 ==> stack == seq![start as usize]
}

/// Every foreground 4-neighbour of the first `upto` collected pixels is marked for part `c`.
spec fn current_closed(
    mask: Seq<bool>,
    width: int,
    height: int,
    visited: Seq<bool>,
    comp_of: Seq<int>,
    c: int,
    pixels: Seq<(u32, u32)>,
    upto: int,
) -> bool {
    forall|j: int, q: int|
        #![trigger adjacent(width, height, pixel_index(pixels[j], width), q)]
        0 <= j < upto && adjacent(width, height, pixel_index(pixels[j], width), q) && mask[q] ==> visited[q]
            && comp_of[q] == c
}

/// Popping the top of the stack into the collected pixels keeps the flood state.
proof fn lemma_collect_top(
    mask: Seq<bool>,
    width: int,
    height: int,
    visited: Seq<bool>,
    comp_of: Seq<int>,
    c: int,
    start: int,
    pixels: Seq<(u32, u32)>,
    stack: Seq<usize>,
    p: (u32, u32),
)
    requires
        current_ok(mask, width, height, visited, comp_of, c, start, pixels, stack),
        current_closed(mask, width, height, visited, comp_of, c, pixels, pixels.len() as int),
        stack.len() >= 1,
        p.0 < width,
        p.1 < height,
        pixel_index(p, width) == stack.last(),
    ensures
        current_ok(mask, width, height, visited, comp_of, c, start, pixels.push(p), stack.drop_last()),
        current_closed(mask, width, height, visited, comp_of, c, pixels.push(p), pixels.len() as int),
{
    let top = stack.last() as int;
    let rest = stack.drop_last();
    let grown = pixels.push(p);
    assert(stack[stack.len() - 1] as int == top);
    assert forall|s: int| 0 <= s < rest.len() implies #[trigger] rest[s] as int != top by {
        assert(rest[s] == stack[s]);
    }
    assert forall|j1: int, j2: int|
        0 <= j1 < grown.len() && 0 <= j2 < grown.len() && pixel_index(#[trigger] grown[j1], width) == pixel_index(
            #[trigger] grown[j2],
            width,
        ) implies j1 == j2 by {
        if j1 < pixels.len() {
            assert(grown[j1] == pixels[j1]);
            assert(stack[stack.len() - 1] as int != pixel_index(pixels[j1], width));
        }
        if j2 < pixels.len() {
            assert(grown[j2] == pixels[j2]);
            assert(stack[stack.len() - 1] as int != pixel_index(pixels[j2], width));
        }
    }
    assert forall|s: int, j: int| 0 <= s < rest.len() && 0 <= j < grown.len() implies #[trigger] rest[s] as int
        != pixel_index(#[trigger] grown[j], width) by {
        assert(rest[s] == stack[s]);
        if j < pixels.len() {
            assert(grown[j] == pixels[j]);
        } else {
            assert(stack[s] != stack[stack.len() - 1]);
        }
    }
    assert forall|i: int| 0 <= i < mask.len() && #[trigger] visited[i] && comp_of[i] == c implies (exists|s: int|
        0 <= s < rest.len() && #[trigger] rest[s] as int == i) || (exists|j: int|
        0 <= j < grown.len() && pixel_index(#[trigger] grown[j], width) == i) by {
        if exists|j: int| 0 <= j < pixels.len() && pixel_index(#[trigger] pixels[j], width) == i {
            let j = choose|j: int| 0 <= j < pixels.len() && pixel_index(#[trigger] pixels[j], width) == i;
            assert(grown[j] == pixels[j]);
        } else {
            let s = choose|s: int| 0 <= s < stack.len() && #[trigger] stack[s] as int == i;
            if s == stack.len() - 1 {
                assert(grown[pixels.len() as int] == p);
            } else {
                assert(rest[s] == stack[s]);
            }
        }
    }
    if pixels.len() == 0 {
        assert(stack == seq![start as usize]);
        assert(grown[0] == p);
    } else {
        assert(grown[0] == pixels[0]);
    }
    assert forall|j: int, q: int|
        #![trigger adjacent(width, height, pixel_index(grown[j], width), q)]
        0 <= j < pixels.len() && adjacent(width, height, pixel_index(grown[j], width), q) && mask[q] implies visited[q]
        && comp_of[q] == c by {
        assert(grown[j] == pixels[j]);
        assert(adjacent(width, height, pixel_index(pixels[j], width), q));
    }
}

/// Marking an unvisited foreground pixel for the part in progress keeps the finished parts.
proof fn lemma_mark_keeps_finished(
    mask: Seq<bool>,
    width: int,
    height: int,
    visited: Seq<bool>,
    comp_of: Seq<int>,
    parts: Seq<Seq<(u32, u32)>>,
    q: int,
)
    requires
        mask.len() == width * height,
        marks_ok(mask, visited, comp_of, parts.len() as int + 1),
        finished_ok(mask, width, height, visited, comp_of, parts),
        0 <= q < mask.len(),
        mask[q],
        !visited[q],
    ensures
        marks_ok(mask, visited.update(q, true), comp_of.update(q, parts.len() as int), parts.len() as int + 1),
        finished_ok(mask, width, height, visited.update(q, true), comp_of.update(q, parts.len() as int), parts),
{
    let c = parts.len() as int;
    let v2 = visited.update(q, true);
    let o2 = comp_of.update(q, c);
    assert forall|k: int, j: int| 0 <= k < c && 0 <= j < parts[k].len() implies pixel_index(#[trigger] parts[k][j], width)
        != q by {
        assert(visited[pixel_index(parts[k][j], width)]);
    }
    assert forall|i: int|
        0 <= i < mask.len() && #[trigger] v2[i] && o2[i] < c implies exists|j: int|
        0 <= j < parts[o2[i]].len() && pixel_index(#[trigger] parts[o2[i]][j], width) == i by {
        assert(i != q);
        assert(visited[i] && comp_of[i] < c);
    }
    assert forall|i: int, r: int|
        #![trigger adjacent(width, height, i, r)]
        0 <= i < mask.len() && v2[i] && o2[i] < c && adjacent(width, height, i, r) && mask[r] implies v2[r]
        && o2[r] == o2[i] by {
        assert(i != q);
        assert(visited[i] && comp_of[i] < c);
        assert(visited[r] && comp_of[r] == comp_of[i]);
        assert(r != q);
    }
}

/// Marking an unvisited foreground pixel linked to the seed and pushing it keeps the
/// part in progress consistent.
proof fn lemma_mark_keeps_current(
    mask: Seq<bool>,
    width: int,
    height: int,
    visited: Seq<bool>,
    comp_of: Seq<int>,
    c: int,
    start: int,
    pixels: Seq<(u32, u32)>,
    stack: Seq<usize>,
    upto: int,
    q: usize,
)
    requires
        mask.len() == width * height,
        current_ok(mask, width, height, visited, comp_of, c, start, pixels, stack),
        current_closed(mask, width, height, visited, comp_of, c, pixels, upto),
        pixels.len() >= 1,
        q < mask.len(),
        comp_of.len() == mask.len(),
        visited.len() == mask.len(),
        mask[q as int],
        !visited[q as int],
        linked(mask, width, height, start, q as int),
        forall|i: int| 0 <= i < start && #[trigger] mask[i] ==> visited[i],
    ensures
        current_ok(
            mask,
            width,
            height,
            visited.update(q as int, true),
            comp_of.update(q as int, c),
            c,
            start,
            pixels,
            stack.push(q),
        ),
        current_closed(mask, width, height, visited.update(q as int, true), comp_of.update(q as int, c), c, pixels, upto),
{
    let v2 = visited.update(q as int, true);
    let o2 = comp_of.update(q as int, c);
    let s2 = stack.push(q);
    let qi = q as int;
    assert forall|s: int| 0 <= s < s2.len() implies {
        let v = #[trigger] s2[s] as int;
        0 <= v < mask.len() && v2[v] && o2[v] == c
    } by {
        if s < stack.len() {
            assert(s2[s] == stack[s]);
        }
    }
    assert forall|s1: int, t: int| 0 <= s1 < s2.len() && 0 <= t < s2.len() && #[trigger] s2[s1] == #[trigger] s2[t] implies s1
        == t by {
        if s1 < stack.len() {
            assert(s2[s1] == stack[s1]);
            assert(visited[stack[s1] as int]);
        }
        if t < stack.len() {
            assert(s2[t] == stack[t]);
            assert(visited[stack[t] as int]);
        }
    }
    assert forall|j: int| 0 <= j < pixels.len() implies {
        let p = #[trigger] pixels[j];
        let i = pixel_index(p, width);
        p.0 < width && p.1 < height && 0 <= i < mask.len() && v2[i] && o2[i] == c
    } by {
        assert(visited[pixel_index(pixels[j], width)]);
    }
    assert forall|s: int, j: int| 0 <= s < s2.len() && 0 <= j < pixels.len() implies #[trigger] s2[s] as int != pixel_index(
        #[trigger] pixels[j],
        width,
    ) by {
        if s < stack.len() {
            assert(s2[s] == stack[s]);
        } else {
            assert(visited[pixel_index(pixels[j], width)]);
        }
    }
    assert forall|i: int| 0 <= i < mask.len() && #[trigger] v2[i] && o2[i] == c implies (exists|s: int|
        0 <= s < s2.len() && #[trigger] s2[s] as int == i) || (exists|j: int|
        0 <= j < pixels.len() && pixel_index(#[trigger] pixels[j], width) == i) by {
        if i == qi {
            assert(s2[stack.len() as int] == q);
        } else {
            assert(visited[i] && comp_of[i] == c);
            if exists|s: int| 0 <= s < stack.len() && #[trigger] stack[s] as int == i {
                let s = choose|s: int| 0 <= s < stack.len() && #[trigger] stack[s] as int == i;
                assert(s2[s] == stack[s]);
            }
        }
    }
    assert forall|i: int| 0 <= i < mask.len() && #[trigger] v2[i] && o2[i] == c implies start <= i && linked(
        mask,
        width,
        height,
        start,
        i,
    ) by {
        if i == qi {
            if qi < start {
                assert(visited[qi]);
            }
        } else {
            assert(visited[i] && comp_of[i] == c);
        }
    }
    assert forall|j: int, r: int|
        #![trigger adjacent(width, height, pixel_index(pixels[j], width), r)]
        0 <= j < upto && adjacent(width, height, pixel_index(pixels[j], width), r) && mask[r] implies v2[r] && o2[r]
        == c by {
        assert(visited[r] && comp_of[r] == c);
    }
}

/// A flood whose stack has emptied yields a finished part.
proof fn lemma_finish_part(
    mask: Seq<bool>,
    width: int,
    height: int,
    visited: Seq<bool>,
    comp_of: Seq<int>,
    parts: Seq<Seq<(u32, u32)>>,
    start: int,
    pixels: Seq<(u32, u32)>,
)
    requires
        marks_ok(mask, visited, comp_of, parts.len() as int + 1),
        finished_ok(mask, width, height, visited, comp_of, parts),
        current_ok(mask, width, height, visited, comp_of, parts.len() as int, start, pixels, Seq::<usize>::empty()),
        current_closed(mask, width, height, visited, comp_of, parts.len() as int, pixels, pixels.len() as int),
        forall|k: int| 0 <= k < parts.len() ==> pixel_index(#[trigger] parts[k][0], width) < start,
    ensures
        marks_ok(mask, visited, comp_of, parts.len() as int + 1),
        finished_ok(mask, width, height, visited, comp_of, parts.push(pixels)),
        forall|k: int| 0 <= k < parts.len() + 1 ==> pixel_index(#[trigger] parts.push(pixels)[k][0], width) < start + 1,
{
    let c = parts.len() as int;
    let all = parts.push(pixels);
    assert(pixels.len() >= 1);
    assert(all[c] == pixels);
    assert forall|k: int| 0 <= k < c implies #[trigger] all[k] == parts[k] by {}
    assert forall|k: int, j: int| 0 <= k < c + 1 && 0 <= j < all[k].len() implies {
        let p = #[trigger] all[k][j];
        let i = pixel_index(p, width);
        &&& p.0 < width
        &&& p.1 < height
        &&& 0 <= i < mask.len()
        &&& visited[i]
        &&& comp_of[i] == k
        &&& pixel_index(all[k][0], width) <= i
        &&& linked(mask, width, height, pixel_index(all[k][0], width), i)
    } by {
        if k < c {
            assert(all[k] == parts[k]);
            assert(parts[k][j] == all[k][j]);
        } else {
            assert(all[k][j] == pixels[j]);
            let i = pixel_index(pixels[j], width);
            assert(visited[i] && comp_of[i] == c);
        }
    }
    assert forall|i: int| 0 <= i < mask.len() && #[trigger] visited[i] && comp_of[i] < c + 1 implies exists|j: int|
        0 <= j < all[comp_of[i]].len() && pixel_index(#[trigger] all[comp_of[i]][j], width) == i by {
        if comp_of[i] < c {
            let j = choose|j: int|
                0 <= j < parts[comp_of[i]].len() && pixel_index(#[trigger] parts[comp_of[i]][j], width) == i;
            assert(all[comp_of[i]][j] == parts[comp_of[i]][j]);
        } else {
            let j = choose|j: int| 0 <= j < pixels.len() && pixel_index(#[trigger] pixels[j], width) == i;
            assert(all[comp_of[i]][j] == pixels[j]);
        }
    }
    assert forall|k: int, j1: int, j2: int|
        0 <= k < c + 1 && 0 <= j1 < all[k].len() && 0 <= j2 < all[k].len() && pixel_index(#[trigger] all[k][j1], width)
            == pixel_index(#[trigger] all[k][j2], width) implies j1 == j2 by {
        if k < c {
            assert(all[k][j1] == parts[k][j1] && all[k][j2] == parts[k][j2]);
        } else {
            assert(all[k][j1] == pixels[j1] && all[k][j2] == pixels[j2]);
        }
    }
    assert forall|i: int, q: int|
        #![trigger adjacent(width, height, i, q)]
        0 <= i < mask.len() && visited[i] && comp_of[i] < c + 1 && adjacent(width, height, i, q) && mask[q] implies visited[q]
        && comp_of[q] == comp_of[i] by {
        if comp_of[i] == c {
            let j = choose|j: int| 0 <= j < pixels.len() && pixel_index(#[trigger] pixels[j], width) == i;
            assert(adjacent(width, height, pixel_index(pixels[j], width), q));
        }
    }
    assert forall|k1: int, k2: int| 0 <= k1 < k2 < c + 1 implies pixel_index(#[trigger] all[k1][0], width) < pixel_index(
        #[trigger] all[k2][0],
        width,
    ) by {
        assert(all[k1] == parts[k1]);
        if k2 < c {
            assert(all[k2] == parts[k2]);
        }
    }
    assert forall|k: int| 0 <= k < c + 1 implies pixel_index(#[trigger] all[k][0], width) < start + 1 by {
        if k < c {
            assert(all[k] == parts[k]);
        }
    }
}

/// Splits `mask` into its 4-connected foreground components by depth-first flood fill,
/// scanning seeds in row-major order.
pub fn connected_components(mask: &[bool], width: u32, height: u32) -> (components: Vec<Component>)
    requires
        mask@.len() == width * height,
    ensures
        is_component_partition(mask@, width as int, height as int, component_pixels(components@)),
        in_search_order(mask@, width as int, height as int, component_pixels(components@)),
{
    let ghost w = width as int;
    let ghost h = height as int;
    let ghost m = mask@;
    let n = mask.len();
    let w_us = width as usize;
    let mut visited: Vec<bool> = vec![false; n];
    let mut components: Vec<Component> = Vec::new();
    let ghost mut comp_of: Seq<int> = Seq::new(n as nat, |i: int| 0int);
    proof {
        assert(visited@ =~= Seq::new(n as nat, |i: int| false));
        assert(component_pixels(components@) =~= Seq::<Seq<(u32, u32)>>::empty());
    }
    let mut start: usize = 0;
    while start < n
        invariant
            m == mask@,
            n == m.len(),
            n == w * h,
            w == width,
            h == height,
            w_us == width,
            start <= n,
            marks_ok(m, visited@, comp_of, components@.len() as int),
            finished_ok(m, w, h, visited@, comp_of, component_pixels(components@)),
            forall|i: int| 0 <= i < start && #[trigger] m[i] ==> visited@[i],
            forall|k: int|
                0 <= k < components@.len() ==> pixel_index(#[trigger] component_pixels(components@)[k][0], w) < start,
            in_search_order(m, w, h, component_pixels(components@)),
        decreases n - start,
    {
        if !visited[start] && mask[start] {
            let ghost c = components@.len() as int;
            let ghost parts = component_pixels(components@);
            let mut pixels: Vec<(u32, u32)> = Vec::new();
            let mut stack: Vec<usize> = vec![start];
            visited.set(start, true);
            let ghost mut seen: Set<int> = set![start as int];
            proof {
                comp_of = comp_of.update(start as int, c);
                lemma_link_self(m, w, h, start as int);
                assert(stack@ =~= seq![start]);
                assert(stack_ints(stack@) =~= seq![start as int]);
                assert(taken_indices(pixels@, w) =~= Seq::<int>::empty());
            }
            while stack.len() > 0
                invariant
                    m == mask@,
                    n == m.len(),
                    n == w * h,
                    w == width,
                    h == height,
                    w_us == width,
                    start < n,
                    c == components@.len(),
                    parts == component_pixels(components@),
                    marks_ok(m, visited@, comp_of, c + 1),
                    finished_ok(m, w, h, visited@, comp_of, parts),
                    forall|i: int| 0 <= i < start && #[trigger] m[i] ==> visited@[i] && comp_of[i] < c,
                    forall|k: int| 0 <= k < c ==> pixel_index(#[trigger] parts[k][0], w) < start,
                    current_ok(m, w, h, visited@, comp_of, c, start as int, pixels@, stack@),
                    current_closed(m, w, h, visited@, comp_of, c, pixels@, pixels@.len() as int),
                    search_after(m, w, h, start as int, pixels@.len()) == (seen, stack_ints(stack@), taken_indices(pixels@, w)),
                    forall|i: int| #[trigger] seen.contains(i) <==> (0 <= i < n && visited@[i] && comp_of[i] == c),
                    in_search_order(m, w, h, parts),
                decreases 2 * count_unset(visited@) + stack@.len(),
            {
                let ghost bound = 2 * count_unset(visited@) + stack@.len() - 1;
                let ghost old_stack = stack@;
                let ghost seen0 = seen;
                let ghost taken0 = taken_indices(pixels@, w);
                let index = stack.pop().unwrap();
                let ghost rest = stack_ints(stack@);
                proof {
                    assert(stack_ints(old_stack) =~= rest.push(index as int));
                }
                let x = index % w_us;
                let y = index / w_us;
                proof {
                    assert(w > 0) by (nonlinear_arith)
                        requires
                            index < w * h,
                            w >= 0,
                            h >= 0,
                    ;
                    let ii = index as int;
                    lemma_fundamental_div_mod(ii, w);
                    assert(ii / w * w == w * (ii / w)) by (nonlinear_arith);
                    assert(0 <= ii / w < h) by (nonlinear_arith)
                        requires
                            0 <= ii < w * h,
                            w > 0,
                    ;
                }
                proof {
                    lemma_collect_top(m, w, h, visited@, comp_of, c, start as int, pixels@, old_stack, (x as u32, y as u32));
                }
                pixels.push((x as u32, y as u32));
                proof {
                    assert(taken_indices(pixels@, w) =~= taken0.push(index as int));
                    assert(search_after(m, w, h, start as int, (pixels@.len() - 1) as nat) == (seen0, rest.push(index as int), taken0));
                }
                let neighbors = grid_neighbors(index, width, height);
                let ghost ns = neighbor_order(w, h, index as int);
                let mut k: usize = 0;
                while k < neighbors.len()
                    invariant
                        m == mask@,
                        n == m.len(),
                        n == w * h,
                        w == width,
                        h == height,
                        w_us == width,
                        start < n,
                        c == components@.len(),
                        parts == component_pixels(components@),
                        marks_ok(m, visited@, comp_of, c + 1),
                        finished_ok(m, w, h, visited@, comp_of, parts),
                        forall|i: int| 0 <= i < start && #[trigger] m[i] ==> visited@[i] && comp_of[i] < c,
                        forall|k: int| 0 <= k < c ==> pixel_index(#[trigger] parts[k][0], w) < start,
                        current_ok(m, w, h, visited@, comp_of, c, start as int, pixels@, stack@),
                        current_closed(m, w, h, visited@, comp_of, c, pixels@, pixels@.len() - 1),
                        pixels@.len() >= 1,
                        pixel_index(pixels@.last(), w) == index,
                        forall|k2: int| 0 <= k2 < neighbors@.len() ==> adjacent(w, h, index as int, #[trigger] neighbors@[k2] as int),
                        forall|q: int| #[trigger] adjacent(w, h, index as int, q) ==> exists|k2: int|
                            0 <= k2 < neighbors@.len() && neighbors@[k2] == q,
                        k <= neighbors@.len(),
                        forall|k2: int| 0 <= k2 < k && m[#[trigger] neighbors@[k2] as int] ==> visited@[neighbors@[k2] as int]
                            && comp_of[neighbors@[k2] as int] == c,
                        2 * count_unset(visited@) + stack@.len() <= bound,
                        ns == neighbor_order(w, h, index as int),
                        neighbors@.len() == ns.len(),
                        forall|k2: int| 0 <= k2 < neighbors@.len() ==> #[trigger] neighbors@[k2] as int == ns[k2],
                        search_after(m, w, h, start as int, (pixels@.len() - 1) as nat) == (seen0, rest.push(index as int), taken0),
                        taken_indices(pixels@, w) == taken0.push(index as int),
                        push_unseen(m, seen0, rest, ns, k as int) == (seen, stack_ints(stack@)),
                        forall|i: int| #[trigger] seen.contains(i) <==> (0 <= i < n && visited@[i] && comp_of[i] == c),
                        in_search_order(m, w, h, parts),
                    decreases neighbors@.len() - k,
                {
                    let neighbor = neighbors[k];
                    proof {
                        if m[neighbor as int] && visited@[neighbor as int] {
                            assert(adjacent(w, h, neighbor as int, index as int));
                            assert(comp_of[neighbor as int] == c);
                            assert(seen.contains(neighbor as int));
                        }
                        assert(ns[k as int] == neighbor as int);
                    }
                    if mask[neighbor] && !visited[neighbor] {
                        proof {
                            lemma_count_unset_set(visited@, neighbor as int);
                            lemma_link_extend(m, w, h, start as int, index as int, neighbor as int);
                            lemma_mark_keeps_finished(m, w, h, visited@, comp_of, parts, neighbor as int);
                            lemma_mark_keeps_current(m, w, h, visited@, comp_of, c, start as int, pixels@, stack@, pixels@.len() - 1, neighbor);
                        }
                        visited.set(neighbor, true);
                        proof {
                            comp_of = comp_of.update(neighbor as int, c);
                            seen = seen.insert(neighbor as int);
                        }
                        let ghost before_push = stack@;
                        stack.push(neighbor);
                        proof {
                            assert(stack_ints(stack@) =~= stack_ints(before_push).push(neighbor as int));
                        }
                    }
                    k = k + 1;
                }
                proof {
                    assert(rest.push(index as int).drop_last() =~= rest);
                }
            }
            proof {
                assert(stack@ =~= Seq::<usize>::empty());
                lemma_finish_part(m, w, h, visited@, comp_of, parts, start as int, pixels@);
            }
            let component = Component { pixels };
            components.push(component);
            proof {
                assert(component_pixels(components@) =~= parts.push(pixels@));
                let all = component_pixels(components@);
                assert forall|k: int| 0 <= k < all.len() implies {
                    let run = #[trigger] search_after(m, w, h, pixel_index(all[k][0], w), all[k].len());
                    &&& run.1.len() == 0
                    &&& run.2.len() == all[k].len()
                    &&& forall|j: int| 0 <= j < all[k].len() ==> pixel_index(#[trigger] all[k][j], w) == run.2[j]
                } by {
                    if k == c {
                        assert(all[k] == pixels@);
                        assert forall|j: int| 0 <= j < all[k].len() implies pixel_index(#[trigger] all[k][j], w)
                            == taken_indices(pixels@, w)[j] by {}
                    } else {
                        assert(all[k] == parts[k]);
                    }
                }
            }
        }
        start = start + 1;
    }
    components
}

/// Each sample compared against `threshold`: foreground where strictly brighter.
pub open spec fn above_threshold(samples: Seq<u8>, threshold: u8) -> Seq<bool> {
    samples.map_values(|value: u8| value > threshold)
}

/// The foreground mask of an image: empty for a uniform image, otherwise the closing of
/// the samples brighter than `threshold`.
pub open spec fn foreground_mask(m: ImageModel, threshold: u8) -> Seq<bool> {
    let samples = m.packed();
    let width = m.shape.width;
    let height = m.shape.height;
    if prefix_min(samples, samples.len() as int) == prefix_max(samples, samples.len() as int) {
        cleared((width * height) as nat)
    } else if frame_fits_i32(width, height) {
        closed(above_threshold(samples, threshold), width as int, height as int)
    } else {
        cleared(samples.len())
    }
}

/// The foreground mask is empty only for an image with one uniform value: when two samples
/// differ (and the frame's sides fit in `i32`), the mask is the 3x3 closing of the mask of
/// samples strictly brighter than `threshold`, so every pixel whose whole 3x3 neighbourhood
/// inside the frame is brighter than `threshold` is foreground. A uniform image gives a mask
/// with no foreground at all.
pub proof fn lemma_foreground_of_nonuniform_image(m: ImageModel, threshold: u8, i: int, j: int)
    requires
        m.wf(),
        0 <= i < m.packed().len(),
        0 <= j < m.packed().len(),
        m.packed()[i] != m.packed()[j],
        frame_fits_i32(m.shape.width, m.shape.height),
    ensures
        foreground_mask(m, threshold) == closed(
            Seq::new(m.packed().len(), |k: int| m.packed()[k] > threshold),
            m.shape.width as int,
            m.shape.height as int,
        ),
        forall|x: int, y: int|
            1 <= x < m.shape.width - 1 && 1 <= y < m.shape.height - 1 && m.packed().len() >= m.shape.width
                * m.shape.height && m.packed()[y * m.shape.width + x] > threshold ==> #[trigger] foreground_mask(
                m,
                threshold,
            )[y * m.shape.width + x],
{
    let samples = m.packed();
    let n = samples.len() as int;
    crate::image::operations::lemma_prefix_extrema(samples, n);
    assert(prefix_min(samples, n) <= samples[i] <= prefix_max(samples, n));
    assert(prefix_min(samples, n) <= samples[j] <= prefix_max(samples, n));
    assert(prefix_min(samples, n) != prefix_max(samples, n));
    let above = Seq::new(samples.len(), |k: int| samples[k] > threshold);
    assert(above_threshold(samples, threshold) =~= above);
    let w = m.shape.width as int;
    let h = m.shape.height as int;
    assert forall|x: int, y: int|
        1 <= x < w - 1 && 1 <= y < h - 1 && samples.len() >= w * h && samples[y * w + x] > threshold
            implies #[trigger] foreground_mask(m, threshold)[y * w + x] by {
        lemma_index_split(w, h, x, y);
        lemma_close_keeps_interior(above, w, h, x, y);
    }
}

/// A uniform image has no foreground, whatever the threshold.
pub proof fn lemma_foreground_of_uniform_image(m: ImageModel, threshold: u8)
    requires
        m.wf(),
        forall|i: int, j: int| 0 <= i < m.packed().len() && 0 <= j < m.packed().len() ==> m.packed()[i]
            == m.packed()[j],
    ensures
        forall|k: int| 0 <= k < foreground_mask(m, threshold).len() ==> !#[trigger] foreground_mask(m, threshold)[k],
{
    let samples = m.packed();
    let n = samples.len() as int;
    if n >= 1 {
        crate::image::operations::lemma_prefix_extrema(samples, n);
        let a = choose|i: int| 0 <= i < n && samples[i] == prefix_min(samples, n);
        let b = choose|i: int| 0 <= i < n && samples[i] == prefix_max(samples, n);
        assert(samples[a] == samples[b]);
    } else {
        assert(foreground_mask(m, threshold).len() == 0);
    }
}

/// Marks pixels brighter than `threshold`, closes one-pixel gaps, and reports no
/// foreground at all for a uniform image.
pub fn threshold_foreground(image: &ImageBuffer, threshold: u8) -> (result: PerceptionResult<Vec<bool>>)
    requires
        image.wf(),
        image.model().bpp() >= 1,
    ensures
        result matches Ok(mask) && mask@ == foreground_mask(image.model(), threshold),
{
    let ghost m = image.model();
    let ghost samples = m.packed();
    let ghost rl = m.row_len() as int;
    let view = image.view();
    let height = image.height();
    let width = image.width();
    proof {
        lemma_packed_len(m);
        assert(width * height <= height * rl) by (nonlinear_arith)
            requires
                rl == width * m.bpp(),
                m.bpp() >= 1,
                width >= 0,
                height >= 0,
        ;
    }
    let mut minimum: u8 = u8::MAX;
    let mut maximum: u8 = 0;
    let mut y: u32 = 0;
    while y < height
        invariant
            m == image.model(),
            m == view.model(),
            m.wf(),
            samples == m.packed(),
            rl == m.row_len(),
            height == m.shape.height,
            y <= height,
            minimum == prefix_min(samples, y * rl),
            maximum == prefix_max(samples, y * rl),
        decreases height - y,
    {
        let row = view.row(y).unwrap();
        proof {
            lemma_row_in_footprint(m, y as int);
        }
        let mut k: usize = 0;
        while k < row.len()
            invariant
                m.wf(),
                samples == m.packed(),
                rl == m.row_len(),
                y < m.shape.height,
                0 <= y * m.stride,
                y * m.stride + m.row_len() <= m.data.len(),
                row@ == m.data.subrange(y * m.stride, y * m.stride + m.row_len()),
                k <= row@.len(),
                minimum == prefix_min(samples, y * rl + k),
                maximum == prefix_max(samples, y * rl + k),
            decreases row@.len() - k,
        {
            let value = row[k];
            proof {
                lemma_packed_index(m, y as int, k as int);
                assert(samples[y * rl + k] == value);
            }
            if value < minimum {
                minimum = value;
            }
            if value > maximum {
                maximum = value;
            }
            k = k + 1;
        }
        proof {
            assert((y + 1) * rl == y * rl + rl) by (nonlinear_arith);
        }
        y = y + 1;
    }
    if minimum == maximum {
        let mask: Vec<bool> = vec![false; width as usize * height as usize];
        proof {
            assert(mask@ =~= foreground_mask(m, threshold));
        }
        return Ok(mask);
    }
    let ghost marks = above_threshold(samples, threshold);
    let mut output: Vec<bool> = Vec::new();
    let mut y: u32 = 0;
    while y < height
        invariant
            m == image.model(),
            m == view.model(),
            m.wf(),
            samples == m.packed(),
            marks == above_threshold(samples, threshold),
            rl == m.row_len(),
            height == m.shape.height,
            y <= height,
            output@ == marks.take(y * rl),
        decreases height - y,
    {
        let row = view.row(y).unwrap();
        proof {
            lemma_row_in_footprint(m, y as int);
        }
        let mut k: usize = 0;
        while k < row.len()
            invariant
                m.wf(),
                samples == m.packed(),
                marks == above_threshold(samples, threshold),
                rl == m.row_len(),
                y < m.shape.height,
                0 <= y * m.stride,
                y * m.stride + m.row_len() <= m.data.len(),
                row@ == m.data.subrange(y * m.stride, y * m.stride + m.row_len()),
                k <= row@.len(),
                output@ == marks.take(y * rl + k),
            decreases row@.len() - k,
        {
            let value = row[k];
            proof {
                lemma_packed_index(m, y as int, k as int);
                assert(samples[y * rl + k] == value);
                assert(marks.take(y * rl + k + 1) =~= marks.take(y * rl + k).push(value > threshold));
            }
            output.push(value > threshold);
            k = k + 1;
        }
        proof {
            assert((y + 1) * rl == y * rl + rl) by (nonlinear_arith);
        }
        y = y + 1;
    }
    proof {
        assert(output@ =~= marks);
    }
    Ok(close_binary(&output, width, height))
}

/// The foreground mask of a Gray8 image has one entry per pixel.
pub proof fn lemma_foreground_mask_len(m: ImageModel, threshold: u8)
    requires
        m.wf(),
        m.pixel_format == PixelFormat::Gray8,
    ensures
        foreground_mask(m, threshold).len() == m.shape.width * m.shape.height,
{
    assert(m.pixel_format.spec_bytes_per_pixel() == Some(1usize));
    assert(m.bpp() == 1);
    assert(m.shape.width * 1 == m.shape.width);
    assert(m.row_len() == m.shape.width);
    assert(m.packed().len() == m.shape.height * m.shape.width);
    assert(m.shape.height * m.shape.width == m.shape.width * m.shape.height) by (nonlinear_arith);
}

/// A pixel with at least one 4-neighbour that reads as background.
pub open spec fn is_boundary_pixel(mask: Seq<bool>, width: u32, height: u32, p: (u32, u32)) -> bool {
    let fits = frame_fits_i32(width, height);
    let w = width as int;
    let h = height as int;
    let x = p.0 as int;
    let y = p.1 as int;
    ||| !(fits && mask_at(mask, w, h, x - 1, y))
    ||| !(fits && mask_at(mask, w, h, x + 1, y))
    ||| !(fits && mask_at(mask, w, h, x, y - 1))
    ||| !(fits && mask_at(mask, w, h, x, y + 1))
}

/// The pixels of `component` that touch background through a 4-neighbour, in order.
pub fn component_boundary(mask: &[bool], width: u32, height: u32, component: &[(u32, u32)]) -> (boundary: Vec<(u32, u32)>)
    requires
        mask@.len() >= width * height,
        forall|j: int| 0 <= j < component@.len() ==> (#[trigger] component@[j]).0 < i32::MAX && component@[j].1 < i32::MAX,
    ensures
        boundary@ == component@.filter(|p: (u32, u32)| is_boundary_pixel(mask@, width, height, p)),
{
    let ghost pred = |p: (u32, u32)| is_boundary_pixel(mask@, width, height, p);
    let mut boundary: Vec<(u32, u32)> = Vec::new();
    let mut j: usize = 0;
    proof {
        reveal(Seq::filter);
        assert(component@.take(0).filter(pred) =~= Seq::<(u32, u32)>::empty());
    }
    while j < component.len()
        invariant
            mask@.len() >= width * height,
            forall|j: int| 0 <= j < component@.len() ==> (#[trigger] component@[j]).0 < i32::MAX && component@[j].1 < i32::MAX,
            pred == (|p: (u32, u32)| is_boundary_pixel(mask@, width, height, p)),
            j <= component@.len(),
            boundary@ == component@.take(j as int).filter(pred),
        decreases component@.len() - j,
    {
        let (x, y) = component[j];
        let xi = x as i32;
        let yi = y as i32;
        let touches = !sample_mask(mask, width, height, xi - 1, yi) || !sample_mask(mask, width, height, xi + 1, yi)
            || !sample_mask(mask, width, height, xi, yi - 1) || !sample_mask(mask, width, height, xi, yi + 1);
        proof {
            let t = component@.take(j + 1);
            assert(t.drop_last() =~= component@.take(j as int));
            assert(t.last() == (x, y));
            assert(component@[j as int] == (x, y));
            assert(xi as int == x as int && yi as int == y as int);
            assert(touches == pred((x, y)));
            reveal(Seq::filter);
            assert(t.filter(pred) == (if pred(t.last()) {
                t.drop_last().filter(pred).push(t.last())
            } else {
                t.drop_last().filter(pred)
            }));
        }
        if touches {
            boundary.push((x, y));
        }
        j = j + 1;
    }
    proof {
        assert(component@.take(component@.len() as int) =~= component@);
    }
    boundary
}

/// Number of the first `n` pixels of row `y`, from column `left`, darker than `below`.
pub open spec fn dark_in_run(m: ImageModel, left: int, y: int, n: int, below: u8) -> nat
    decreases n,
{
    if n <= 0 {
        0
    } else {
        dark_in_run(m, left, y, n - 1, below) + if m.sample(left + n - 1, y, 0) < below {
            1nat
        } else {
            0nat
        }
    }
}

/// Number of pixels darker than `below` in the first `rows` rows of the rectangle
/// `[left, right) x [top, ..)`.
pub open spec fn dark_in_rect(m: ImageModel, left: int, top: int, right: int, rows: int, below: u8) -> nat
    decreases rows,
{
    if rows <= 0 {
        0
    } else {
        dark_in_rect(m, left, top, right, rows - 1, below) + dark_in_run(m, left, top + rows - 1, right - left, below)
    }
}

/// Counts, over the pixels of `[left, right) x [top, bottom)` of a Gray8 image, those
/// darker than `below` and all of them: the coarse shadow evidence inside a page's bounds.
pub fn count_dark_pixels(gray: &ImageBuffer, left: u32, top: u32, right: u32, bottom: u32, below: u8) -> (counts: (
    usize,
    usize,
))
    requires
        gray.wf(),
        gray.model().pixel_format == PixelFormat::Gray8,
        right <= gray.model().shape.width,
        bottom <= gray.model().shape.height,
    ensures
        counts.0 == (if top < bottom && left < right {
            dark_in_rect(gray.model(), left as int, top as int, right as int, bottom - top, below)
        } else {
            0
        }),
        counts.1 == (if top < bottom && left < right {
            (right - left) * (bottom - top)
        } else {
            0
        }),
        counts.0 <= counts.1,
{
    let ghost m = gray.model();
    let mut dark: usize = 0;
    let mut total: usize = 0;
    if left >= right || top >= bottom {
        return (0, 0);
    }
    proof {
        crate::buffer::lemma_packed_len(m);
        assert((right - left) * (bottom - top) <= m.shape.width * m.shape.height) by (nonlinear_arith)
            requires
                right <= m.shape.width,
                bottom <= m.shape.height,
                left < right,
                top < bottom,
        ;
        assert(m.pixel_format.spec_bytes_per_pixel() == Some(1usize));
        assert(m.bpp() == 1);
        assert(m.shape.width * 1 == m.shape.width);
        assert(m.row_len() == m.shape.width);
        assert(m.shape.width * m.shape.height == m.shape.height * m.row_len()) by (nonlinear_arith)
            requires
                m.row_len() == m.shape.width,
        ;
    }
    let mut y: u32 = top;
    while y < bottom
        invariant
            m == gray.model(),
            gray.wf(),
            m.pixel_format == PixelFormat::Gray8,
            left < right <= m.shape.width,
            top < bottom <= m.shape.height,
            (right - left) * (bottom - top) <= usize::MAX,
            top <= y <= bottom,
            dark == dark_in_rect(m, left as int, top as int, right as int, y - top, below),
            total == (right - left) * (y - top),
            dark <= total,
        decreases bottom - y,
    {
        let mut x: u32 = left;
        proof {
            assert((right - left) * (y - top) + (right - left) <= (right - left) * (bottom - top)) by (nonlinear_arith)
                requires
                    y < bottom,
                    left < right,
                    top <= y,
            ;
        }
        while x < right
            invariant
                m == gray.model(),
                gray.wf(),
                m.pixel_format == PixelFormat::Gray8,
                left <= x <= right <= m.shape.width,
                top <= y < bottom <= m.shape.height,
                (right - left) * (y - top) + (right - left) <= usize::MAX,
                dark == dark_in_rect(m, left as int, top as int, right as int, y - top, below) + dark_in_run(
                    m,
                    left as int,
                    y as int,
                    x - left,
                    below,
                ),
                total == (right - left) * (y - top) + (x - left),
                dark <= total,
            decreases right - x,
        {
            proof {
                crate::types::lemma_u8_interleaved_one_byte_per_channel(m.pixel_format);
            }
            let value = gray.get_u8(x, y, 0).unwrap();
            if value < below {
                dark = dark + 1;
            }
            total = total + 1;
            x = x + 1;
        }
        proof {
            assert((right - left) * (y - top) + (right - left) == (right - left) * (y + 1 - top)) by (nonlinear_arith);
        }
        y = y + 1;
    }
    (dark, total)
}

} // verus!
