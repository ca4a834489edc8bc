//! Row-major, tightly packed component grids: the layout of every image these
//! operations produce.

use vstd::prelude::*;
use vstd::arithmetic::div_mod::lemma_fundamental_div_mod_converse;

use crate::buffer::ImageModel;

verus! {

/// Components of a `width` x `height` image with `channels` components per pixel,
/// component (`x`, `y`, `c`) stored at `(y * width + x) * channels + c` and given by `f`.
pub open spec fn grid(width: nat, height: nat, channels: nat, f: spec_fn(int, int, int) -> u8) -> Seq<u8> {
    Seq::new(
        width * height * channels,
        |i: int|
            f((i / (channels as int)) % (width as int), (i / (channels as int)) / (width as int), i
                % (channels as int)),
    )
}

/// Index `(y * width + x) * channels + c` decomposes back into (`x`, `y`, `c`).
pub proof fn lemma_grid_index(width: nat, height: nat, channels: nat, x: int, y: int, c: int)
    requires
        0 <= x < width,
        0 <= y < height,
        0 <= c < channels,
    ensures
        0 <= (y * width + x) * channels + c < width * height * channels,
        ((y * width + x) * channels + c) % (channels as int) == c,
        ((y * width + x) * channels + c) / (channels as int) % (width as int) == x,
        ((y * width + x) * channels + c) / (channels as int) / (width as int) == y,
        y * (width * channels) + x * channels + c == (y * width + x) * channels + c,
{
    let w = width as int;
    let h = height as int;
    let k = channels as int;
    let i = (y * w + x) * k + c;
    lemma_fundamental_div_mod_converse(i, k, y * w + x, c);
    lemma_fundamental_div_mod_converse(y * w + x, w, y, x);
    assert(0 <= (y * w + x) * k + c < w * h * k) by (nonlinear_arith)
        requires
            0 <= x < w,
            0 <= y < h,
            0 <= c < k,
    ;
    assert(y * (w * k) + x * k + c == (y * w + x) * k + c) by (nonlinear_arith);
}

/// Reading component (`x`, `y`, `c`) of a packed image whose data is a grid gives `f(x, y, c)`.
pub proof fn lemma_grid_sample(m: ImageModel, f: spec_fn(int, int, int) -> u8, x: int, y: int, c: int)
    requires
        m.bpp() > 0,
        m.stride == m.shape.width * m.bpp(),
        m.data == grid(m.shape.width as nat, m.shape.height as nat, m.bpp(), f),
        0 <= x < m.shape.width,
        0 <= y < m.shape.height,
        0 <= c < m.bpp(),
    ensures
        m.sample(x, y, c) == f(x, y, c),
{
    lemma_grid_index(m.shape.width as nat, m.shape.height as nat, m.bpp(), x, y, c);
}

/// The index that follows component (`x`, `y`, `c`) in row-major, channel-minor order.
pub proof fn lemma_grid_next(width: nat, channels: nat, x: int, y: int, c: int)
    requires
        0 <= x,
        0 <= y,
        0 <= c,
    ensures
        (y * width + x) * channels + c + 1 == (y * width + x) * channels + (c + 1),
        (y * width + x) * channels + channels == (y * width + (x + 1)) * channels,
        (y * width + width) * channels == ((y + 1) * width + 0) * channels,
{
    let w = width as int;
    let k = channels as int;
    assert((y * w + x) * k + k == (y * w + (x + 1)) * k) by (nonlinear_arith);
    assert((y * w + w) * k == ((y + 1) * w + 0) * k) by (nonlinear_arith);
}

} // verus!
