//! Integer evidence behind scalar quality metrics: packed luminance samples and
//! exposure counts.

use vstd::prelude::*;

use crate::buffer::{lemma_packed_index, lemma_packed_len, lemma_row_in_footprint, ImageBuffer};
use crate::error::PerceptionResult;

verus! {

/// Number of the first `n` samples that are below `under`.
pub open spec fn count_underexposed(samples: Seq<u8>, n: int, under: u8) -> nat
    decreases n,
{
    if n <= 0 {
        0
    } else {
        count_underexposed(samples, n - 1, under) + if samples[n - 1] < under {
            1nat
        } else {
            0nat
        }
    }
}

/// Number of the first `n` samples that are above `over`.
pub open spec fn count_overexposed(samples: Seq<u8>, n: int, over: u8) -> nat
    decreases n,
{
    if n <= 0 {
        0
    } else {
        count_overexposed(samples, n - 1, over) + if samples[n - 1] > over {
            1nat
        } else {
            0nat
        }
    }
}

/// Number of the first `n` samples that are clipped to 0 or 255.
pub open spec fn count_clipped(samples: Seq<u8>, n: int) -> nat
    decreases n,
{
    if n <= 0 {
        0
    } else {
        count_clipped(samples, n - 1) + if samples[n - 1] == 0 || samples[n - 1] == 255 {
            1nat
        } else {
            0nat
        }
    }
}

/// How many samples are underexposed, overexposed and clipped.
#[derive(Clone, Copy, Debug, PartialEq, Eq, Structural)]
pub struct ExposureCounts {
    /// Samples below the underexposure threshold.
    pub underexposed: usize,
    /// Samples above the overexposure threshold.
    pub overexposed: usize,
    /// Samples at 0 or 255.
    pub clipped: usize,
}

/// Counts underexposed (`< under`), overexposed (`> over`) and clipped samples.
pub fn count_exposure(samples: &[u8], under: u8, over: u8) -> (counts: ExposureCounts)
    ensures
        counts.underexposed == count_underexposed(samples@, samples@.len() as int, under),
        counts.overexposed == count_overexposed(samples@, samples@.len() as int, over),
        counts.clipped == count_clipped(samples@, samples@.len() as int),
{
    let mut underexposed: usize = 0;
    let mut overexposed: usize = 0;
    let mut clipped: usize = 0;
    let mut i: usize = 0;
    while i < samples.len()
        invariant
            i <= samples@.len(),
            underexposed == count_underexposed(samples@, i as int, under),
            overexposed == count_overexposed(samples@, i as int, over),
            clipped == count_clipped(samples@, i as int),
            underexposed <= i,
            overexposed <= i,
            clipped <= i,
        decreases samples@.len() - i,
    {
        let value = samples[i];
        if value < under {
            underexposed = underexposed + 1;
        }
        if value > over {
            overexposed = overexposed + 1;
        }
        if value == 0 || value == 255 {
            clipped = clipped + 1;
        }
        i = i + 1;
    }
    ExposureCounts { underexposed, overexposed, clipped }
}

/// The logical rows of an image concatenated without stride padding.
pub fn packed_gray(image: &ImageBuffer) -> (result: PerceptionResult<Vec<u8>>)
    requires
        image.wf(),
    ensures
        result matches Ok(values) && values@ == image.model().packed(),
{
    let ghost m = image.model();
    let view = image.view();
    let mut values: Vec<u8> = Vec::new();
    proof {
        lemma_packed_len(m);
    }
    let mut y: u32 = 0;
    while y < image.height()
        invariant
            m == image.model(),
            m == view.model(),
            m.wf(),
            y <= m.shape.height,
            values@.len() == y * m.row_len(),
            forall|i: int| 0 <= i < values@.len() ==> values@[i] == m.packed()[i],
        decreases m.shape.height - y,
    {
        let row = view.row(y).unwrap();
        let ghost before = values@;
        values.extend_from_slice(row);
        proof {
            lemma_row_in_footprint(m, y as int);
            assert forall|i: int| 0 <= i < values@.len() implies values@[i] == m.packed()[i] by {
                if i >= before.len() {
                    let k = i - before.len();
                    lemma_packed_index(m, y as int, k);
                    assert(i == y * m.row_len() + k);
                }
            }
            assert(values@.len() == (y + 1) * m.row_len()) by (nonlinear_arith)
                requires
                    values@.len() == y * m.row_len() + m.row_len(),
            ;
        }
        y = y + 1;
    }
    proof {
        assert(values@ =~= m.packed());
    }
    Ok(values)
}

} // verus!
