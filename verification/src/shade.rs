//! Greyscale palette for escape counts.
//!
//! The escape-time computation hands back, for every pixel, either the
//! iteration at which the point left the escape radius or `None` for a
//! point that stayed inside for the whole iteration budget. This module
//! turns those counts into 8-bit intensities: interior points are black,
//! points that escape at once are at full brightness, and slower escapes
//! darken step by step.

use crate::partition::{
    lemma_bands_cover_row,
    spec_band_count,
    spec_band_rows,
    spec_band_start,
    spec_rows_per_band,
};
use vstd::arithmetic::div_mod::{
    lemma_div_is_ordered,
    lemma_div_of0,
    lemma_fundamental_div_mod,
    lemma_mod_bound,
};
use vstd::arithmetic::mul::{
    lemma_mul_inequality,
    lemma_mul_is_commutative,
    lemma_mul_is_distributive_add,
    lemma_mul_is_distributive_add_other_way,
};
use vstd::prelude::*;

verus! {

/// Iteration budget of the escape computation: every escape count lies
/// strictly below it.
pub const ESCAPE_LIMIT: u32 = 255;

/// An escape count the palette is defined for: strictly below the
/// iteration budget.
pub open spec fn in_palette_range(escape: Option<u32>) -> bool {
    escape matches Some(count) ==> count < ESCAPE_LIMIT
}

/// Greyscale value of one pixel, given its escape count.
pub open spec fn spec_brightness(escape: Option<u32>) -> u8 {
    match escape {
        None => 0,
        Some(count) => (255 - count) as u8,
    }
}

/// The palette over a whole tile of escape counts, pointwise and in order.
pub open spec fn spec_shade(escapes: Seq<Option<u32>>) -> Seq<u8> {
    Seq::new(escapes.len(), |i: int| spec_brightness(escapes[i]))
}

/// Turns one escape count into its greyscale value.
pub fn brightness(escape: Option<u32>) -> (pixel: u8)
    requires
        in_palette_range(escape),
    ensures
        pixel == spec_brightness(escape),
{
    match escape {
        None => 0,
        Some(count) => (255 - count) as u8,
    }
}

/// A point that never escapes is drawn darkest, one that escapes on the
/// very first iteration is drawn brightest, and of two escaping points
/// the faster one is never drawn darker.
pub proof fn lemma_brightness_monotone(fast: u32, slow: u32)
    requires
        fast <= slow < ESCAPE_LIMIT,
    ensures
        spec_brightness(Some(slow)) <= spec_brightness(Some(fast)),
        spec_brightness(Some(fast)) <= spec_brightness(Some(0u32)),
        spec_brightness(Some(0u32)) == 255,
        spec_brightness(None::<u32>) == 0,
{
}

/// Applies the palette to every escape count of a tile.
pub fn shade_tile(escapes: &Vec<Option<u32>>) -> (pixels: Vec<u8>)
    requires
        forall|i: int| 0 <= i < escapes@.len() ==> in_palette_range(#[trigger] escapes@[i]),
    ensures
        pixels@ == spec_shade(escapes@),
{
    let n = escapes.len();
    let mut pixels: Vec<u8> = Vec::new();
    for k in 0..n
        invariant
            n == escapes@.len(),
            pixels@.len() == k,
            forall|i: int| 0 <= i < k ==> pixels@[i] == spec_brightness(escapes@[i]),
            forall|i: int| 0 <= i < escapes@.len() ==> in_palette_range(#[trigger] escapes@[i]),
    {
        let shaded = brightness(escapes[k]);
        pixels.push(shaded);
    }
    proof {
        assert(pixels@ =~= spec_shade(escapes@));
    }
    pixels
}

/// A buffer rendered band by band from the escape counts `escapes`:
/// within every band of the layout for `workers`, each byte is the
/// palette of the escape count at the same position of the surface.
pub open spec fn is_banded_image(
    escapes: Seq<Option<u32>>,
    width: int,
    height: int,
    workers: int,
    buffer: Seq<u8>,
) -> bool {
    &&& buffer.len() == width * height
    &&& forall|i: int, k: int|
        0 <= i < spec_band_count(height, workers) && 0 <= k < spec_band_rows(height, workers, i)
            * width ==> #[trigger] buffer[spec_band_start(height, workers, i) * width + k]
            == spec_brightness(escapes[spec_band_start(height, workers, i) * width + k])
}

/// Rendering band by band draws exactly the palette of the escape
/// counts: the banding leaves no trace in the buffer.
pub proof fn lemma_banded_image_is_shade(
    escapes: Seq<Option<u32>>,
    width: int,
    height: int,
    workers: int,
    buffer: Seq<u8>,
)
    requires
        1 <= workers,
        1 <= width,
        0 <= height,
        escapes.len() == width * height,
        is_banded_image(escapes, width, height, workers, buffer),
    ensures
        buffer == spec_shade(escapes),
{
    assert forall|p: int| 0 <= p < buffer.len() implies buffer[p] == spec_brightness(
        escapes[p],
    ) by {
        let row = p / width;
        lemma_fundamental_div_mod(p, width);
        lemma_mod_bound(p, width);
        lemma_div_of0(width);
        lemma_div_is_ordered(0, p, width);
        assert(0 <= row);
        if row >= height {
            lemma_mul_inequality(height, row, width);
            lemma_mul_is_commutative(row, width);
            lemma_mul_is_commutative(width, height);
            assert(false);
        }
        lemma_bands_cover_row(height, workers, row);
        let rpb = spec_rows_per_band(height, workers);
        let i = row / rpb;
        let si = spec_band_start(height, workers, i);
        let ri = spec_band_rows(height, workers, i);
        let k = p - si * width;
        lemma_mul_inequality(si, row, width);
        lemma_mul_is_commutative(row, width);
        assert(0 <= k);
        lemma_mul_is_distributive_add(width, row, 1);
        lemma_mul_is_commutative(row + 1, width);
        lemma_mul_inequality(row + 1, si + ri, width);
        lemma_mul_is_distributive_add_other_way(width, si, ri);
        assert(k < ri * width);
        assert(buffer[si * width + k] == spec_brightness(escapes[si * width + k]));
        assert(si * width + k == p);
    }
    assert(buffer =~= spec_shade(escapes));
}

/// The worker count never shows in the pixels: two renderings of the
/// same escape counts, banded for any two worker counts, are
/// byte-identical.
pub proof fn lemma_worker_count_immaterial(
    escapes: Seq<Option<u32>>,
    width: int,
    height: int,
    workers_a: int,
    workers_b: int,
    buffer_a: Seq<u8>,
    buffer_b: Seq<u8>,
)
    requires
        1 <= workers_a,
        1 <= workers_b,
        1 <= width,
        0 <= height,
        escapes.len() == width * height,
        is_banded_image(escapes, width, height, workers_a, buffer_a),
        is_banded_image(escapes, width, height, workers_b, buffer_b),
    ensures
        buffer_a == buffer_b,
{
    lemma_banded_image_is_shade(escapes, width, height, workers_a, buffer_a);
    lemma_banded_image_is_shade(escapes, width, height, workers_b, buffer_b);
}

} // verus!
