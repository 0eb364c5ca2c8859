//! Row banding of the pixel surface.
//!
//! The dispatcher splits the surface into horizontal bands, one per
//! worker: the height divided by the worker count, plus one, rows per
//! band, with the last band cut short at the surface's edge. The
//! functions here compute that layout; the lemmas show that the bands
//! cover every row exactly once, abut in order, and never outnumber the
//! workers.

use vstd::arithmetic::div_mod::{
    lemma_div_is_ordered,
    lemma_div_of0,
    lemma_fundamental_div_mod,
    lemma_fundamental_div_mod_converse_div,
    lemma_mod_bound,
};
use vstd::arithmetic::mul::{
    lemma_mul_inequality,
    lemma_mul_is_commutative,
    lemma_mul_is_distributive_add,
    lemma_mul_is_distributive_add_other_way,
    lemma_mul_is_distributive_sub_other_way,
};
use vstd::prelude::*;

verus! {

/// One horizontal band of the surface: a contiguous range of pixel rows
/// handed to a single worker.
#[derive(Clone, Copy, PartialEq, Eq, Structural, Debug)]
pub struct Band {
    /// First pixel row of the band.
    pub start_row: usize,
    /// Number of pixel rows in the band.
    pub rows: usize,
}

/// Rows in a full band: the height divided by the worker count, plus
/// one. Every band but the last has exactly this many rows.
pub open spec fn spec_rows_per_band(height: int, workers: int) -> int {
    height / workers + 1
}

/// Number of bands needed to cover the height.
pub open spec fn spec_band_count(height: int, workers: int) -> int {
    if height == 0 {
        0
    } else {
        (height - 1) / spec_rows_per_band(height, workers) + 1
    }
}

/// First row of band `i`.
pub open spec fn spec_band_start(height: int, workers: int, i: int) -> int {
    i * spec_rows_per_band(height, workers)
}

/// Rows in band `i`: a full band, unless the surface's edge cuts it
/// short.
pub open spec fn spec_band_rows(height: int, workers: int, i: int) -> int {
    let start = spec_band_start(height, workers, i);
    let rpb = spec_rows_per_band(height, workers);
    if height - start < rpb {
        height - start
    } else {
        rpb
    }
}

/// Rows covered by the first `i` bands together: band `i`'s first row,
/// clipped to the surface's height.
pub open spec fn spec_rows_covered(height: int, workers: int, i: int) -> int {
    let start = spec_band_start(height, workers, i);
    if start < height {
        start
    } else {
        height
    }
}

/// Bounds of the banding arithmetic: a band holds at least one row, the
/// bands suffice to cover the height but the next-to-last does not, and
/// there are never more bands than workers.
pub proof fn lemma_band_count_bounds(height: int, workers: int)
    requires
        0 <= height,
        1 <= workers,
    ensures
        1 <= spec_rows_per_band(height, workers) <= height + 1,
        0 <= spec_band_count(height, workers) <= workers,
        height <= spec_band_count(height, workers) * spec_rows_per_band(height, workers),
        1 <= height ==> (spec_band_count(height, workers) - 1) * spec_rows_per_band(
            height,
            workers,
        ) < height,
        1 <= height ==> 1 <= spec_band_count(height, workers),
        height == 0 ==> spec_band_count(height, workers) == 0,
{
    let q = height / workers;
    let r = height % workers;
    let rpb = spec_rows_per_band(height, workers);
    let count = spec_band_count(height, workers);
    lemma_fundamental_div_mod(height, workers);
    lemma_mod_bound(height, workers);
    lemma_div_of0(workers);
    lemma_div_is_ordered(0, height, workers);
    assert(0 <= q);
    lemma_mul_inequality(1, workers, q);
    assert(q <= workers * q);
    assert(q <= height);
    if height == 0 {
        assert(count * rpb == 0);
    } else {
        let q2 = (height - 1) / rpb;
        let m2 = (height - 1) % rpb;
        lemma_fundamental_div_mod(height - 1, rpb);
        lemma_mod_bound(height - 1, rpb);
        lemma_div_of0(rpb);
        lemma_div_is_ordered(0, height - 1, rpb);
        assert(0 <= q2);
        assert(count == q2 + 1);
        lemma_mul_is_distributive_add_other_way(rpb, q2, 1);
        assert(count * rpb == q2 * rpb + rpb);
        assert(height <= count * rpb);
        assert((count - 1) * rpb == q2 * rpb) by {
            lemma_mul_is_distributive_sub_other_way(rpb, count, 1);
        }
        assert((count - 1) * rpb < height);
        // count <= workers, because the height fits under workers full bands
        lemma_mul_is_distributive_add(workers, q, 1);
        assert(workers * rpb == workers * q + workers);
        assert(height - 1 <= workers * rpb - 1);
        lemma_div_is_ordered(height - 1, workers * rpb - 1, rpb);
        lemma_mul_is_distributive_sub_other_way(rpb, workers, 1);
        assert(workers * rpb - 1 == (workers - 1) * rpb + (rpb - 1));
        lemma_fundamental_div_mod_converse_div(workers * rpb - 1, rpb, workers - 1, rpb - 1);
        assert(q2 <= workers - 1);
    }
}

/// The bands partition the surface: every row lies in band
/// `row / rows_per_band` and in no other band.
pub proof fn lemma_bands_cover_row(height: int, workers: int, row: int)
    requires
        1 <= workers,
        0 <= row < height,
    ensures
        ({
            let i = row / spec_rows_per_band(height, workers);
            &&& 0 <= i < spec_band_count(height, workers)
            &&& spec_band_start(height, workers, i) <= row < spec_band_start(height, workers, i)
                + spec_band_rows(height, workers, i)
            &&& forall|j: int|
                0 <= j < spec_band_count(height, workers) && j != i ==> !(#[trigger] spec_band_start(
                    height,
                    workers,
                    j,
                ) <= row < spec_band_start(height, workers, j) + spec_band_rows(height, workers, j))
        }),
{
    lemma_band_count_bounds(height, workers);
    let rpb = spec_rows_per_band(height, workers);
    let count = spec_band_count(height, workers);
    let i = row / rpb;
    lemma_fundamental_div_mod(row, rpb);
    lemma_mod_bound(row, rpb);
    lemma_div_of0(rpb);
    lemma_div_is_ordered(0, row, rpb);
    assert(0 <= i);
    assert(rpb * i <= row < rpb * i + rpb);
    if i >= count {
        lemma_mul_inequality(count, i, rpb);
        assert(false);
    }
    assert forall|j: int|
        0 <= j < count && j != i implies !(#[trigger] spec_band_start(height, workers, j) <= row
        < spec_band_start(height, workers, j) + spec_band_rows(height, workers, j)) by {
        if j < i {
            lemma_mul_inequality(j + 1, i, rpb);
            lemma_mul_is_distributive_add_other_way(rpb, j, 1);
            assert(spec_band_start(height, workers, j) + rpb <= row);
        } else {
            lemma_mul_inequality(i + 1, j, rpb);
            lemma_mul_is_distributive_add_other_way(rpb, i, 1);
            assert(row < spec_band_start(height, workers, j));
        }
    }
}

/// The bands stand in order and abut: the first starts at row zero, each
/// ends where the next begins, none is empty, and together they end
/// exactly at the surface's height.
pub proof fn lemma_bands_abut(height: int, workers: int)
    requires
        0 <= height,
        1 <= workers,
    ensures
        spec_rows_covered(height, workers, 0) == 0,
        spec_rows_covered(height, workers, spec_band_count(height, workers)) == height,
        forall|i: int|
            0 <= i < spec_band_count(height, workers) ==> #[trigger] spec_rows_covered(
                height,
                workers,
                i,
            ) == spec_band_start(height, workers, i),
        forall|i: int|
            0 <= i < spec_band_count(height, workers) ==> #[trigger] spec_rows_covered(
                height,
                workers,
                i + 1,
            ) == spec_band_start(height, workers, i) + spec_band_rows(height, workers, i),
        forall|i: int|
            0 <= i < spec_band_count(height, workers) ==> 1 <= #[trigger] spec_band_rows(
                height,
                workers,
                i,
            ) <= spec_rows_per_band(height, workers),
{
    lemma_band_count_bounds(height, workers);
    let rpb = spec_rows_per_band(height, workers);
    let count = spec_band_count(height, workers);
    assert(spec_band_start(height, workers, 0) == 0);
    if count == 0 {
        assert(spec_band_start(height, workers, count) == 0);
    } else {
        lemma_mul_inequality(count, count, rpb);
        assert(spec_band_start(height, workers, count) == count * rpb);
        assert(height <= count * rpb);
    }
    assert forall|i: int| 0 <= i < count implies #[trigger] spec_rows_covered(height, workers, i)
        == spec_band_start(height, workers, i) by {
        lemma_mul_inequality(i, count - 1, rpb);
        assert(i * rpb <= (count - 1) * rpb < height);
    }
    assert forall|i: int| 0 <= i < count implies #[trigger] spec_rows_covered(height, workers, i + 1)
        == spec_band_start(height, workers, i) + spec_band_rows(height, workers, i) by {
        lemma_mul_inequality(i, count - 1, rpb);
        assert(i * rpb <= (count - 1) * rpb < height);
        lemma_mul_is_distributive_add_other_way(rpb, i, 1);
        assert((i + 1) * rpb == i * rpb + rpb);
    }
    assert forall|i: int| 0 <= i < count implies 1 <= #[trigger] spec_band_rows(height, workers, i)
        <= rpb by {
        lemma_mul_inequality(i, count - 1, rpb);
        assert(i * rpb <= (count - 1) * rpb < height);
    }
}

/// Rows in a full band for the given surface height and worker count.
pub fn rows_per_band(height: usize, workers: usize) -> (rpb: usize)
    requires
        1 <= workers,
        height < usize::MAX,
    ensures
        rpb == spec_rows_per_band(height as int, workers as int),
        1 <= rpb,
{
    proof {
        lemma_band_count_bounds(height as int, workers as int);
    }
    height / workers + 1
}

/// How many bands the layout of `height` rows among `workers` workers
/// produces; never more bands than workers.
pub fn band_count(height: usize, workers: usize) -> (count: usize)
    requires
        1 <= workers,
        height < usize::MAX,
    ensures
        count == spec_band_count(height as int, workers as int),
        count <= workers,
{
    proof {
        lemma_band_count_bounds(height as int, workers as int);
    }
    if height == 0 {
        0
    } else {
        let rpb = rows_per_band(height, workers);
        (height - 1) / rpb + 1
    }
}

/// The full banding of a surface of `height` rows for `workers` parallel
/// workers, in row order.
pub fn band_layout(height: usize, workers: usize) -> (bands: Vec<Band>)
    requires
        1 <= workers,
        height < usize::MAX,
    ensures
        bands@.len() == spec_band_count(height as int, workers as int),
        bands@.len() <= workers,
        forall|i: int|
            0 <= i < bands@.len() ==> {
                &&& (#[trigger] bands@[i]).start_row == spec_band_start(
                    height as int,
                    workers as int,
                    i,
                )
                &&& bands@[i].rows == spec_band_rows(height as int, workers as int, i)
            },
{
    let rpb = rows_per_band(height, workers);
    let count = band_count(height, workers);
    proof {
        lemma_band_count_bounds(height as int, workers as int);
    }
    let mut bands: Vec<Band> = Vec::new();
    for i in 0..count
        invariant
            1 <= workers,
            height < usize::MAX,
            rpb == spec_rows_per_band(height as int, workers as int),
            count == spec_band_count(height as int, workers as int),
            height <= count * rpb,
            1 <= count ==> (count - 1) * rpb < height,
            bands@.len() == i,
            forall|j: int|
                0 <= j < i ==> {
                    &&& (#[trigger] bands@[j]).start_row == spec_band_start(
                        height as int,
                        workers as int,
                        j,
                    )
                    &&& bands@[j].rows == spec_band_rows(height as int, workers as int, j)
                },
    {
        proof {
            lemma_mul_inequality(i as int, count as int - 1, rpb as int);
            assert(i * rpb <= (count - 1) * rpb < height);
        }
        let start: usize = i * rpb;
        let rows: usize = if height - start < rpb {
            height - start
        } else {
            rpb
        };
        bands.push(Band { start_row: start, rows });
    }
    bands
}

/// Concatenates the per-band pixel rows back into one row-major buffer:
/// band `i`'s bytes land at offset `band start * width`, so the whole
/// buffer is covered in band order.
pub fn assemble_bands(width: usize, height: usize, workers: usize, parts: &Vec<Vec<u8>>) -> (buffer:
    Vec<u8>)
    requires
        1 <= workers,
        height < usize::MAX,
        width * height <= usize::MAX,
        parts@.len() == spec_band_count(height as int, workers as int),
        forall|i: int|
            0 <= i < parts@.len() ==> (#[trigger] parts@[i])@.len() == spec_band_rows(
                height as int,
                workers as int,
                i,
            ) * width,
    ensures
        buffer@.len() == width * height,
        forall|i: int, k: int|
            0 <= i < parts@.len() && 0 <= k < parts@[i]@.len() ==> #[trigger] buffer@[spec_band_start(
                height as int,
                workers as int,
                i,
            ) * width + k] == parts@[i]@[k],
{
    let count = parts.len();
    let mut buffer: Vec<u8> = Vec::new();
    proof {
        lemma_band_count_bounds(height as int, workers as int);
        lemma_bands_abut(height as int, workers as int);
    }
    for i in 0..count
        invariant
            1 <= workers,
            height < usize::MAX,
            width * height <= usize::MAX,
            count == parts@.len(),
            parts@.len() == spec_band_count(height as int, workers as int),
            forall|j: int|
                0 <= j < parts@.len() ==> (#[trigger] parts@[j])@.len() == spec_band_rows(
                    height as int,
                    workers as int,
                    j,
                ) * width,
            buffer@.len() == spec_rows_covered(height as int, workers as int, i as int) * width,
            forall|j: int, k: int|
                0 <= j < i && 0 <= k < parts@[j]@.len() ==> #[trigger] buffer@[spec_band_start(
                    height as int,
                    workers as int,
                    j,
                ) * width + k] == parts@[j]@[k],
    {
        proof {
            lemma_bands_abut(height as int, workers as int);
        }
        let part = &parts[i];
        let m = part.len();
        let ghost base = spec_band_start(height as int, workers as int, i as int) * width;
        for k in 0..m
            invariant
                1 <= workers,
                height < usize::MAX,
                width * height <= usize::MAX,
                count == parts@.len(),
                parts@.len() == spec_band_count(height as int, workers as int),
                i < count,
                part@ == parts@[i as int]@,
                m == parts@[i as int]@.len(),
                base == spec_band_start(height as int, workers as int, i as int) * width,
                buffer@.len() == base + k,
                forall|j: int|
                    0 <= j < parts@.len() ==> (#[trigger] parts@[j])@.len() == spec_band_rows(
                        height as int,
                        workers as int,
                        j,
                    ) * width,
                forall|j: int, k2: int|
                    0 <= j < i && 0 <= k2 < parts@[j]@.len() ==> #[trigger] buffer@[spec_band_start(
                        height as int,
                        workers as int,
                        j,
                    ) * width + k2] == parts@[j]@[k2],
                forall|k2: int| 0 <= k2 < k ==> buffer@[base + k2] == parts@[i as int]@[k2],
            {
                let byte = part[k];
                buffer.push(byte);
                proof {
                    lemma_bands_abut(height as int, workers as int);
                    assert forall|j: int, k2: int|
                        0 <= j < i && 0 <= k2 < parts@[j]@.len() implies #[trigger] buffer@[spec_band_start(
                        height as int,
                        workers as int,
                        j,
                    ) * width + k2] == parts@[j]@[k2] by {
                        let rpb = spec_rows_per_band(height as int, workers as int);
                        let sj = spec_band_start(height as int, workers as int, j);
                        let rj = spec_band_rows(height as int, workers as int, j);
                        let si = spec_band_start(height as int, workers as int, i as int);
                        assert(spec_rows_covered(height as int, workers as int, j + 1) == sj + rj);
                        lemma_mul_inequality(j + 1, i as int, rpb);
                        assert(sj + rj <= si);
                        lemma_mul_is_distributive_add_other_way(width as int, sj, rj);
                        lemma_mul_inequality(sj + rj, si, width as int);
                        assert(sj * width + k2 < base + k);
                    }
                }
            }
        proof {
            lemma_bands_abut(height as int, workers as int);
            let si = spec_band_start(height as int, workers as int, i as int);
            let ri = spec_band_rows(height as int, workers as int, i as int);
            lemma_mul_is_distributive_add_other_way(width as int, si, ri);
            assert(spec_rows_covered(height as int, workers as int, i as int + 1) == si + ri);
            assert(buffer@.len() == spec_rows_covered(height as int, workers as int, i as int + 1)
                * width);
        }
    }
    proof {
        lemma_bands_abut(height as int, workers as int);
        assert(buffer@.len() == spec_rows_covered(
            height as int,
            workers as int,
            spec_band_count(height as int, workers as int),
        ) * width);
        lemma_mul_is_commutative(height as int, width as int);
    }
    buffer
}

} // verus!

