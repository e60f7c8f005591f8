//! The grid renderer: partitioning raster rows into worker bands, filling
//! bands of pixels into the raster, and aggregating per-worker outcomes.
//!
//! Rows are divided into `workers` contiguous bands of
//! `floor(height / workers)` rows each, assigned in order from row 0; when
//! the height is not a multiple of the worker count, the trailing
//! `height % workers` rows belong to no band and keep the raster's
//! zero-initialized color. This trailing gap is the deliberate policy
//! here, chosen for pixel-identical output under equal-sized bands, and
//! the lemmas below state it explicitly rather than leaving it silent.
//! Bands of distinct workers never overlap, so concurrent
//! workers write disjoint pixels; the proofs of that discipline are
//! `lemma_bands_disjoint` and `lemma_band_within_raster`.
//!
//! A worker either completes its band or fails; a failed band leaves its
//! rows unfilled but must not discard the others. `compose_render` is the
//! join phase: it fills every well-formed delivered band, touches nothing
//! else, and reduces the per-worker results to an aggregate outcome
//! naming the failed bands.

use vstd::prelude::*;
use vstd::arithmetic::div_mod::lemma_fundamental_div_mod;
use vstd::arithmetic::div_mod::lemma_mod_bound;
use crate::raster::Raster;

verus! {

/// Rows per worker band: the floor of height over the worker count.
pub fn band_rows(height: u32, workers: u32) -> (r: u32)
    requires
        workers > 0,
    ensures
        r == height as int / workers as int,
{
    height / workers
}

/// Multiplication by a nonnegative factor keeps order.
proof fn lemma_mul_le(a: int, b: int, c: int)
    requires
        a <= b,
        0 <= c,
    ensures
        a * c <= b * c,
{
    assert(a * c <= b * c) by (nonlinear_arith)
        requires
            a <= b,
            0 <= c,
    ;
}

/// The rows assigned to some band all lie below `workers * (height / workers)`,
/// which never exceeds the raster height.
pub proof fn lemma_assigned_rows(height: int, workers: int)
    requires
        workers > 0,
        0 <= height,
    ensures
        workers * (height / workers) == height - height % workers,
        workers * (height / workers) <= height,
{
    lemma_fundamental_div_mod(height, workers);
    lemma_mod_bound(height, workers);
}

/// Band `band` covers rows `band * rows .. (band + 1) * rows`; the band
/// ends within the raster.
pub proof fn lemma_band_within_raster(band: int, height: int, workers: int)
    requires
        workers > 0,
        0 <= band < workers,
        0 <= height,
    ensures
        0 <= band * (height / workers),
        (band + 1) * (height / workers) <= height,
{
    let rows = height / workers;
    lemma_assigned_rows(height, workers);
    lemma_mod_bound(height, workers);
    lemma_mul_le(0, band, rows);
    lemma_mul_le(band + 1, workers, rows);
}

/// Bands of distinct workers are disjoint: an earlier band ends no later
/// than a later band begins, so no two workers ever write the same row.
pub proof fn lemma_bands_disjoint(b1: int, b2: int, height: int, workers: int)
    requires
        workers > 0,
        0 <= b1 < b2 < workers,
        0 <= height,
    ensures
        (b1 + 1) * (height / workers) <= b2 * (height / workers),
{
    lemma_mul_le(b1 + 1, b2, height / workers);
}

/// The documented trailing gap: a row at or beyond
/// `workers * (height / workers)` belongs to no band.
pub proof fn lemma_unassigned_rows(y: int, band: int, height: int, workers: int)
    requires
        workers > 0,
        0 <= band < workers,
        workers * (height / workers) <= y,
        0 <= height,
    ensures
        !(band * (height / workers) <= y < (band + 1) * (height / workers)),
{
    lemma_mul_le(band + 1, workers, height / workers);
}

/// Every row below `workers * (height / workers)` is covered: it lies in
/// the band numbered `y / (height / workers)`.
pub proof fn lemma_bands_cover_assigned(y: int, height: int, workers: int)
    requires
        workers > 0,
        0 <= y < workers * (height / workers),
        0 <= height,
    ensures
        ({
            let rows = height / workers;
            let band = y / rows;
            0 <= band < workers && band * rows <= y < (band + 1) * rows
        }),
{
    let rows = height / workers;
    assert(rows > 0) by {
        if rows <= 0 {
            lemma_mul_le(workers, workers, 0);
            assert(workers * rows <= 0) by (nonlinear_arith)
                requires
                    workers > 0,
                    rows <= 0,
            ;
        }
    }
    let band = y / rows;
    lemma_fundamental_div_mod(y, rows);
    lemma_mod_bound(y, rows);
    assert(band * rows <= y < (band + 1) * rows) by (nonlinear_arith)
        requires
            rows > 0,
            y == rows * band + y % rows,
            0 <= y % rows < rows,
    ;
    assert(0 <= band) by (nonlinear_arith)
        requires
            rows > 0,
            0 <= y,
            y == rows * band + y % rows,
            0 <= y % rows < rows,
    ;
    if band >= workers {
        lemma_mul_le(workers, band, rows);
    }
}

/// First row of a worker's band.
pub fn band_start(band: u32, height: u32, workers: u32) -> (r: u32)
    requires
        workers > 0,
        band < workers,
    ensures
        r == band as int * (height as int / workers as int),
{
    proof {
        lemma_band_within_raster(band as int, height as int, workers as int);
        lemma_mul_le(band as int, band as int + 1, height as int / workers as int);
    }
    band * (height / workers)
}

/// One past the last row of a worker's band.
pub fn band_end(band: u32, height: u32, workers: u32) -> (r: u32)
    requires
        workers > 0,
        band < workers,
    ensures
        r == (band as int + 1) * (height as int / workers as int),
        r <= height,
{
    proof {
        lemma_band_within_raster(band as int, height as int, workers as int);
    }
    (band + 1) * (height / workers)
}

/// A grayscale level spread over the three channels of a pixel.
pub open spec fn gray(level: u8) -> (u8, u8, u8) {
    (level, level, level)
}

/// Fill one raster row with grayscale levels, one per column, leaving
/// every other row as it was.
pub fn fill_row(raster: &mut Raster, y: u32, levels: &Vec<u8>)
    requires
        old(raster).wf(),
        y < old(raster).spec_height(),
        levels@.len() == old(raster).spec_width(),
    ensures
        final(raster).wf(),
        final(raster).spec_width() == old(raster).spec_width(),
        final(raster).spec_height() == old(raster).spec_height(),
        forall|x: int|
            0 <= x < final(raster).spec_width() ==> final(raster).pixel(x, y as int) == gray(
                levels@[x],
            ),
        forall|i: int, j: int|
            0 <= i < final(raster).spec_width() && 0 <= j < final(raster).spec_height() && j != y
                ==> final(raster).pixel(i, j) == old(raster).pixel(i, j),
{
    let ghost orig = *raster;
    let width = raster.width();
    let mut x: u32 = 0;
    while x < width
        invariant
            raster.wf(),
            raster.spec_width() == orig.spec_width(),
            raster.spec_height() == orig.spec_height(),
            width == orig.spec_width(),
            levels@.len() == orig.spec_width(),
            y < orig.spec_height(),
            x <= width,
            forall|i: int| 0 <= i < x ==> raster.pixel(i, y as int) == gray(levels@[i]),
            forall|i: int, j: int|
                0 <= i < raster.spec_width() && 0 <= j < raster.spec_height() && j != y
                    ==> raster.pixel(i, j) == orig.pixel(i, j),
        decreases width - x,
    {
        raster.set_gray(x, y, levels[x as usize]);
        x = x + 1;
    }
}

/// Fill a contiguous band of rows, starting at `from`, with per-row
/// grayscale levels; rows outside the band keep their pixels.
pub fn fill_band(raster: &mut Raster, from: u32, rows: &Vec<Vec<u8>>)
    requires
        old(raster).wf(),
        from as int + rows@.len() <= old(raster).spec_height(),
        forall|k: int| 0 <= k < rows@.len() ==> rows@[k]@.len() == old(raster).spec_width(),
    ensures
        final(raster).wf(),
        final(raster).spec_width() == old(raster).spec_width(),
        final(raster).spec_height() == old(raster).spec_height(),
        forall|x: int, k: int|
            0 <= x < final(raster).spec_width() && 0 <= k < rows@.len() ==> final(raster).pixel(
                x,
                from + k,
            ) == gray(rows@[k]@[x]),
        forall|i: int, j: int|
            0 <= i < final(raster).spec_width() && 0 <= j < final(raster).spec_height() && !(from
                <= j < from + rows@.len()) ==> final(raster).pixel(i, j) == old(raster).pixel(i, j),
{
    let ghost orig = *raster;
    let mut k: usize = 0;
    let count = rows.len();
    while k < count
        invariant
            raster.wf(),
            raster.spec_width() == orig.spec_width(),
            raster.spec_height() == orig.spec_height(),
            count == rows@.len(),
            k <= count,
            from as int + rows@.len() <= orig.spec_height(),
            forall|t: int| 0 <= t < rows@.len() ==> rows@[t]@.len() == orig.spec_width(),
            forall|x: int, t: int|
                0 <= x < raster.spec_width() && 0 <= t < k ==> raster.pixel(x, from + t) == gray(
                    rows@[t]@[x],
                ),
            forall|i: int, j: int|
                0 <= i < raster.spec_width() && 0 <= j < raster.spec_height() && !(from <= j < from
                    + k) ==> raster.pixel(i, j) == orig.pixel(i, j),
        decreases count - k,
    {
        let y: u32 = from + (k as u32);
        fill_row(raster, y, &rows[k]);
        k = k + 1;
    }
}

/// A band as a worker delivers it: the grayscale rows it computed, or
/// nothing if the worker failed.
pub open spec fn spec_band_ok(band: Option<Vec<Vec<u8>>>, width: int, rows_per: int) -> bool {
    band matches Some(rows) && rows@.len() == rows_per && (forall|u: int|
        0 <= u < rows@.len() ==> rows@[u]@.len() == width)
}

/// Which of the delivered bands are well-formed.
pub open spec fn band_checks(bands: Seq<Option<Vec<Vec<u8>>>>, width: int, rows_per: int) -> Seq<
    bool,
> {
    Seq::new(bands.len(), |t: int| spec_band_ok(bands[t], width, rows_per))
}

/// The grayscale level a well-formed band assigns to column x of its
/// u-th row.
pub open spec fn band_level(bands: Seq<Option<Vec<Vec<u8>>>>, t: int, u: int, x: int) -> u8 {
    match bands[t] {
        Some(rows) => rows@[u]@[x],
        None => 0,
    }
}

/// Whether row j lies in one of the first `bound` bands that was
/// delivered well-formed.
pub open spec fn row_covered_below(j: int, ok: Seq<bool>, bound: int, rows_per: int) -> bool {
    exists|t: int|
        0 <= t < bound && t < ok.len() && ok[t] && t * rows_per <= j < (t + 1) * rows_per
}

/// Whether row j lies in any band that was delivered well-formed.
pub open spec fn row_covered(j: int, ok: Seq<bool>, rows_per: int) -> bool {
    row_covered_below(j, ok, ok.len() as int, rows_per)
}

/// Check that a delivered band has exactly the expected number of rows,
/// each as wide as the raster.
pub fn band_well_formed(rows: &Vec<Vec<u8>>, width: u32, expected_rows: u32) -> (b: bool)
    ensures
        b <==> (rows@.len() == expected_rows && (forall|u: int|
            0 <= u < rows@.len() ==> rows@[u]@.len() == width)),
{
    if rows.len() != expected_rows as usize {
        return false;
    }
    let mut u: usize = 0;
    let count = rows.len();
    while u < count
        invariant
            count == rows@.len(),
            u <= count,
            forall|t: int| 0 <= t < u ==> rows@[t]@.len() == width,
        decreases count - u,
    {
        if rows[u].len() != width as usize {
            return false;
        }
        u = u + 1;
    }
    true
}

/// Aggregate outcome of a render: either every worker finished, or the
/// bands of the named workers failed and were left unfilled.
pub enum RenderOutcome {
    Complete,
    Partial(Vec<u32>),
}

/// The indices, in order, of the workers among the first `n` whose result
/// is a failure.
pub open spec fn failed_bands(results: Seq<bool>, n: int) -> Seq<u32>
    decreases n,
{
    if n <= 0 {
        Seq::empty()
    } else {
        let rest = failed_bands(results, n - 1);
        if !results[n - 1] {
            rest.push((n - 1) as u32)
        } else {
            rest
        }
    }
}

/// Reduce per-worker results (true for a completed band) to the aggregate
/// outcome: complete exactly when every worker succeeded, else the list
/// of failed band indices in order.
pub fn summarize_workers(results: &Vec<bool>) -> (r: RenderOutcome)
    requires
        results@.len() <= u32::MAX,
    ensures
        (r matches RenderOutcome::Complete) <==> forall|i: int|
            0 <= i < results@.len() ==> results@[i],
        (r matches RenderOutcome::Partial(failed) ==> failed@ == failed_bands(
            results@,
            results@.len() as int,
        )),
        (r matches RenderOutcome::Partial(failed) ==> failed@.len() > 0),
{
    let mut failed: Vec<u32> = Vec::new();
    let mut i: usize = 0;
    let count = results.len();
    while i < count
        invariant
            count == results@.len(),
            count <= u32::MAX,
            i <= count,
            failed@ == failed_bands(results@, i as int),
            failed@.len() == 0 <==> forall|t: int| 0 <= t < i ==> results@[t],
        decreases count - i,
    {
        if !results[i] {
            failed.push(i as u32);
        }
        i = i + 1;
    }
    if failed.len() == 0 {
        RenderOutcome::Complete
    } else {
        RenderOutcome::Partial(failed)
    }
}

/// When the height divides evenly among the workers and every band was
/// delivered well-formed, no row is left out: every raster row lies in a
/// covered band, so the render is total.
pub proof fn lemma_complete_render_covers_all_rows(
    j: int,
    ok: Seq<bool>,
    height: int,
    workers: int,
)
    requires
        workers > 0,
        0 <= height,
        height % workers == 0,
        ok.len() == workers,
        forall|t: int| 0 <= t < workers ==> ok[t],
        0 <= j < height,
    ensures
        row_covered(j, ok, height / workers),
{
    let rp = height / workers;
    lemma_assigned_rows(height, workers);
    lemma_bands_cover_assigned(j, height, workers);
    let band = j / rp;
    assert(ok[band]);
}

/// Whatever the workers deliver, a row in the trailing gap (at or beyond
/// `workers * (height / workers)`) lies in no band and is never written.
pub proof fn lemma_gap_rows_never_covered(j: int, ok: Seq<bool>, height: int, workers: int)
    requires
        workers > 0,
        0 <= height,
        ok.len() == workers,
        workers * (height / workers) <= j,
    ensures
        !row_covered(j, ok, height / workers),
{
    let rp = height / workers;
    if row_covered(j, ok, rp) {
        let t = choose|t: int| 0 <= t < ok.len() && ok[t] && t * rp <= j < (t + 1) * rp;
        lemma_unassigned_rows(j, t, height, workers);
    }
}

/// The join phase of the renderer: take what every worker delivered,
/// fill each well-formed band into its own disjoint row range, leave the
/// rows of failed bands and the trailing gap exactly as they were, and
/// report the aggregate outcome, naming the failed bands in order.
pub fn compose_render(raster: &mut Raster, bands: &Vec<Option<Vec<Vec<u8>>>>, workers: u32) -> (r:
    RenderOutcome)
    requires
        old(raster).wf(),
        workers > 0,
        bands@.len() == workers,
    ensures
        final(raster).wf(),
        final(raster).spec_width() == old(raster).spec_width(),
        final(raster).spec_height() == old(raster).spec_height(),
        ({
            let width = old(raster).spec_width() as int;
            let height = old(raster).spec_height() as int;
            let rows_per = height / (workers as int);
            let ok = band_checks(bands@, width, rows_per);
            &&& forall|t: int, u: int, x: int|
                0 <= t < workers && ok[t] && 0 <= u < rows_per && 0 <= x < width ==> final(
                    raster
                ).pixel(x, t * rows_per + u) == gray(#[trigger] band_level(bands@, t, u, x))
            &&& forall|i: int, j: int|
                0 <= i < width && 0 <= j < height && !row_covered(j, ok, rows_per) ==> final(
                    raster
                ).pixel(i, j) == old(raster).pixel(i, j)
            &&& ((r matches RenderOutcome::Complete) <==> (forall|t: int|
                0 <= t < workers ==> ok[t]))
            &&& (r matches RenderOutcome::Partial(failed) ==> failed@ == failed_bands(
                ok,
                workers as int,
            ) && failed@.len() > 0)
        }),
{
    let ghost orig = *raster;
    let width = raster.width();
    let height = raster.height();
    let rows_per = band_rows(height, workers);
    let ghost wi = width as int;
    let ghost hi = height as int;
    let ghost rp = hi / (workers as int);
    let ghost ok = band_checks(bands@, wi, rp);
    let mut results: Vec<bool> = Vec::new();
    let mut k: u32 = 0;
    while k < workers
        invariant
            raster.wf(),
            orig.wf(),
            raster.spec_width() == orig.spec_width(),
            raster.spec_height() == orig.spec_height(),
            width == orig.spec_width(),
            height == orig.spec_height(),
            wi == width as int,
            hi == height as int,
            workers > 0,
            bands@.len() == workers,
            rp == hi / (workers as int),
            rows_per == rp,
            ok == band_checks(bands@, wi, rp),
            k <= workers,
            results@.len() == k,
            forall|t: int| 0 <= t < k ==> results@[t] == ok[t],
            forall|t: int, u: int, x: int|
                0 <= t < k && ok[t] && 0 <= u < rp && 0 <= x < wi ==> raster.pixel(x, t * rp + u)
                    == gray(#[trigger] band_level(bands@, t, u, x)),
            forall|i: int, j: int|
                0 <= i < wi && 0 <= j < hi && !row_covered_below(j, ok, k as int, rp)
                    ==> raster.pixel(i, j) == orig.pixel(i, j),
        decreases workers - k,
    {
        let mut delivered_ok = false;
        match &bands[k as usize] {
            Some(rows) => {
                if band_well_formed(rows, width, rows_per) {
                    delivered_ok = true;
                    let from = band_start(k, height, workers);
                    proof {
                        lemma_band_within_raster(k as int, hi, workers as int);
                        assert((k as int) * rp + rp == (k as int + 1) * rp) by (nonlinear_arith);
                    }
                    fill_band(raster, from, rows);
                    proof {
                        assert(ok[k as int]);
                        assert forall|t: int, u: int, x: int|
                            0 <= t < k + 1 && ok[t] && 0 <= u < rp && 0 <= x
                                < wi implies raster.pixel(x, t * rp + u) == gray(
                            #[trigger] band_level(bands@, t, u, x),
                        ) by {
                            assert((t + 1) * rp == t * rp + rp) by (nonlinear_arith);
                            if t < k {
                                lemma_bands_disjoint(t, k as int, hi, workers as int);
                            }
                        }
                        assert forall|i: int, j: int|
                            0 <= i < wi && 0 <= j < hi && !row_covered_below(
                                j,
                                ok,
                                k as int + 1,
                                rp,
                            ) implies raster.pixel(i, j) == orig.pixel(i, j) by {
                            assert((k as int) * rp + rp == (k as int + 1) * rp)
                                by (nonlinear_arith);
                            if (k as int) * rp <= j < (k as int + 1) * rp {
                                assert(row_covered_below(j, ok, k as int + 1, rp));
                            } else {
                                assert(!row_covered_below(j, ok, k as int, rp));
                            }
                        }
                    }
                }
            },
            None => {},
        }
        proof {
            if !delivered_ok {
                assert(!ok[k as int]);
                assert forall|i: int, j: int|
                    0 <= i < wi && 0 <= j < hi && !row_covered_below(
                        j,
                        ok,
                        k as int + 1,
                        rp,
                    ) implies raster.pixel(i, j) == orig.pixel(i, j) by {
                    assert(!row_covered_below(j, ok, k as int, rp));
                }
            }
        }
        results.push(delivered_ok);
        k = k + 1;
    }
    let outcome = summarize_workers(&results);
    proof {
        assert(results@ =~= ok);
    }
    outcome
}

} // verus!
