//! Static partition of the image rows into one contiguous band per worker.
//!
//! Every band but the last holds `height / workers` rows; the last band also
//! takes the rows that are left over, so it can be larger than the others.
//! That imbalance is deliberate: it keeps the assignment of rows to workers
//! fixed and easy to reproduce.

use vstd::prelude::*;

verus! {

/// Number of rows in every band but the last.
pub open spec fn chunk_rows(height: nat, workers: nat) -> nat {
    height / workers
}

/// First row of the band of worker `id`.
pub open spec fn band_start(id: nat, height: nat, workers: nat) -> nat {
    id * chunk_rows(height, workers)
}

/// One past the last row of the band of worker `id`.
pub open spec fn band_end(id: nat, height: nat, workers: nat) -> nat {
    if id + 1 == workers {
        height
    } else {
        (id + 1) * chunk_rows(height, workers)
    }
}

/// Whether `row` lies in the band of worker `id`.
pub open spec fn in_band(row: nat, id: nat, height: nat, workers: nat) -> bool {
    band_start(id, height, workers) <= row < band_end(id, height, workers)
}

/// The worker that renders `row`.
pub open spec fn row_owner(row: nat, height: nat, workers: nat) -> nat {
    let chunk = chunk_rows(height, workers);
    if chunk == 0 || row / chunk >= workers {
        (workers - 1) as nat
    } else {
        row / chunk
    }
}

/// Pixels rendered by the first `count` workers together.
pub open spec fn pixels_done_by(count: nat, width: nat, height: nat, workers: nat) -> nat
    decreases count,
{
    if count == 0 {
        0
    } else {
        let id = (count - 1) as nat;
        pixels_done_by(id, width, height, workers) + width * (band_end(id, height, workers)
            - band_start(id, height, workers)) as nat
    }
}

/// A half-open range of image rows, `start_row <= row < end_row`.
#[derive(Clone, Copy, Debug, PartialEq, Eq, Structural)]
pub struct Band {
    pub start_row: usize,
    pub end_row: usize,
}

impl Band {
    /// The band of worker `id`.
    pub open spec fn spec_of_worker(id: nat, height: nat, workers: nat) -> Band {
        Band {
            start_row: band_start(id, height, workers) as usize,
            end_row: band_end(id, height, workers) as usize,
        }
    }

    /// Number of rows in the band.
    pub open spec fn rows(self) -> nat {
        (self.end_row - self.start_row) as nat
    }

    /// Whether the band holds `row`.
    pub open spec fn contains(self, row: nat) -> bool {
        self.start_row <= row < self.end_row
    }

    /// The band that worker `id` of `workers` renders in an image of `height` rows.
    pub fn of_worker(id: usize, height: usize, workers: usize) -> (band: Band)
        requires
            id < workers,
        ensures
            band.start_row == band_start(id as nat, height as nat, workers as nat),
            band.end_row == band_end(id as nat, height as nat, workers as nat),
            band.start_row <= band.end_row <= height,
    {
        let chunk: usize = height / workers;
        proof {
            lemma_band_in_image(id as nat, height as nat, workers as nat);
            if id + 1 < workers {
                lemma_band_in_image((id + 1) as nat, height as nat, workers as nat);
            }
        }
        let start_row: usize = id * chunk;
        let end_row: usize = if id == workers - 1 {
            height
        } else {
            (id + 1) * chunk
        };
        Band { start_row, end_row }
    }

    /// Number of rows in the band.
    pub fn row_count(&self) -> (n: usize)
        requires
            self.start_row <= self.end_row,
        ensures
            n == self.rows(),
    {
        self.end_row - self.start_row
    }
}

/// Every band lies inside the image and is a well-formed range.
pub proof fn lemma_band_in_image(id: nat, height: nat, workers: nat)
    requires
        id < workers,
    ensures
        band_start(id, height, workers) <= band_end(id, height, workers) <= height,
{
    let chunk = chunk_rows(height, workers);
    assert(workers * chunk <= height) by (nonlinear_arith)
        requires
            workers > 0,
            chunk == height / workers,
    ;
    assert(id * chunk <= (id + 1) * chunk) by (nonlinear_arith);
    if id + 1 < workers {
        assert((id + 1) * chunk <= workers * chunk) by (nonlinear_arith)
            requires
                id + 1 < workers,
        ;
    } else {
        assert(id * chunk <= workers * chunk) by (nonlinear_arith)
            requires
                id < workers,
        ;
    }
}

/// The bands follow one another without a gap: the first starts at row 0,
/// each one starts where the one before it ends, and the last ends at `height`.
pub proof fn lemma_bands_adjacent(id: nat, height: nat, workers: nat)
    requires
        id < workers,
    ensures
        id == 0 ==> band_start(id, height, workers) == 0,
        id + 1 < workers ==> band_end(id, height, workers) == band_start(id + 1, height, workers),
        id + 1 == workers ==> band_end(id, height, workers) == height,
{
}

/// Every band but the last has exactly `height / workers` rows; the last has
/// the rest, which is never fewer.
pub proof fn lemma_band_sizes(id: nat, height: nat, workers: nat)
    requires
        id < workers,
    ensures
        id + 1 < workers ==> band_end(id, height, workers) - band_start(id, height, workers)
            == chunk_rows(height, workers),
        id + 1 == workers ==> band_end(id, height, workers) - band_start(id, height, workers)
            == height - (workers - 1) * chunk_rows(height, workers),
        id + 1 == workers ==> band_end(id, height, workers) - band_start(id, height, workers)
            >= chunk_rows(height, workers),
{
    let chunk = chunk_rows(height, workers);
    assert((id + 1) * chunk == id * chunk + chunk) by (nonlinear_arith);
    assert(workers * chunk <= height) by (nonlinear_arith)
        requires
            workers > 0,
            chunk == height / workers,
    ;
}

/// Every row of the image lies in the band of exactly one worker, `row_owner`.
pub proof fn lemma_row_has_one_owner(row: nat, height: nat, workers: nat)
    requires
        workers > 0,
        row < height,
    ensures
        row_owner(row, height, workers) < workers,
        in_band(row, row_owner(row, height, workers), height, workers),
        forall|id: nat|
            id < workers && #[trigger] in_band(row, id, height, workers) ==> id == row_owner(
                row,
                height,
                workers,
            ),
{
    let chunk = chunk_rows(height, workers);
    let owner = row_owner(row, height, workers);
    if chunk == 0 {
        assert(forall|id: nat| #[trigger] (id * chunk) == 0) by (nonlinear_arith)
            requires
                chunk == 0,
        ;
    } else {
        let q = row / chunk;
        assert(q * chunk <= row < (q + 1) * chunk) by (nonlinear_arith)
            requires
                chunk > 0,
                q == row / chunk,
        ;
        if q >= workers {
            assert((workers - 1) * chunk <= q * chunk) by (nonlinear_arith)
                requires
                    workers - 1 <= q,
            ;
        }
        assert forall|id: nat| id < workers && #[trigger] in_band(row, id, height, workers) implies id
            == owner by {
            // `id * chunk <= row`, so `id <= q`
            assert(id <= q) by (nonlinear_arith)
                requires
                    id * chunk <= row,
                    row < (q + 1) * chunk,
                    chunk > 0,
            ;
            if id + 1 < workers {
                // `row < (id + 1) * chunk`, so `q <= id`
                assert(q <= id) by (nonlinear_arith)
                    requires
                        row < (id + 1) * chunk,
                        q * chunk <= row,
                        chunk > 0,
                ;
            }
        }
    }
}

/// The bands lie in the order of the workers: the band of a worker ends
/// before the band of any later worker starts.
pub proof fn lemma_bands_ordered(a: nat, b: nat, height: nat, workers: nat)
    requires
        a < b < workers,
    ensures
        band_end(a, height, workers) <= band_start(b, height, workers),
{
    let chunk = chunk_rows(height, workers);
    assert((a + 1) * chunk <= b * chunk) by (nonlinear_arith)
        requires
            a + 1 <= b,
    ;
}

/// Distinct workers never share a row.
pub proof fn lemma_bands_disjoint(row: nat, a: nat, b: nat, height: nat, workers: nat)
    requires
        a < workers,
        b < workers,
        in_band(row, a, height, workers),
        in_band(row, b, height, workers),
    ensures
        a == b,
{
    if a < b {
        lemma_bands_ordered(a, b, height, workers);
    } else if b < a {
        lemma_bands_ordered(b, a, height, workers);
    }
}

/// The first `count` workers together render the rows above the band of
/// worker `count`; all workers together render every pixel of the image
/// exactly once, `width * height` in all.
pub proof fn lemma_pixels_done(count: nat, width: nat, height: nat, workers: nat)
    requires
        workers > 0,
        count <= workers,
    ensures
        count < workers ==> pixels_done_by(count, width, height, workers) == width * band_start(
            count,
            height,
            workers,
        ),
        count == workers ==> pixels_done_by(count, width, height, workers) == width * height,
    decreases count,
{
    if count > 0 {
        let id = (count - 1) as nat;
        lemma_pixels_done(id, width, height, workers);
        lemma_band_in_image(id, height, workers);
        let s = band_start(id, height, workers);
        let e = band_end(id, height, workers);
        assert(width * s + width * ((e - s) as nat) == width * e) by (nonlinear_arith)
            requires
                s <= e,
        ;
    } else {
        assert(width * 0 == 0);
    }
}

} // verus!
