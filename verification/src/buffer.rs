//! The row-major pixel buffer that the workers fill, and the two steps of a
//! worker: rendering its band into a private buffer, and copying that buffer
//! into the shared one.

use crate::bands::{lemma_band_in_image, lemma_bands_ordered, Band};
use vstd::prelude::*;

verus! {

/// Position of pixel (`row`, `col`) in a row-major buffer of rows `width` wide.
pub open spec fn pixel_index(width: nat, row: nat, col: nat) -> nat {
    row * width + col
}

/// The pixel (`row`, `col`) of the image as it is stored in the private
/// buffer of the worker that renders `band`.
pub open spec fn local_pixel<T>(local: Seq<T>, width: nat, band: Band, row: nat, col: nat) -> T {
    local[pixel_index(width, (row - band.start_row) as nat, col) as int]
}

/// Whether position `i` of the image buffer belongs to a row of `band`.
pub open spec fn band_covers(band: Band, width: nat, i: int) -> bool {
    band.start_row * width <= i < band.end_row * width
}

/// The image buffer after the private buffer `local` of the worker that
/// rendered `band` has been copied in: the rows of the band come from `local`,
/// all other rows stay as they were.
pub open spec fn merged<T>(pixels: Seq<T>, width: nat, band: Band, local: Seq<T>) -> Seq<T> {
    Seq::new(
        pixels.len(),
        |i: int|
            if band_covers(band, width, i) {
                local[i - band.start_row * width]
            } else {
                pixels[i]
            },
    )
}

/// A position below `rows * width` for every pixel of the first `rows` rows.
pub proof fn lemma_pixel_index_bound(width: nat, rows: nat, row: nat, col: nat)
    requires
        row < rows,
        col < width,
    ensures
        pixel_index(width, row, col) < rows * width,
        pixel_index(width, row, col) >= row * width,
{
    assert(row * width + width <= rows * width) by (nonlinear_arith)
        requires
            row + 1 <= rows,
    ;
}

/// Different pixels have different positions.
pub proof fn lemma_pixel_index_injective(width: nat, r1: nat, c1: nat, r2: nat, c2: nat)
    requires
        c1 < width,
        c2 < width,
        pixel_index(width, r1, c1) == pixel_index(width, r2, c2),
    ensures
        r1 == r2,
        c1 == c2,
{
    if r1 < r2 {
        lemma_pixel_index_bound(width, r2, r1, c1);
    } else if r2 < r1 {
        lemma_pixel_index_bound(width, r1, r2, c2);
    }
}

/// Copying a band in replaces exactly the pixels of its rows, each by the
/// pixel that the worker stored for the same row and column.
pub proof fn lemma_merged_pixel<T>(
    pixels: Seq<T>,
    width: nat,
    height: nat,
    band: Band,
    local: Seq<T>,
    row: nat,
    col: nat,
)
    requires
        pixels.len() == width * height,
        band.start_row <= band.end_row <= height,
        local.len() == band.rows() * width,
        row < height,
        col < width,
    ensures
        band.contains(row) ==> merged(pixels, width, band, local)[pixel_index(
            width,
            row,
            col,
        ) as int] == local_pixel(local, width, band, row, col),
        !band.contains(row) ==> merged(pixels, width, band, local)[pixel_index(
            width,
            row,
            col,
        ) as int] == pixels[pixel_index(width, row, col) as int],
{
    let i = pixel_index(width, row, col) as int;
    let start = band.start_row as nat;
    let end = band.end_row as nat;
    lemma_pixel_index_bound(width, height, row, col);
    assert(height * width == width * height) by (nonlinear_arith);
    if band.contains(row) {
        lemma_pixel_index_bound(width, end, row, col);
        assert(start * width <= row * width) by (nonlinear_arith)
            requires
                start <= row,
        ;
        assert((row - start) * width == row * width - start * width) by (nonlinear_arith);
    } else if row < start {
        lemma_pixel_index_bound(width, start, row, col);
    } else {
        assert(end * width <= row * width) by (nonlinear_arith)
            requires
                end <= row,
        ;
    }
}

/// Bands that share no row can be copied in in either order: the image that
/// results is the same.
pub proof fn lemma_merge_order<T>(
    pixels: Seq<T>,
    width: nat,
    first: Band,
    first_local: Seq<T>,
    second: Band,
    second_local: Seq<T>,
)
    requires
        first.start_row <= first.end_row,
        second.start_row <= second.end_row,
        first.end_row <= second.start_row || second.end_row <= first.start_row,
    ensures
        merged(merged(pixels, width, first, first_local), width, second, second_local) == merged(
            merged(pixels, width, second, second_local),
            width,
            first,
            first_local,
        ),
{
    let a = merged(merged(pixels, width, first, first_local), width, second, second_local);
    let b = merged(merged(pixels, width, second, second_local), width, first, first_local);
    assert forall|i: int| 0 <= i < pixels.len() implies a[i] == b[i] by {
        if first.end_row <= second.start_row {
            assert(first.end_row * width <= second.start_row * width) by (nonlinear_arith)
                requires
                    first.end_row <= second.start_row,
            ;
        } else {
            assert(second.end_row * width <= first.start_row * width) by (nonlinear_arith)
                requires
                    second.end_row <= first.start_row,
            ;
        }
    }
}

/// The workers can hand in their bands in any order: whichever of two
/// workers copies its buffer into the image first, the image is the same
/// afterwards.
pub proof fn lemma_workers_merge_in_any_order<T>(
    pixels: Seq<T>,
    width: nat,
    height: usize,
    workers: nat,
    a: nat,
    b: nat,
    local_a: Seq<T>,
    local_b: Seq<T>,
)
    requires
        a < workers,
        b < workers,
        a != b,
    ensures
        ({
            let band_a = Band::spec_of_worker(a, height as nat, workers);
            let band_b = Band::spec_of_worker(b, height as nat, workers);
            merged(merged(pixels, width, band_a, local_a), width, band_b, local_b) == merged(
                merged(pixels, width, band_b, local_b),
                width,
                band_a,
                local_a,
            )
        }),
{
    let band_a = Band::spec_of_worker(a, height as nat, workers);
    let band_b = Band::spec_of_worker(b, height as nat, workers);
    lemma_band_in_image(a, height as nat, workers);
    lemma_band_in_image(b, height as nat, workers);
    if a < b {
        lemma_bands_ordered(a, b, height as nat, workers);
    } else {
        lemma_bands_ordered(b, a, height as nat, workers);
    }
    lemma_merge_order(pixels, width, band_a, local_a, band_b, local_b);
}

/// A rectangular image, stored row by row.
pub struct PixelBuffer<T> {
    width: usize,
    height: usize,
    data: Vec<T>,
}

impl<T: Copy> PixelBuffer<T> {
    /// Pixels per row.
    pub closed spec fn spec_width(&self) -> nat {
        self.width as nat
    }

    /// Number of rows.
    pub closed spec fn spec_height(&self) -> nat {
        self.height as nat
    }

    /// The pixels, row by row.
    pub closed spec fn view(&self) -> Seq<T> {
        self.data@
    }

    /// The buffer holds exactly one pixel for every position of the image.
    pub open spec fn wf(&self) -> bool {
        self@.len() == self.spec_width() * self.spec_height()
    }

    /// The pixel at (`row`, `col`).
    pub open spec fn pixel(&self, row: nat, col: nat) -> T {
        self@[pixel_index(self.spec_width(), row, col) as int]
    }

    /// An image of the given size with every pixel set to `fill`.
    pub fn new(width: usize, height: usize, fill: T) -> (buffer: Self)
        requires
            width * height <= usize::MAX,
        ensures
            buffer.wf(),
            buffer.spec_width() == width,
            buffer.spec_height() == height,
            buffer@ == Seq::new((width * height) as nat, |i: int| fill),
    {
        let total: usize = width * height;
        let mut data: Vec<T> = Vec::new();
        let mut i: usize = 0;
        while i < total
            invariant
                i <= total,
                data@ == Seq::new(i as nat, |k: int| fill),
            decreases total - i,
        {
            data.push(fill);
            i += 1;
        }
        PixelBuffer { width, height, data }
    }

    /// Wraps pixels that are already in row-major order. The result is `None`
    /// exactly when their number is not `width * height`.
    pub fn from_vec(width: usize, height: usize, data: Vec<T>) -> (buffer: Option<Self>)
        ensures
            buffer is Some <==> data@.len() == width * height,
            buffer matches Some(b) ==> b.wf() && b.spec_width() == width && b.spec_height()
                == height && b@ == data@,
    {
        let count: usize = data.len();
        match width.checked_mul(height) {
            Some(total) => {
                if count == total {
                    Some(PixelBuffer { width, height, data })
                } else {
                    None
                }
            },
            None => None,
        }
    }

    /// Copies in the private buffer of the worker that rendered `band`.
    /// The rows of the band are overwritten; no other pixel changes.
    pub fn merge_band(&mut self, band: Band, local: &Vec<T>)
        requires
            old(self).wf(),
            band.start_row <= band.end_row <= old(self).spec_height(),
            local@.len() == band.rows() * old(self).spec_width(),
        ensures
            final(self).wf(),
            final(self).spec_width() == old(self).spec_width(),
            final(self).spec_height() == old(self).spec_height(),
            final(self)@ == merged(old(self)@, old(self).spec_width(), band, local@),
    {
        let width: usize = self.width;
        let total: usize = self.data.len();
        let ghost before = self.data@;
        let ghost w = width as nat;
        proof {
            assert(band.end_row * w <= self.height * w) by (nonlinear_arith)
                requires
                    band.end_row <= self.height,
            ;
            assert(band.start_row * w <= band.end_row * w) by (nonlinear_arith)
                requires
                    band.start_row <= band.end_row,
            ;
            assert((band.end_row - band.start_row) * w == band.end_row * w - band.start_row * w)
                by (nonlinear_arith);
        }
        let offset: usize = band.start_row * width;
        let mut k: usize = 0;
        while k < local.len()
            invariant
                k <= local@.len(),
                self.width == width,
                self.height == old(self).height,
                self.data@.len() == before.len(),
                before.len() == total,
                offset == band.start_row * w,
                offset + local@.len() == band.end_row * w,
                offset + local@.len() <= before.len(),
                forall|i: int|
                    0 <= i < before.len() ==> self.data@[i] == if offset <= i < offset + k {
                        local@[i - offset]
                    } else {
                        before[i]
                    },
            decreases local@.len() - k,
        {
            self.data[offset + k] = local[k];
            k += 1;
        }
    }

    /// Pixels per row.
    pub fn width(&self) -> (w: usize)
        ensures
            w == self.spec_width(),
    {
        self.width
    }

    /// Number of rows.
    pub fn height(&self) -> (h: usize)
        ensures
            h == self.spec_height(),
    {
        self.height
    }

    /// The pixel at (`row`, `col`).
    pub fn get(&self, row: usize, col: usize) -> (value: T)
        requires
            self.wf(),
            row < self.spec_height(),
            col < self.spec_width(),
        ensures
            value == self.pixel(row as nat, col as nat),
    {
        let total: usize = self.data.len();
        proof {
            lemma_pixel_index_bound(self.width as nat, self.height as nat, row as nat, col as nat);
            assert(pixel_index(self.width as nat, row as nat, col as nat) < total);
        }
        self.data[row * self.width + col]
    }

    /// The pixels, row by row.
    pub fn pixels(&self) -> (data: &Vec<T>)
        ensures
            data@ == self@,
    {
        &self.data
    }
}

/// Renders the rows of `band`: calls `shade` once for every pixel of every
/// row, rows from top to bottom and each row from left to right, and stores
/// the results in that order. What `shade` returns for (`row`, `col`) ends up
/// at `local_pixel(.., row, col)`.
pub fn render_band<T, F: Fn(usize, usize) -> T>(band: Band, width: usize, shade: F) -> (local: Vec<T>)
    requires
        band.start_row <= band.end_row,
        band.rows() * width <= usize::MAX,
        forall|row: usize, col: usize|
            band.contains(row as nat) && col < width ==> call_requires(shade, (row, col)),
    ensures
        local@.len() == band.rows() * width,
        forall|row: usize, col: usize|
            band.contains(row as nat) && col < width ==> call_ensures(
                shade,
                (row, col),
                #[trigger] local_pixel(local@, width as nat, band, row as nat, col as nat),
            ),
{
    let mut local: Vec<T> = Vec::new();
    let mut row: usize = band.start_row;
    while row < band.end_row
        invariant
            band.start_row <= row <= band.end_row,
            local@.len() == (row - band.start_row) * width,
            forall|r: usize, c: usize|
                band.contains(r as nat) && c < width ==> call_requires(shade, (r, c)),
            forall|r: usize, c: usize|
                band.start_row <= r < row && c < width ==> call_ensures(
                    shade,
                    (r, c),
                    #[trigger] local_pixel(local@, width as nat, band, r as nat, c as nat),
                ),
        decreases band.end_row - row,
    {
        let mut col: usize = 0;
        while col < width
            invariant
                band.start_row <= row < band.end_row,
                col <= width,
                local@.len() == (row - band.start_row) * width + col,
                forall|r: usize, c: usize|
                    band.contains(r as nat) && c < width ==> call_requires(shade, (r, c)),
                forall|r: usize, c: usize|
                    (band.start_row <= r < row && c < width) || (r == row && c < col)
                        ==> call_ensures(
                        shade,
                        (r, c),
                        #[trigger] local_pixel(local@, width as nat, band, r as nat, c as nat),
                    ),
            decreases width - col,
        {
            let ghost before = local@;
            let value = shade(row, col);
            local.push(value);
            proof {
                assert forall|r: usize, c: usize|
                    (band.start_row <= r < row && c < width) || (r == row && c < col + 1)
                        implies call_ensures(
                    shade,
                    (r, c),
                    #[trigger] local_pixel(local@, width as nat, band, r as nat, c as nat),
                ) by {
                    if r == row && c == col {
                        assert(local_pixel(local@, width as nat, band, r as nat, c as nat)
                            == value);
                    } else {
                        if r < row {
                            lemma_pixel_index_bound(
                                width as nat,
                                (row - band.start_row) as nat,
                                (r - band.start_row) as nat,
                                c as nat,
                            );
                        }
                        assert(local_pixel(local@, width as nat, band, r as nat, c as nat)
                            == local_pixel(before, width as nat, band, r as nat, c as nat));
                    }
                }
            }
            col += 1;
        }
        proof {
            assert((row - band.start_row) * width + width == (row + 1 - band.start_row) * width)
                by (nonlinear_arith);
        }
        row += 1;
    }
    local
}

} // verus!
