//! RGB page images: search highlights and whitespace cropping.

use crate::arith::{excess, least};
use crate::intervals::{
    covered, highlight_intervals_per_row, highlighted, in_run, inside, lemma_covered_push,
    runs_apart, runs_fit,
};
use crate::renderer::HighlightRect;
use rayon::iter::{IndexedParallelIterator, IntoParallelRefIterator, ParallelIterator};
use rayon::slice::{ParallelSlice, ParallelSliceMut};
use vstd::math::{max, min};
use vstd::prelude::*;

verus! {

/// A pixel with a channel below this value is page content.
pub const CROP_WHITESPACE_THRESHOLD: u8 = 240;

/// Pixels of whitespace that cropping leaves around the content.
pub const CROP_MARGIN: u32 = 8;

/// Images with fewer pixels are processed on the calling thread.
pub const PAR_PIXEL_CUTOFF: u32 = 65536;

/// How much a highlight takes off the blue channel.
pub const BLUE_DIM: u8 = 127;

/// Bytes `y * stride` up to `(y + 1) * stride`.
pub open spec fn chunk(bytes: Seq<u8>, stride: int, y: int) -> Seq<u8> {
    bytes.subrange(y * stride, y * stride + stride)
}

/// The mathematical view of an image: its rows, three bytes (red, green, blue)
/// for each pixel, and the bytes after the last row.
#[verifier::ext_equal]
pub struct Raster {
    pub width: nat,
    pub rows: Seq<Seq<u8>>,
    pub beyond: Seq<u8>,
}

impl Raster {
    pub open spec fn wf(self) -> bool {
        forall|y: int| 0 <= y < self.rows.len() ==> (#[trigger] self.rows[y]).len() == 3 * self.width
    }
}

/// An image whose bytes are its rows from top to bottom without padding, three
/// bytes (red, green, blue) for each pixel. Bytes may follow the last row; they
/// are no pixels.
#[derive(Debug)]
pub struct RgbImage {
    pub width: u32,
    pub height: u32,
    pub data: Vec<u8>,
}

impl View for RgbImage {
    type V = Raster;

    open spec fn view(&self) -> Raster {
        Raster {
            width: self.width as nat,
            rows: Seq::new(self.height as nat, |y: int| chunk(self.data@, 3 * self.width, y)),
            beyond: self.data@.skip(self.height * (3 * self.width)),
        }
    }
}

impl RgbImage {
    /// There are at least as many bytes as the dimensions ask for.
    pub open spec fn wf(self) -> bool {
        self.data@.len() >= self.height * (3 * self.width)
    }

    /// There are exactly as many bytes as the dimensions ask for.
    pub open spec fn exact(self) -> bool {
        self.data@.len() == self.height * (3 * self.width)
    }
}

/// What a highlight makes of a blue channel.
pub open spec fn dimmed(blue: u8) -> u8 {
    if blue >= BLUE_DIM {
        (blue - BLUE_DIM) as u8
    } else {
        0
    }
}

/// A row with the pixels of `runs` highlighted.
pub open spec fn shaded(row: Seq<u8>, runs: Seq<(u32, u32)>) -> Seq<u8> {
    Seq::new(
        row.len(),
        |k: int|
            if k % 3 == 2 && covered(runs, k / 3) {
                dimmed(row[k])
            } else {
                row[k]
            },
    )
}

/// The image with every pixel inside one of the rectangles highlighted.
pub open spec fn with_highlights(r: Raster, rects: Seq<HighlightRect>) -> Raster {
    Raster {
        beyond: r.beyond,
        width: r.width,
        rows: Seq::new(
            r.rows.len(),
            |y: int|
                Seq::new(
                    r.rows[y].len(),
                    |k: int|
                        if k % 3 == 2 && highlighted(rects, k / 3, y) {
                            dimmed(r.rows[y][k])
                        } else {
                            r.rows[y][k]
                        },
                ),
        ),
    }
}

/// Pixel `x` of the row is content.
pub open spec fn row_ink(row: Seq<u8>, x: int) -> bool {
    ||| row[3 * x] < CROP_WHITESPACE_THRESHOLD
    ||| row[3 * x + 1] < CROP_WHITESPACE_THRESHOLD
    ||| row[3 * x + 2] < CROP_WHITESPACE_THRESHOLD
}

/// Pixel `(x, y)` of the image is content.
pub open spec fn ink(r: Raster, x: int, y: int) -> bool {
    &&& 0 <= x < r.width
    &&& 0 <= y < r.rows.len()
    &&& row_ink(r.rows[y], x)
}

/// The image is not blank.
pub open spec fn has_ink(r: Raster) -> bool {
    exists|x: int, y: int| ink(r, x, y)
}

/// The columns and rows of the first and the last content.
pub struct ContentBox {
    pub min_x: int,
    pub max_x: int,
    pub min_y: int,
    pub max_y: int,
}

/// `b` is the smallest box around the content.
pub open spec fn is_content_box(r: Raster, b: ContentBox) -> bool {
    &&& exists|y: int| ink(r, b.min_x, y)
    &&& exists|y: int| ink(r, b.max_x, y)
    &&& exists|x: int| ink(r, x, b.min_y)
    &&& exists|x: int| ink(r, x, b.max_y)
    &&& forall|x: int, y: int| #[trigger]
        ink(r, x, y) ==> b.min_x <= x <= b.max_x && b.min_y <= y <= b.max_y
}

/// The smallest box around the content of an image that has some.
pub open spec fn content_box(r: Raster) -> ContentBox {
    choose|b: ContentBox| is_content_box(r, b)
}

/// The part of the image from `(x0, y0)` up to, but without, `(x1, y1)`.
pub open spec fn cropped(r: Raster, x0: int, y0: int, x1: int, y1: int) -> Raster {
    Raster {
        width: (x1 - x0) as nat,
        rows: Seq::new((y1 - y0) as nat, |i: int| r.rows[y0 + i].subrange(3 * x0, 3 * x1)),
        beyond: Seq::empty(),
    }
}

/// The image with the bytes after its last row taken for rows as well.
pub open spec fn all_rows(r: Raster) -> Raster {
    Raster {
        width: r.width,
        rows: r.rows + Seq::new(
            r.beyond.len() / (3 * r.width),
            |i: int| chunk(r.beyond, 3 * r.width as int, i),
        ),
        beyond: Seq::empty(),
    }
}

/// There is something to cut the image down to.
pub open spec fn has_content(r: Raster) -> bool {
    r.rows.len() > 0 && r.width > 0 && has_ink(all_rows(r))
}

/// The image cut down to its content and a margin around it; a blank image as
/// it is. Content after the last row counts as well, but no row beyond it is
/// kept.
pub open spec fn without_margins(r: Raster) -> Raster {
    if has_content(r) {
        let b = content_box(all_rows(r));
        cropped(
            r,
            excess(b.min_x, CROP_MARGIN as int),
            excess(least(b.min_y, r.rows.len() as int), CROP_MARGIN as int),
            least(b.max_x + CROP_MARGIN + 1, r.width as int),
            least(b.max_y + CROP_MARGIN + 1, r.rows.len() as int),
        )
    } else {
        r
    }
}

/// The image can be cropped: what follows its last row are whole rows, and all
/// rows can be counted in 32 bits.
pub open spec fn croppable(r: Raster) -> bool {
    r.rows.len() > 0 && r.width > 0 ==> r.beyond.len() % (3 * r.width) == 0 && r.rows.len()
        + r.beyond.len() / (3 * r.width) <= 0x1_0000_0000
}

/// The image can be highlighted: nothing follows its last row, unless nothing
/// is to be done.
pub open spec fn highlightable(r: Raster, rects: Seq<HighlightRect>) -> bool {
    rects.len() > 0 && r.rows.len() > 0 && r.width > 0 ==> r.beyond.len() == 0
}

/// An image has at most one smallest box around its content.
pub proof fn lemma_content_box_unique(r: Raster, b: ContentBox)
    requires
        is_content_box(r, b),
    ensures
        has_ink(r),
        content_box(r) == b,
{
    let y = choose|y: int| ink(r, b.min_x, y);
    assert(ink(r, b.min_x, y));
    let c = content_box(r);
    assert(is_content_box(r, c));
    let cy0 = choose|y: int| ink(r, c.min_x, y);
    let cy1 = choose|y: int| ink(r, c.max_x, y);
    let cx0 = choose|x: int| ink(r, x, c.min_y);
    let cx1 = choose|x: int| ink(r, x, c.max_y);
    let by0 = choose|y: int| ink(r, b.min_x, y);
    let by1 = choose|y: int| ink(r, b.max_x, y);
    let bx0 = choose|x: int| ink(r, x, b.min_y);
    let bx1 = choose|x: int| ink(r, x, b.max_y);
    assert(ink(r, c.min_x, cy0) && ink(r, c.max_x, cy1) && ink(r, cx0, c.min_y) && ink(
        r,
        cx1,
        c.max_y,
    ));
    assert(ink(r, b.min_x, by0) && ink(r, b.max_x, by1) && ink(r, bx0, b.min_y) && ink(
        r,
        bx1,
        b.max_y,
    ));
}

pub proof fn lemma_chunk_bounds(len: int, stride: int, rows: int, y: int)
    by (nonlinear_arith)
    requires
        len == rows * stride,
        0 <= stride,
        0 <= y < rows,
    ensures
        0 <= y * stride,
        y * stride + stride <= len,
        (y + 1) * stride == y * stride + stride,
{
}

pub proof fn lemma_chunk_order(stride: int, a: int, b: int)
    by (nonlinear_arith)
    requires
        0 <= stride,
        0 <= a < b,
    ensures
        a * stride + stride <= b * stride,
{
}

/// The content of one row: whether there is any, and its first and last column.
#[derive(Debug)]
pub struct RowBounds {
    pub min_x: u32,
    pub max_x: u32,
    pub has_content: bool,
}

impl RowBounds {
    /// These are the bounds of the content of `row`, which is `width` pixels wide.
    pub open spec fn describes(self, row: Seq<u8>, width: int) -> bool {
        &&& self.has_content <==> exists|x: int| 0 <= x < width && #[trigger] row_ink(row, x)
        &&& self.has_content ==> {
            &&& 0 <= self.min_x < width
            &&& 0 <= self.max_x < width
            &&& row_ink(row, self.min_x as int)
            &&& row_ink(row, self.max_x as int)
        }
        &&& forall|x: int|
            0 <= x < width && #[trigger] row_ink(row, x) ==> self.min_x <= x <= self.max_x
        &&& !self.has_content ==> self.min_x == width && self.max_x == 0
    }
}

/// The bounds of the content of the `width` pixels from byte `base` on.
fn scan_row(pixels: &[u8], base: usize, width: u32) -> (bounds: RowBounds)
    requires
        base + 3 * width <= pixels@.len(),
    ensures
        bounds.describes(pixels@.subrange(base as int, base + 3 * width), width as int),
{
    let ghost row = pixels@.subrange(base as int, base + 3 * width);
    let len: usize = pixels.len();
    let mut min_x: u32 = width;
    let mut max_x: u32 = 0;
    let mut has_content: bool = false;
    let mut x: u32 = 0;
    while x < width
        invariant
            x <= width,
            base + 3 * width <= len == pixels@.len(),
            row == pixels@.subrange(base as int, base + 3 * width),
            has_content <==> exists|k: int| 0 <= k < x && #[trigger] row_ink(row, k),
            has_content ==> min_x < x && max_x < x && row_ink(row, min_x as int) && row_ink(
                row,
                max_x as int,
            ),
            forall|k: int| 0 <= k < x && #[trigger] row_ink(row, k) ==> min_x <= k <= max_x,
            !has_content ==> min_x == width && max_x == 0,
        decreases width - x,
    {
        let at: usize = base + x as usize * 3;
        proof {
            assert(row[3 * x] == pixels@[at as int]);
            assert(row[3 * x + 1] == pixels@[at + 1]);
            assert(row[3 * x + 2] == pixels@[at + 2]);
        }
        if pixels[at] < CROP_WHITESPACE_THRESHOLD || pixels[at + 1] < CROP_WHITESPACE_THRESHOLD
            || pixels[at + 2] < CROP_WHITESPACE_THRESHOLD {
            assert(row_ink(row, x as int));
            has_content = true;
            if x < min_x {
                min_x = x;
            }
            if x > max_x {
                max_x = x;
            }
        }
        x += 1;
    }
    RowBounds { min_x, max_x, has_content }
}

/// Nothing but bytes `base` up to `base + len` has changed, and those are now `row`.
pub open spec fn row_replaced(
    before: Seq<u8>,
    after: Seq<u8>,
    base: int,
    len: int,
    row: Seq<u8>,
) -> bool {
    &&& after.len() == before.len()
    &&& after.subrange(base, base + len) == row
    &&& forall|k: int|
        0 <= k < before.len() && !(base <= k < base + len) ==> #[trigger] after[k] == before[k]
}

/// Highlights the pixels of `runs` in the row of `width` pixels from byte `base` on.
fn highlight_row(pixels: &mut [u8], base: usize, width: u32, runs: &Vec<(u32, u32)>)
    requires
        base + 3 * width <= old(pixels)@.len(),
        runs_fit(runs@, width),
        runs_apart(runs@),
    ensures
        row_replaced(
            old(pixels)@,
            final(pixels)@,
            base as int,
            3 * width,
            shaded(old(pixels)@.subrange(base as int, base + 3 * width), runs@),
        ),
{
    let ghost before = pixels@;
    let len: usize = pixels.len();
    let mut i: usize = 0;
    while i < runs.len()
        invariant
            i <= runs@.len(),
            before == old(pixels)@,
            base + 3 * width <= len == before.len(),
            pixels@.len() == before.len(),
            runs_fit(runs@, width),
            runs_apart(runs@),
            forall|k: int|
                0 <= k < before.len() ==> #[trigger] pixels@[k] == if base <= k < base + 3 * width
                    && (k - base) % 3 == 2 && covered(runs@.take(i as int), (k - base) / 3) {
                    dimmed(before[k])
                } else {
                    before[k]
                },
        decreases runs@.len() - i,
    {
        let run: (u32, u32) = runs[i];
        let ghost at_run = pixels@;
        let mut x: u32 = run.0;
        while x < run.1
            invariant
                run.0 <= x <= run.1 <= width,
                base + 3 * width <= len == before.len(),
                pixels@.len() == before.len(),
                at_run.len() == before.len(),
                forall|k: int|
                    0 <= k < before.len() ==> #[trigger] pixels@[k] == if base <= k < base + 3
                        * width && (k - base) % 3 == 2 && run.0 <= (k - base) / 3 < x {
                        dimmed(at_run[k])
                    } else {
                        at_run[k]
                    },
            decreases run.1 - x,
        {
            let at: usize = base + x as usize * 3 + 2;
            pixels[at] = pixels[at].saturating_sub(BLUE_DIM);
            x += 1;
        }
        proof {
            assert(runs@.take(i + 1) =~= runs@.take(i as int).push(run));
            assert forall|k: int| 0 <= k < before.len() implies #[trigger] pixels@[k] == if base
                <= k < base + 3 * width && (k - base) % 3 == 2 && covered(
                runs@.take(i + 1),
                (k - base) / 3,
            ) {
                dimmed(before[k])
            } else {
                before[k]
            } by {
                lemma_covered_push(runs@.take(i as int), run, (k - base) / 3);
                assert(at_run[k] == if base <= k < base + 3 * width && (k - base) % 3 == 2
                    && covered(runs@.take(i as int), (k - base) / 3) {
                    dimmed(before[k])
                } else {
                    before[k]
                });
                if in_run(run, (k - base) / 3) && covered(runs@.take(i as int), (k - base) / 3) {
                    let j = choose|j: int|
                        0 <= j < runs@.take(i as int).len() && #[trigger] in_run(
                            runs@.take(i as int)[j],
                            (k - base) / 3,
                        );
                    assert(runs@[j].1 < runs@[i as int].0);
                }
            }
        }
        i += 1;
    }
    proof {
        assert(runs@.take(i as int) =~= runs@);
        let row = before.subrange(base as int, base + 3 * width);
        assert(pixels@.subrange(base as int, base + 3 * width) =~= shaded(row, runs@));
    }
}

/// Highlights the pixels of `runs` in the row of `width` pixels from byte
/// `base` on, and returns the bounds of the content of the row as it then is.
fn highlight_and_scan_row(
    pixels: &mut [u8],
    base: usize,
    width: u32,
    runs: &Vec<(u32, u32)>,
) -> (bounds: RowBounds)
    requires
        base + 3 * width <= old(pixels)@.len(),
        runs_fit(runs@, width),
        runs_apart(runs@),
    ensures
        row_replaced(
            old(pixels)@,
            final(pixels)@,
            base as int,
            3 * width,
            shaded(old(pixels)@.subrange(base as int, base + 3 * width), runs@),
        ),
        bounds.describes(
            shaded(old(pixels)@.subrange(base as int, base + 3 * width), runs@),
            width as int,
        ),
{
    let ghost before = pixels@;
    let len: usize = pixels.len();
    let ghost row = shaded(before.subrange(base as int, base + 3 * width), runs@);
    let mut next_run: usize = 0;
    let mut min_x: u32 = width;
    let mut max_x: u32 = 0;
    let mut has_content: bool = false;
    let mut x: u32 = 0;
    while x < width
        invariant
            x <= width,
            base + 3 * width <= len == before.len(),
            pixels@.len() == before.len(),
            runs_fit(runs@, width),
            runs_apart(runs@),
            row == shaded(before.subrange(base as int, base + 3 * width), runs@),
            next_run <= runs@.len(),
            forall|j: int| 0 <= j < next_run ==> (#[trigger] runs@[j]).1 <= x,
            forall|k: int|
                0 <= k < before.len() ==> #[trigger] pixels@[k] == if base <= k < base + 3 * x {
                    row[k - base]
                } else {
                    before[k]
                },
            has_content <==> exists|k: int| 0 <= k < x && #[trigger] row_ink(row, k),
            has_content ==> min_x < x && max_x < x && row_ink(row, min_x as int) && row_ink(
                row,
                max_x as int,
            ),
            forall|k: int| 0 <= k < x && #[trigger] row_ink(row, k) ==> min_x <= k <= max_x,
            !has_content ==> min_x == width && max_x == 0,
        decreases width - x,
    {
        while next_run < runs.len() && x >= runs[next_run].1
            invariant
                next_run <= runs@.len(),
                forall|j: int| 0 <= j < next_run ==> (#[trigger] runs@[j]).1 <= x,
            decreases runs@.len() - next_run,
        {
            next_run += 1;
        }
        let at: usize = base + x as usize * 3;
        let lit: bool = next_run < runs.len() && x >= runs[next_run].0;
        proof {
            if lit {
                assert(in_run(runs@[next_run as int], x as int));
            } else if covered(runs@, x as int) {
                let j = choose|j: int| 0 <= j < runs@.len() && #[trigger] in_run(runs@[j], x as int);
                assert(j > next_run);
                assert(runs@[next_run as int].1 < runs@[j].0);
            }
            assert(lit <==> covered(runs@, x as int));
        }
        if lit {
            pixels[at + 2] = pixels[at + 2].saturating_sub(BLUE_DIM);
        }
        let red: u8 = pixels[at];
        let green: u8 = pixels[at + 1];
        let blue: u8 = pixels[at + 2];
        proof {
            assert((3 * x) / 3 == x && (3 * x + 1) / 3 == x && (3 * x + 2) / 3 == x);
            assert(row[3 * x] == red);
            assert(row[3 * x + 1] == green);
            assert(row[3 * x + 2] == blue);
        }
        if red < CROP_WHITESPACE_THRESHOLD || green < CROP_WHITESPACE_THRESHOLD || blue
            < CROP_WHITESPACE_THRESHOLD {
            assert(row_ink(row, x as int));
            has_content = true;
            if x < min_x {
                min_x = x;
            }
            if x > max_x {
                max_x = x;
            }
        }
        x += 1;
    }
    proof {
        assert(pixels@.subrange(base as int, base + 3 * width) =~= row);
    }
    RowBounds { min_x, max_x, has_content }
}

/// Scans the rows of `pixels`, each `stride` bytes long, on rayon's thread pool.
///
/// Trusted: `par_chunks(stride)` splits the slice into consecutive pieces of
/// `stride` bytes, and `map` and `collect` hand back one result for each piece,
/// in the order of the pieces; rayon is taken to do no more than that. What one
/// piece gives is proved of [`scan_row`]. Rayon refuses a zero `stride`.
#[verifier::external_body]
fn scan_rows_on_pool(pixels: &[u8], stride: usize, width: u32) -> (bounds: Vec<RowBounds>)
    requires
        0 < stride == 3 * width,
        pixels@.len() % (stride as nat) == 0,
    ensures
        bounds@.len() == pixels@.len() / (stride as nat),
        forall|y: int|
            0 <= y < bounds@.len() ==> (#[trigger] bounds@[y]).describes(
                chunk(pixels@, stride as int, y),
                width as int,
            ),
{
    pixels.par_chunks(stride).map(|row| scan_row(row, 0, width)).collect()
}

/// Highlights the rows of `pixels`, each `stride` bytes long, on rayon's thread
/// pool.
///
/// Trusted: `par_chunks_mut(stride)` splits the slice into consecutive pieces
/// of `stride` bytes, and `zip` and `for_each` hand each piece, together with
/// the runs at the same position, to the closure once. What that does to a
/// piece is proved of [`highlight_row`]. Rayon refuses a zero `stride`.
#[verifier::external_body]
fn highlight_rows_on_pool(
    pixels: &mut [u8],
    stride: usize,
    width: u32,
    rows: &Vec<Vec<(u32, u32)>>,
)
    requires
        0 < stride == 3 * width,
        old(pixels)@.len() % (stride as nat) == 0,
        rows@.len() == old(pixels)@.len() / (stride as nat),
        forall|y: int|
            0 <= y < rows@.len() ==> runs_fit((#[trigger] rows@[y])@, width) && runs_apart(
                rows@[y]@,
            ),
    ensures
        final(pixels)@.len() == old(pixels)@.len(),
        forall|y: int|
            0 <= y < rows@.len() ==> chunk(final(pixels)@, stride as int, y) == shaded(
                chunk(old(pixels)@, stride as int, y),
                (#[trigger] rows@[y])@,
            ),
{
    pixels.par_chunks_mut(stride).zip(rows.par_iter()).for_each(
        |(row, runs)| highlight_row(row, 0, width, runs),
    )
}

/// Highlights and scans the rows of `pixels`, each `stride` bytes long, on
/// rayon's thread pool.
///
/// Trusted: as for [`highlight_rows_on_pool`], and `map` and `collect` hand
/// back one result for each piece, in the order of the pieces. What is done
/// with a piece is proved of [`highlight_and_scan_row`].
#[verifier::external_body]
fn highlight_and_scan_rows_on_pool(
    pixels: &mut [u8],
    stride: usize,
    width: u32,
    rows: &Vec<Vec<(u32, u32)>>,
) -> (bounds: Vec<RowBounds>)
    requires
        0 < stride == 3 * width,
        old(pixels)@.len() % (stride as nat) == 0,
        rows@.len() == old(pixels)@.len() / (stride as nat),
        forall|y: int|
            0 <= y < rows@.len() ==> runs_fit((#[trigger] rows@[y])@, width) && runs_apart(
                rows@[y]@,
            ),
    ensures
        final(pixels)@.len() == old(pixels)@.len(),
        bounds@.len() == rows@.len(),
        forall|y: int|
            0 <= y < rows@.len() ==> chunk(final(pixels)@, stride as int, y) == shaded(
                chunk(old(pixels)@, stride as int, y),
                (#[trigger] rows@[y])@,
            ),
        forall|y: int|
            0 <= y < bounds@.len() ==> (#[trigger] bounds@[y]).describes(
                chunk(final(pixels)@, stride as int, y),
                width as int,
            ),
{
    pixels.par_chunks_mut(stride).zip(rows.par_iter()).map(
        |(row, runs)| highlight_and_scan_row(row, 0, width, runs),
    ).collect()
}

/// The `width` by `height` part of the image whose upper left pixel is `(x, y)`.
///
/// Trusted: `image::imageops::crop_imm` views the part of the image that
/// starts at `(x, y)`, and `to_image` copies it pixel by pixel into an image of
/// its own; bytes after the last row are no pixels and are not copied. The crate
/// clips a part that sticks out; `requires` admits none. It takes no image with
/// too few bytes, and none whose rows are longer than a machine word counts.
#[verifier::external_body]
fn crop_image(img: RgbImage, x: u32, y: u32, width: u32, height: u32) -> (part: RgbImage)
    requires
        img.wf(),
        3 * img.width <= usize::MAX,
        x + width <= img.width,
        y + height <= img.height,
    ensures
        part.exact(),
        part.width == width,
        part.height == height,
        part@ == cropped(img@, x as int, y as int, x + width, y + height),
{
    let whole = image::RgbImage::from_raw(img.width, img.height, img.data)
        .expect("an image has the bytes that its dimensions ask for");
    let part = image::imageops::crop_imm(&whole, x, y, width, height).to_image();
    RgbImage { width: part.width(), height: part.height(), data: part.into_raw() }
}

proof fn lemma_rows_of(len: nat, stride: nat, rows: nat)
    requires
        len == rows * stride,
        0 < stride,
    ensures
        len % stride == 0,
        len / stride == rows,
{
    vstd::arithmetic::div_mod::lemma_mod_multiples_basic(rows as int, stride as int);
    vstd::arithmetic::div_mod::lemma_div_by_multiple(rows as int, stride as int);
}

/// Replacing row `y` leaves the other rows as they were.
proof fn lemma_row_replaced_chunks(
    before: Seq<u8>,
    after: Seq<u8>,
    stride: int,
    rows: int,
    y: int,
    row: Seq<u8>,
)
    requires
        before.len() == rows * stride,
        0 <= stride,
        0 <= y < rows,
        row_replaced(before, after, y * stride, stride, row),
    ensures
        chunk(after, stride, y) == row,
        forall|k: int|
            0 <= k < rows && k != y ==> #[trigger] chunk(after, stride, k) == chunk(
                before,
                stride,
                k,
            ),
{
    assert forall|k: int| 0 <= k < rows && k != y implies #[trigger] chunk(after, stride, k)
        == chunk(before, stride, k) by {
        lemma_chunk_bounds(before.len() as int, stride, rows, k);
        lemma_chunk_bounds(before.len() as int, stride, rows, y);
        if k < y {
            lemma_chunk_order(stride, k, y);
        } else {
            lemma_chunk_order(stride, y, k);
        }
        assert(chunk(after, stride, k) =~= chunk(before, stride, k));
    }
}

/// An image whose rows are the highlighted rows of another is that image with
/// highlights.
proof fn lemma_highlighted_rows(
    before: RgbImage,
    after: RgbImage,
    rects: Seq<HighlightRect>,
    rows: Seq<Vec<(u32, u32)>>,
)
    requires
        before.exact(),
        after.width == before.width,
        after.height == before.height,
        after.data@.len() == before.data@.len(),
        rows.len() == before.height,
        forall|x: int, y: int|
            0 <= x < before.width && 0 <= y < before.height ==> (#[trigger] covered(rows[y]@, x)
                <==> highlighted(rects, x, y)),
        forall|y: int|
            0 <= y < before.height ==> chunk(after.data@, 3 * before.width, y) == shaded(
                chunk(before.data@, 3 * before.width, y),
                (#[trigger] rows[y])@,
            ),
    ensures
        after@ == with_highlights(before@, rects),
{
    let expected = with_highlights(before@, rects);
    assert(after@.rows.len() == expected.rows.len());
    assert forall|y: int| 0 <= y < before.height implies #[trigger] after@.rows[y]
        == expected.rows[y] by {
        lemma_chunk_bounds(
            before.data@.len() as int,
            3 * before.width,
            before.height as int,
            y,
        );
        assert(rows[y]@ == rows[y]@);
        assert(before@.rows[y].len() == 3 * before.width);
        assert forall|k: int| 0 <= k < 3 * before.width implies after@.rows[y][k]
            == expected.rows[y][k] by {
            assert(0 <= k / 3 < before.width);
            assert(covered(rows[y]@, k / 3) <==> highlighted(rects, k / 3, y));
        }
        assert(after@.rows[y] =~= expected.rows[y]);
    }
    assert(after@.rows =~= expected.rows);
    assert(after@.beyond =~= expected.beyond);
}

/// An image with so few pixels is not worth handing out to other threads.
fn is_small(width: u32, height: u32) -> (small: bool)
    ensures
        small == (width * height < PAR_PIXEL_CUTOFF),
{
    proof {
        assert(width * height <= 0xffff_ffff * 0xffff_ffff) by (nonlinear_arith)
            requires
                0 <= width <= 0xffff_ffff,
                0 <= height <= 0xffff_ffff,
        ;
        assert(0 <= width * height) by (nonlinear_arith);
    }
    (width as u64) * (height as u64) < PAR_PIXEL_CUTOFF as u64
}

/// Highlights, in place, every pixel inside one of the rectangles.
pub fn apply_search_highlights(img: &mut RgbImage, rects: &[HighlightRect])
    requires
        old(img).wf(),
        highlightable(old(img)@, rects@),
    ensures
        final(img).wf(),
        final(img).width == old(img).width,
        final(img).height == old(img).height,
        final(img)@ == with_highlights(old(img)@, rects@),
{
    let ghost before = *img;
    let width: u32 = img.width;
    let height: u32 = img.height;
    if rects.len() == 0 || width == 0 || height == 0 {
        proof {
            assert forall|y: int| 0 <= y < height implies #[trigger] with_highlights(
                before@,
                rects@,
            ).rows[y] == before@.rows[y] by {
                lemma_chunk_bounds(height * (3 * width), 3 * width, height as int, y);
                assert(with_highlights(before@, rects@).rows[y] =~= before@.rows[y]);
            }
            assert(with_highlights(before@, rects@).rows =~= before@.rows);
        }
        return ;
    }
    let rows = highlight_intervals_per_row(rects, width, height);
    let len: usize = img.data.len();
    proof {
        assert(before.exact());
        lemma_chunk_bounds(len as int, 3 * width, height as int, 0);
        lemma_rows_of(len as nat, (3 * width) as nat, height as nat);
    }
    let stride: usize = width as usize * 3;
    if is_small(width, height) {
        let mut y: usize = 0;
        while y < height as usize
            invariant
                y <= height,
                stride == 3 * width,
                img.width == width,
                img.height == height,
                before.width == width,
                before.height == height,
                before.exact(),
                len == height * stride,
                img.data@.len() == len,
                rows@.len() == height,
                forall|k: int|
                    0 <= k < height ==> runs_fit((#[trigger] rows@[k])@, width) && runs_apart(
                        rows@[k]@,
                    ),
                forall|k: int|
                    0 <= k < y ==> chunk(img.data@, stride as int, k) == shaded(
                        chunk(before.data@, stride as int, k),
                        (#[trigger] rows@[k])@,
                    ),
                forall|k: int|
                    y <= k < height ==> #[trigger] chunk(img.data@, stride as int, k) == chunk(
                        before.data@,
                        stride as int,
                        k,
                    ),
            decreases height - y,
        {
            let ghost was = img.data@;
            proof {
                lemma_chunk_bounds(len as int, stride as int, height as int, y as int);
            }
            let base: usize = y * stride;
            highlight_row(img.data.as_mut_slice(), base, width, &rows[y]);
            proof {
                assert(chunk(was, stride as int, y as int) == chunk(
                    before.data@,
                    stride as int,
                    y as int,
                ));
                lemma_row_replaced_chunks(
                    was,
                    img.data@,
                    stride as int,
                    height as int,
                    y as int,
                    shaded(chunk(was, stride as int, y as int), rows@[y as int]@),
                );
            }
            y += 1;
        }
    } else {
        highlight_rows_on_pool(img.data.as_mut_slice(), stride, width, &rows);
    }
    proof {
        lemma_highlighted_rows(before, *img, rects@, rows@);
    }
}

/// The rows of an image and those after its last one are the pieces of its
/// bytes.
proof fn lemma_all_rows(img: RgbImage)
    requires
        img.wf(),
        0 < img.width,
        img.data@.len() % (3 * img.width as nat) == 0,
    ensures
        img@.beyond.len() % (3 * img.width as nat) == 0,
        all_rows(img@).rows.len() == img.data@.len() / (3 * img.width as nat),
        all_rows(img@).rows.len() == img.height + img@.beyond.len() / (3 * img.width as nat),
        forall|y: int|
            0 <= y < all_rows(img@).rows.len() ==> #[trigger] all_rows(img@).rows[y] == chunk(
                img.data@,
                3 * img.width,
                y,
            ),
{
    let len = img.data@.len() as int;
    let stride = 3 * img.width as int;
    let height = img.height as int;
    let n = len / stride;
    let more = n - height;
    assert(len == n * stride) by {
        vstd::arithmetic::div_mod::lemma_fundamental_div_mod(len, stride);
        assert(stride * n == n * stride) by (nonlinear_arith);
    }
    assert(0 <= more && len - height * stride == more * stride) by (nonlinear_arith)
        requires
            len == n * stride,
            len >= height * stride,
            0 < stride,
            more == n - height,
    ;
    assert(img@.beyond.len() == more * stride);
    lemma_rows_of(img@.beyond.len(), stride as nat, more as nat);
    let r = all_rows(img@);
    assert forall|y: int| 0 <= y < r.rows.len() implies #[trigger] r.rows[y] == chunk(
        img.data@,
        stride,
        y,
    ) by {
        lemma_chunk_bounds(len, stride, n, y);
        if y >= height {
            let k = y - height;
            lemma_chunk_bounds(more * stride, stride, more, k);
            assert(k * stride == y * stride - height * stride) by (nonlinear_arith)
                requires
                    k == y - height,
            ;
            assert(r.rows[y] == chunk(img@.beyond, stride, k));
            assert(chunk(img@.beyond, stride, k) =~= chunk(img.data@, stride, y));
        }
    }
}

/// Nothing follows the last row of an image that has exactly its bytes.
proof fn lemma_exact(img: RgbImage)
    requires
        img.exact(),
    ensures
        img@.beyond.len() == 0,
        0 < img.width ==> all_rows(img@) == img@,
{
    if 0 < img.width {
        lemma_rows_of(img.data@.len(), 3 * img.width as nat, img.height as nat);
        lemma_all_rows(img);
        assert(all_rows(img@).rows =~= img@.rows);
        assert(img@.beyond =~= Seq::empty());
    }
}

/// Cuts the image down to its content and a margin, given the bounds of every
/// row.
fn crop_to_bounds(img: RgbImage, bounds: &Vec<RowBounds>) -> (out: RgbImage)
    requires
        img.wf(),
        0 < img.width,
        0 < img.height,
        bounds@.len() == all_rows(img@).rows.len(),
        forall|y: int|
            0 <= y < bounds@.len() ==> (#[trigger] bounds@[y]).describes(
                all_rows(img@).rows[y],
                img.width as int,
            ),
    ensures
        out.wf(),
        out@ == without_margins(img@),
{
    let ghost r = all_rows(img@);
    let width: u32 = img.width;
    let height: u32 = img.height;
    let n: usize = bounds.len();
    let mut min_x: u32 = width;
    let mut max_x: u32 = 0;
    let mut min_y: usize = n;
    let mut max_y: usize = 0;
    let mut saw_content: bool = false;
    let mut y: usize = 0;
    while y < n
        invariant
            y <= n,
            width == img.width,
            r == all_rows(img@),
            bounds@.len() == n,
            r.rows.len() == n,
            forall|k: int|
                0 <= k < n ==> (#[trigger] bounds@[k]).describes(r.rows[k], width as int),
            saw_content <==> exists|x: int, k: int| k < y && #[trigger] ink(r, x, k),
            saw_content ==> {
                &&& exists|k: int| k < y && #[trigger] ink(r, min_x as int, k)
                &&& exists|k: int| k < y && #[trigger] ink(r, max_x as int, k)
                &&& exists|x: int| #[trigger] ink(r, x, min_y as int)
                &&& exists|x: int| #[trigger] ink(r, x, max_y as int)
                &&& min_y < y
                &&& max_y < y
            },
            !saw_content ==> min_x == width && max_x == 0 && min_y == n && max_y == 0,
            forall|x: int, k: int|
                k < y && #[trigger] ink(r, x, k) ==> min_x <= x <= max_x && min_y <= k <= max_y,
        decreases n - y,
    {
        let row = &bounds[y];
        proof {
            assert(bounds@[y as int].describes(r.rows[y as int], width as int));
        }
        if row.has_content {
            proof {
                assert(ink(r, row.min_x as int, y as int));
                assert(ink(r, row.max_x as int, y as int));
            }
            saw_content = true;
            if row.min_x < min_x {
                min_x = row.min_x;
            }
            if row.max_x > max_x {
                max_x = row.max_x;
            }
            if y < min_y {
                min_y = y;
            }
            if y > max_y {
                max_y = y;
            }
        } else {
            proof {
                assert forall|x: int| !ink(r, x, y as int) by {
                    if ink(r, x, y as int) {
                        assert(row_ink(r.rows[y as int], x));
                    }
                }
            }
        }
        proof {
            assert forall|x: int, k: int| k < y + 1 && #[trigger] ink(r, x, k) implies min_x <= x
                <= max_x && min_y <= k <= max_y by {
                if k == y {
                    assert(row_ink(r.rows[y as int], x));
                }
            }
        }
        y += 1;
    }
    if !saw_content {
        return img;
    }
    proof {
        let b = ContentBox {
            min_x: min_x as int,
            max_x: max_x as int,
            min_y: min_y as int,
            max_y: max_y as int,
        };
        let left = choose|k: int| k < y && #[trigger] ink(r, min_x as int, k);
        let right = choose|k: int| k < y && #[trigger] ink(r, max_x as int, k);
        let top = choose|x: int| #[trigger] ink(r, x, min_y as int);
        let bottom = choose|x: int| #[trigger] ink(r, x, max_y as int);
        assert(ink(r, b.min_x, left) && ink(r, b.max_x, right));
        assert(ink(r, top, b.min_y) && ink(r, bottom, b.max_y));
        assert forall|x: int, k: int| #[trigger] ink(r, x, k) implies b.min_x <= x <= b.max_x
            && b.min_y <= k <= b.max_y by {
            assert(k < y);
        }
        assert(is_content_box(r, b));
        lemma_content_box_unique(r, b);
    }
    let top: u32 = if min_y < height as usize {
        min_y as u32
    } else {
        height
    };
    let x0: u32 = min_x.saturating_sub(CROP_MARGIN);
    let y0: u32 = top.saturating_sub(CROP_MARGIN);
    let x1: u32 = if width - max_x > CROP_MARGIN + 1 {
        max_x + CROP_MARGIN + 1
    } else {
        width
    };
    let y1: u32 = if max_y < height as usize && height - max_y as u32 > CROP_MARGIN + 1 {
        max_y as u32 + CROP_MARGIN + 1
    } else {
        height
    };
    let len: usize = img.data.len();
    proof {
        lemma_chunk_bounds(height * (3 * width), 3 * width, height as int, 0);
    }
    let exact: bool = n == height as usize && len % (3 * width as usize) == 0;
    if exact && x0 == 0 && y0 == 0 && x1 == width && y1 == height {
        proof {
            lemma_all_rows(img);
            vstd::arithmetic::div_mod::lemma_fundamental_div_mod(len as int, 3 * width);
            assert(3 * width * height == height * (3 * width)) by (nonlinear_arith);
            assert(img.exact());
            let whole = cropped(img@, 0, 0, width as int, height as int);
            assert forall|k: int| 0 <= k < height implies #[trigger] whole.rows[k]
                == img@.rows[k] by {
                lemma_chunk_bounds(img.data@.len() as int, 3 * width, height as int, k);
                assert(whole.rows[k] =~= img@.rows[k]);
            }
            assert(whole.rows =~= img@.rows);
            assert(img@.beyond =~= whole.beyond);
        }
        img
    } else {
        crop_image(img, x0, y0, x1 - x0, y1 - y0)
    }
}

/// The bounds of the content of every row, those after the last one included.
fn scan_rows(img: &RgbImage) -> (bounds: Vec<RowBounds>)
    requires
        img.wf(),
        0 < img.width,
        0 < img.height,
        img.data@.len() % (3 * img.width as nat) == 0,
    ensures
        bounds@.len() == all_rows(img@).rows.len(),
        forall|y: int|
            0 <= y < bounds@.len() ==> (#[trigger] bounds@[y]).describes(
                all_rows(img@).rows[y],
                img.width as int,
            ),
{
    let width: u32 = img.width;
    let height: u32 = img.height;
    let len: usize = img.data.len();
    proof {
        lemma_all_rows(*img);
        lemma_chunk_bounds(height * (3 * width), 3 * width, height as int, 0);
    }
    let stride: usize = width as usize * 3;
    let n: usize = len / stride;
    if is_small(width, height) {
        let mut bounds: Vec<RowBounds> = Vec::with_capacity(n);
        let mut y: usize = 0;
        proof {
            vstd::arithmetic::div_mod::lemma_fundamental_div_mod(len as int, stride as int);
            assert(stride * n == n * stride) by (nonlinear_arith);
        }
        while y < n
            invariant
                y <= n,
                stride == 3 * width,
                img.width == width,
                len == n * stride,
                img.data@.len() == len,
                bounds@.len() == y,
                forall|k: int|
                    0 <= k < y ==> (#[trigger] bounds@[k]).describes(
                        chunk(img.data@, stride as int, k),
                        width as int,
                    ),
            decreases n - y,
        {
            proof {
                lemma_chunk_bounds(len as int, stride as int, n as int, y as int);
            }
            bounds.push(scan_row(img.data.as_slice(), y * stride, width));
            y += 1;
        }
        bounds
    } else {
        scan_rows_on_pool(img.data.as_slice(), stride, width)
    }
}

/// Cuts the image down to its content and a small margin; a blank image comes
/// back as it is.
pub fn crop_whitespace(img: RgbImage) -> (out: RgbImage)
    requires
        img.wf(),
        croppable(img@),
    ensures
        out.wf(),
        out@ == without_margins(img@),
{
    if img.width == 0 || img.height == 0 {
        return img;
    }
    proof {
        lemma_whole_rows(img);
    }
    let bounds = scan_rows(&img);
    crop_to_bounds(img, &bounds)
}

/// Whole rows after the last one make all bytes whole rows.
proof fn lemma_whole_rows(img: RgbImage)
    requires
        img.wf(),
        0 < img.width,
        img@.beyond.len() % (3 * img.width as nat) == 0,
    ensures
        img.data@.len() % (3 * img.width as nat) == 0,
{
    let stride = 3 * img.width as int;
    let beyond = img@.beyond.len() as int;
    vstd::arithmetic::div_mod::lemma_fundamental_div_mod(beyond, stride);
    let n = img.height + beyond / stride;
    assert(img.data@.len() == n * stride) by (nonlinear_arith)
        requires
            img.data@.len() == img.height * stride + beyond,
            beyond == stride * (beyond / stride),
            n == img.height + beyond / stride,
    ;
    lemma_rows_of(img.data@.len(), stride as nat, n as nat);
}

/// Highlights every pixel inside one of the rectangles, and cuts the image
/// down to its content, in one pass over the rows.
pub fn apply_search_highlights_and_crop(img: RgbImage, rects: &[HighlightRect]) -> (out: RgbImage)
    requires
        img.wf(),
        img.width > 0 && img.height > 0 ==> img@.beyond.len() == 0,
    ensures
        out.wf(),
        out@ == without_margins(with_highlights(img@, rects@)),
{
    let ghost before = img;
    let mut img = img;
    let width: u32 = img.width;
    let height: u32 = img.height;
    if width == 0 || height == 0 {
        proof {
            let lit = with_highlights(before@, rects@);
            assert forall|y: int| 0 <= y < height implies #[trigger] lit.rows[y]
                == before@.rows[y] by {
                lemma_chunk_bounds(height * (3 * width), 3 * width, height as int, y);
                assert(lit.rows[y] =~= before@.rows[y]);
            }
            assert(lit.rows =~= before@.rows);
        }
        return img;
    }
    let rows = highlight_intervals_per_row(rects, width, height);
    let len: usize = img.data.len();
    proof {
        assert(before.exact());
        lemma_chunk_bounds(len as int, 3 * width, height as int, 0);
        lemma_rows_of(len as nat, (3 * width) as nat, height as nat);
    }
    let stride: usize = width as usize * 3;
    let bounds: Vec<RowBounds> = if is_small(width, height) {
        let mut bounds: Vec<RowBounds> = Vec::with_capacity(height as usize);
        let mut y: usize = 0;
        while y < height as usize
            invariant
                y <= height,
                stride == 3 * width,
                img.width == width,
                img.height == height,
                before.width == width,
                before.height == height,
                before.exact(),
                len == height * stride,
                img.data@.len() == len,
                rows@.len() == height,
                bounds@.len() == y,
                forall|k: int|
                    0 <= k < height ==> runs_fit((#[trigger] rows@[k])@, width) && runs_apart(
                        rows@[k]@,
                    ),
                forall|k: int|
                    0 <= k < y ==> chunk(img.data@, stride as int, k) == shaded(
                        chunk(before.data@, stride as int, k),
                        (#[trigger] rows@[k])@,
                    ),
                forall|k: int|
                    y <= k < height ==> #[trigger] chunk(img.data@, stride as int, k) == chunk(
                        before.data@,
                        stride as int,
                        k,
                    ),
                forall|k: int|
                    0 <= k < y ==> (#[trigger] bounds@[k]).describes(
                        chunk(img.data@, stride as int, k),
                        width as int,
                    ),
            decreases height - y,
        {
            let ghost was = img.data@;
            proof {
                lemma_chunk_bounds(len as int, stride as int, height as int, y as int);
            }
            let base: usize = y * stride;
            let row = highlight_and_scan_row(img.data.as_mut_slice(), base, width, &rows[y]);
            bounds.push(row);
            proof {
                assert(chunk(was, stride as int, y as int) == chunk(
                    before.data@,
                    stride as int,
                    y as int,
                ));
                lemma_row_replaced_chunks(
                    was,
                    img.data@,
                    stride as int,
                    height as int,
                    y as int,
                    shaded(chunk(was, stride as int, y as int), rows@[y as int]@),
                );
            }
            y += 1;
        }
        bounds
    } else {
        highlight_and_scan_rows_on_pool(img.data.as_mut_slice(), stride, width, &rows)
    };
    proof {
        lemma_highlighted_rows(before, img, rects@, rows@);
        lemma_exact(img);
        assert forall|y: int| 0 <= y < height implies (#[trigger] bounds@[y]).describes(
            all_rows(img@).rows[y],
            width as int,
        ) by {
            assert(img@.rows[y] == chunk(img.data@, stride as int, y));
        }
    }
    crop_to_bounds(img, &bounds)
}

/// What becomes of a rendered page before it is shown.
pub open spec fn processed(r: Raster, rects: Seq<HighlightRect>, auto_crop: bool) -> Raster {
    let lit = with_highlights(r, rects);
    if auto_crop {
        without_margins(lit)
    } else {
        lit
    }
}

/// The image can be processed: what is to be done can be done with the bytes
/// after its last row.
pub open spec fn processable(r: Raster, rects: Seq<HighlightRect>, auto_crop: bool) -> bool {
    highlightable(r, rects) && (auto_crop ==> croppable(r))
}

/// No image gets wider by being processed.
pub proof fn lemma_processed_width(r: Raster, rects: Seq<HighlightRect>, auto_crop: bool)
    ensures
        processed(r, rects, auto_crop).width <= r.width,
{
    let lit = with_highlights(r, rects);
    if auto_crop && has_content(lit) {
        let all = all_rows(lit);
        law_content_box_exists(all);
        let b = content_box(all);
        let y = choose|y: int| ink(all, b.min_x, y);
        assert(ink(all, b.min_x, y));
    }
}

/// Highlights the search results on a page and, if asked to, crops it.
pub fn process_rgb_image(img: RgbImage, rects: &[HighlightRect], auto_crop: bool) -> (out: RgbImage)
    requires
        img.wf(),
        processable(img@, rects@, auto_crop),
    ensures
        out.wf(),
        out@ == processed(img@, rects@, auto_crop),
{
    if rects.len() == 0 {
        proof {
            law_highlights_dim_blue_only(img@, rects@);
        }
        if auto_crop {
            return crop_whitespace(img);
        }
        return img;
    }
    if auto_crop {
        apply_search_highlights_and_crop(img, rects)
    } else {
        let mut img = img;
        apply_search_highlights(&mut img, rects);
        img
    }
}

/// The least number from `lo` on that has a property, one up to `hi` having it.
proof fn lemma_least(p: spec_fn(int) -> bool, lo: int, hi: int) -> (m: int)
    requires
        lo <= hi,
        p(hi),
    ensures
        lo <= m <= hi,
        p(m),
        forall|k: int| lo <= k < m ==> !(#[trigger] p(k)),
    decreases hi - lo,
{
    if p(lo) {
        lo
    } else {
        lemma_least(p, lo + 1, hi)
    }
}

/// The greatest number up to `hi` that has a property, one from `lo` on having
/// it.
proof fn lemma_greatest(p: spec_fn(int) -> bool, lo: int, hi: int) -> (m: int)
    requires
        lo <= hi,
        p(lo),
    ensures
        lo <= m <= hi,
        p(m),
        forall|k: int| m < k <= hi ==> !(#[trigger] p(k)),
    decreases hi - lo,
{
    if p(hi) {
        hi
    } else {
        lemma_greatest(p, lo, hi - 1)
    }
}

/// An image that is not blank has a smallest box around its content.
pub proof fn law_content_box_exists(r: Raster)
    requires
        has_ink(r),
    ensures
        is_content_box(r, content_box(r)),
{
    let (x, y) = choose|x: int, y: int| ink(r, x, y);
    let in_col = |x: int| exists|y: int| ink(r, x, y);
    let in_row = |y: int| exists|x: int| ink(r, x, y);
    assert(in_col(x) && in_row(y));
    let min_x = lemma_least(in_col, 0, x);
    let max_x = lemma_greatest(in_col, x, r.width as int);
    let min_y = lemma_least(in_row, 0, y);
    let max_y = lemma_greatest(in_row, y, r.rows.len() as int);
    let b = ContentBox { min_x, max_x, min_y, max_y };
    assert forall|x: int, y: int| #[trigger] ink(r, x, y) implies b.min_x <= x <= b.max_x
        && b.min_y <= y <= b.max_y by {
        assert(in_col(x) && in_row(y));
    }
    assert(is_content_box(r, b));
}

/// Where the part that cropping keeps begins.
pub open spec fn crop_origin(r: Raster) -> (int, int) {
    if has_content(r) {
        let b = content_box(all_rows(r));
        (
            excess(b.min_x, CROP_MARGIN as int),
            excess(least(b.min_y, r.rows.len() as int), CROP_MARGIN as int),
        )
    } else {
        (0, 0)
    }
}

/// Cropping keeps all content and moves it only: the pixels of the cropped
/// image are those of the image from some point on, and all content is among
/// them.
pub proof fn law_crop_keeps_content(r: Raster)
    requires
        r.wf(),
    ensures
        without_margins(r).wf(),
        forall|x: int, y: int| #[trigger]
            ink(without_margins(r), x, y) <==> ink(
                r,
                x + crop_origin(r).0,
                y + crop_origin(r).1,
            ),
{
    if has_content(r) {
        let all = all_rows(r);
        law_content_box_exists(all);
        let b = content_box(all);
        let h = r.rows.len() as int;
        let (x0, y0) = crop_origin(r);
        let x1 = least(b.max_x + CROP_MARGIN + 1, r.width as int);
        let y1 = least(b.max_y + CROP_MARGIN + 1, h);
        let ya = choose|y: int| ink(all, b.min_x, y);
        let yb = choose|y: int| ink(all, b.max_x, y);
        let xa = choose|x: int| ink(all, x, b.min_y);
        let xb = choose|x: int| ink(all, x, b.max_y);
        assert(ink(all, b.min_x, ya) && ink(all, b.max_x, yb) && ink(all, xa, b.min_y) && ink(
            all,
            xb,
            b.max_y,
        ));
        let c = without_margins(r);
        assert(c == cropped(r, x0, y0, x1, y1));
        assert forall|y: int| 0 <= y < c.rows.len() implies (#[trigger] c.rows[y]).len() == 3
            * c.width by {
            assert(r.rows[y0 + y].len() == 3 * r.width);
        }
        assert forall|x: int, y: int| 0 <= x < c.width && 0 <= y < c.rows.len() implies (
        #[trigger] row_ink(c.rows[y], x) <==> row_ink(r.rows[y + y0], x + x0)) by {
            let row = r.rows[y0 + y];
            assert(row.len() == 3 * r.width);
            assert(c.rows[y] == row.subrange(3 * x0, 3 * x1));
            assert(c.rows[y][3 * x] == row[3 * (x + x0)]);
            assert(c.rows[y][3 * x + 1] == row[3 * (x + x0) + 1]);
            assert(c.rows[y][3 * x + 2] == row[3 * (x + x0) + 2]);
        }
        assert forall|x: int, y: int| #[trigger] ink(c, x, y) <==> ink(r, x + x0, y + y0) by {
            if ink(r, x + x0, y + y0) {
                assert(ink(all, x + x0, y + y0));
            }
            if 0 <= x < c.width && 0 <= y < c.rows.len() {
                assert(row_ink(c.rows[y], x) <==> row_ink(r.rows[y + y0], x + x0));
            }
        }
    }
}

/// The image without what follows its last row.
pub open spec fn plain(r: Raster) -> Raster {
    Raster { beyond: Seq::empty(), ..r }
}

proof fn lemma_crop_plain_once(r: Raster)
    requires
        r.wf(),
        r.beyond.len() == 0,
    ensures
        without_margins(without_margins(r)) == without_margins(r),
{
    if has_content(r) {
        let all = all_rows(r);
        law_content_box_exists(all);
        law_crop_keeps_content(r);
        let b = content_box(all);
        let (x0, y0) = crop_origin(r);
        let c = without_margins(r);
        let ya = choose|y: int| ink(all, b.min_x, y);
        let yb = choose|y: int| ink(all, b.max_x, y);
        let xa = choose|x: int| ink(all, x, b.min_y);
        let xb = choose|x: int| ink(all, x, b.max_y);
        assert(ink(all, b.min_x, ya) && ink(all, b.max_x, yb) && ink(all, xa, b.min_y) && ink(
            all,
            xb,
            b.max_y,
        ));
        assert(ink(r, b.min_x, ya) && ink(r, b.max_x, yb) && ink(r, xa, b.min_y) && ink(
            r,
            xb,
            b.max_y,
        ));
        let d = ContentBox {
            min_x: b.min_x - x0,
            max_x: b.max_x - x0,
            min_y: b.min_y - y0,
            max_y: b.max_y - y0,
        };
        assert(all_rows(c).rows =~= c.rows);
        assert(all_rows(c) == c);
        assert(ink(c, d.min_x, ya - y0) && ink(c, d.max_x, yb - y0) && ink(c, xa - x0, d.min_y)
            && ink(c, xb - x0, d.max_y));
        assert forall|x: int, y: int| #[trigger] ink(c, x, y) implies d.min_x <= x <= d.max_x
            && d.min_y <= y <= d.max_y by {
            assert(ink(r, x + x0, y + y0));
            assert(ink(all, x + x0, y + y0));
        }
        lemma_content_box_unique(c, d);
        let again = cropped(c, 0, 0, c.width as int, c.rows.len() as int);
        assert(without_margins(c) == again) by {
            assert(excess(d.min_x, CROP_MARGIN as int) == 0);
            assert(excess(d.min_y, CROP_MARGIN as int) == 0);
            assert(least(d.max_x + CROP_MARGIN + 1, c.width as int) == c.width);
            assert(least(d.max_y + CROP_MARGIN + 1, c.rows.len() as int) == c.rows.len());
        }
        assert(again =~= c) by {
            assert forall|y: int| 0 <= y < c.rows.len() implies again.rows[y] == c.rows[y] by {
                assert(c.rows[y].subrange(0, 3 * c.width as int) =~= c.rows[y]);
            }
            assert(again.rows =~= c.rows);
        }
    }
}

/// A cropped image is not cropped any further, unless content after its last
/// row made it larger than its own content does.
pub proof fn law_crop_once(r: Raster)
    requires
        r.wf(),
        has_ink(r) ==> without_margins(r) == without_margins(plain(r)),
    ensures
        without_margins(without_margins(r)) == without_margins(r),
{
    if has_content(r) {
        if has_ink(r) {
            lemma_crop_plain_once(plain(r));
        } else {
            law_crop_keeps_content(r);
            let c = without_margins(r);
            if 0 < c.width {
                assert(all_rows(c).rows =~= c.rows);
                assert(all_rows(c) == c);
                assert forall|x: int, y: int| !ink(c, x, y) by {
                    assert(ink(c, x, y) <==> ink(r, x + crop_origin(r).0, y + crop_origin(r).1));
                }
            }
        }
    }
}

/// An image without search results stays as it is, and highlighting only ever
/// takes blue away.
pub proof fn law_highlights_dim_blue_only(r: Raster, rects: Seq<HighlightRect>)
    ensures
        rects.len() == 0 ==> with_highlights(r, rects) == r,
        with_highlights(r, rects).width == r.width,
        with_highlights(r, rects).rows.len() == r.rows.len(),
        forall|y: int, k: int|
            0 <= y < r.rows.len() && 0 <= k < r.rows[y].len() ==> {
                let after = #[trigger] with_highlights(r, rects).rows[y][k];
                &&& after <= r.rows[y][k]
                &&& k % 3 != 2 ==> after == r.rows[y][k]
            },
{
    if rects.len() == 0 {
        assert forall|y: int| 0 <= y < r.rows.len() implies with_highlights(r, rects).rows[y]
            == r.rows[y] by {
            assert(with_highlights(r, rects).rows[y] =~= r.rows[y]);
        }
        assert(with_highlights(r, rects) =~= r);
    }
}

/// A pixel under several search results is highlighted once: rectangles that
/// mark the same pixels make the same image.
pub proof fn law_highlights_do_not_add_up(
    r: Raster,
    a: Seq<HighlightRect>,
    b: Seq<HighlightRect>,
)
    requires
        forall|x: int, y: int| highlighted(a, x, y) <==> highlighted(b, x, y),
    ensures
        with_highlights(r, a) == with_highlights(r, b),
{
    assert forall|y: int| 0 <= y < r.rows.len() implies with_highlights(r, a).rows[y]
        == with_highlights(r, b).rows[y] by {
        assert(with_highlights(r, a).rows[y] =~= with_highlights(r, b).rows[y]);
    }
    assert(with_highlights(r, a) =~= with_highlights(r, b));
}

/// The bytes of an image are its pixels, row by row from the top, each row from
/// the left: red, green, blue.
pub proof fn law_bytes_are_pixels(img: RgbImage, x: int, y: int, channel: int)
    requires
        img.wf(),
        0 <= x < img.width,
        0 <= y < img.height,
        0 <= channel < 3,
    ensures
        img@.width == img.width,
        img@.rows.len() == img.height,
        img@.rows[y].len() == 3 * img.width,
        img@.rows[y][3 * x + channel] == img.data@[3 * (y * img.width + x) + channel],
        img@.beyond == img.data@.skip(3 * (img.height * img.width)),
{
    let w = img.width as int;
    let h = img.height as int;
    lemma_chunk_bounds(h * (3 * w), 3 * w, h, y);
    assert(y * (3 * w) == 3 * (y * w)) by (nonlinear_arith);
    assert(h * (3 * w) == 3 * (h * w)) by (nonlinear_arith);
}

/// A pixel is content if one of its channels is not almost full.
pub proof fn law_content_is_not_white(r: Raster, x: int, y: int)
    requires
        0 <= x < r.width,
        0 <= y < r.rows.len(),
    ensures
        ink(r, x, y) <==> r.rows[y][3 * x] < 240 || r.rows[y][3 * x + 1] < 240 || r.rows[y][3 * x
            + 2] < 240,
{
}

/// Every pixel strictly inside a result loses 127 of its blue, or all of it,
/// whatever else is on its row; every other byte stays.
pub proof fn law_every_result_is_highlighted(
    r: Raster,
    rects: Seq<HighlightRect>,
    x: int,
    y: int,
)
    requires
        0 <= x < r.width,
        0 <= y < r.rows.len(),
        r.rows[y].len() == 3 * r.width,
    ensures
        ({
            let after = with_highlights(r, rects);
            let inside_one = exists|i: int|
                0 <= i < rects.len() && (#[trigger] rects[i]).ul_x < x < rects[i].lr_x
                    && rects[i].ul_y < y < rects[i].lr_y;
            &&& after.width == r.width
            &&& after.rows.len() == r.rows.len()
            &&& after.beyond == r.beyond
            &&& after.rows[y].len() == r.rows[y].len()
            &&& after.rows[y][3 * x] == r.rows[y][3 * x]
            &&& after.rows[y][3 * x + 1] == r.rows[y][3 * x + 1]
            &&& inside_one ==> after.rows[y][3 * x + 2] == max(0, r.rows[y][3 * x + 2] - 127)
            &&& !inside_one ==> after.rows[y][3 * x + 2] == r.rows[y][3 * x + 2]
        }),
{
    assert((3 * x + 2) % 3 == 2 && (3 * x + 2) / 3 == x);
    if exists|i: int|
        0 <= i < rects.len() && (#[trigger] rects[i]).ul_x < x < rects[i].lr_x && rects[i].ul_y < y
            < rects[i].lr_y {
        let i = choose|i: int|
            0 <= i < rects.len() && (#[trigger] rects[i]).ul_x < x < rects[i].lr_x && rects[i].ul_y
                < y < rects[i].lr_y;
        assert(inside(rects[i], x, y));
        assert(highlighted(rects, x, y));
    } else if highlighted(rects, x, y) {
        let i = choose|i: int| 0 <= i < rects.len() && #[trigger] inside(rects[i], x, y);
        assert(rects[i].ul_x < x < rects[i].lr_x);
    }
}

/// The bytes after the last row, taken for rows, follow the rows of the image.
pub proof fn law_rows_beyond_follow(r: Raster, i: int, k: int)
    requires
        0 < r.width,
        0 <= i < r.beyond.len() / (3 * r.width),
        0 <= k < 3 * r.width,
    ensures
        all_rows(r).width == r.width,
        all_rows(r).rows.len() == r.rows.len() + r.beyond.len() / (3 * r.width),
        all_rows(r).rows.take(r.rows.len() as int) == r.rows,
        all_rows(r).rows[r.rows.len() + i][k] == r.beyond[3 * r.width * i + k],
{
    let stride = 3 * r.width as int;
    let n = r.beyond.len() as int / stride;
    vstd::arithmetic::div_mod::lemma_fundamental_div_mod(r.beyond.len() as int, stride);
    assert(i * stride + stride <= r.beyond.len()) by (nonlinear_arith)
        requires
            0 <= i < n,
            0 < stride,
            r.beyond.len() >= stride * n,
    ;
    assert(0 <= i * stride) by (nonlinear_arith)
        requires
            0 <= i,
            0 < stride,
    ;
    assert(stride * i == i * stride) by (nonlinear_arith);
    assert(all_rows(r).rows.take(r.rows.len() as int) =~= r.rows);
}

/// A page with content is cut down to it whatever its shape: to the columns and
/// rows of the content and eight more on each side, as far as there are any.
/// The pixels that are left are those of the page.
pub proof fn law_crop_leaves_margin(
    r: Raster,
    min_x: int,
    max_x: int,
    min_y: int,
    max_y: int,
)
    requires
        r.wf(),
        0 < r.rows.len(),
        exists|y: int| ink(all_rows(r), min_x, y),
        exists|y: int| ink(all_rows(r), max_x, y),
        exists|x: int| ink(all_rows(r), x, min_y),
        exists|x: int| ink(all_rows(r), x, max_y),
        forall|x: int, y: int| #[trigger]
            ink(all_rows(r), x, y) ==> min_x <= x <= max_x && min_y <= y <= max_y,
    ensures
        ({
            let after = without_margins(r);
            let left = max(0, min_x - 8);
            let top = max(0, min(min_y, r.rows.len() as int) - 8);
            &&& after.beyond.len() == 0
            &&& after.width == min(max_x + 9, r.width as int) - left
            &&& after.rows.len() == min(max_y + 9, r.rows.len() as int) - top
            &&& forall|y: int|
                0 <= y < after.rows.len() ==> (#[trigger] after.rows[y]).len() == 3 * after.width
            &&& forall|y: int, k: int|
                0 <= y < after.rows.len() && 0 <= k < 3 * after.width
                    ==> #[trigger] after.rows[y][k] == r.rows[y + top][k + 3 * left]
        }),
{
    let after = without_margins(r);
    let top = max(0, min(min_y, r.rows.len() as int) - 8);
    let y = choose|y: int| ink(all_rows(r), min_x, y);
    let z = choose|y: int| ink(all_rows(r), max_x, y);
    let v = choose|x: int| ink(all_rows(r), x, min_y);
    let u = choose|x: int| ink(all_rows(r), x, max_y);
    assert(ink(all_rows(r), min_x, y) && ink(all_rows(r), max_x, z) && ink(all_rows(r), v, min_y)
        && ink(all_rows(r), u, max_y));
    let b = ContentBox { min_x, max_x, min_y, max_y };
    assert(ink(all_rows(r), b.min_x, y) && ink(all_rows(r), b.max_x, z));
    assert(ink(all_rows(r), v, b.min_y) && ink(all_rows(r), u, b.max_y));
    assert(is_content_box(all_rows(r), b));
    lemma_content_box_unique(all_rows(r), b);
    assert forall|y: int| 0 <= y < after.rows.len() implies (#[trigger] after.rows[y]).len() == 3
        * after.width by {
        assert(r.rows[y + top].len() == 3 * r.width);
    }
}

/// A page is cut tight: content lies within eight pixels of each edge of what
/// is left.
pub proof fn law_crop_is_tight(r: Raster)
    requires
        r.wf(),
        r.beyond.len() == 0,
        has_ink(r),
    ensures
        ({
            let after = without_margins(r);
            &&& exists|x: int, y: int| #[trigger] ink(after, x, y) && x <= 8
            &&& exists|x: int, y: int| #[trigger] ink(after, x, y) && y <= 8
            &&& exists|x: int, y: int| #[trigger] ink(after, x, y) && after.width <= x + 9
            &&& exists|x: int, y: int| #[trigger] ink(after, x, y) && after.rows.len() <= y + 9
        }),
{
    let (x, y) = choose|x: int, y: int| ink(r, x, y);
    assert(ink(r, x, y));
    assert(all_rows(r).rows =~= r.rows);
    assert forall|x: int, y: int| #[trigger] ink(all_rows(r), x, y) <==> ink(r, x, y) by {}
    assert(ink(all_rows(r), x, y));
    law_content_box_exists(all_rows(r));
    law_crop_keeps_content(r);
    let b = content_box(all_rows(r));
    let (x0, y0) = crop_origin(r);
    let ya = choose|y: int| ink(all_rows(r), b.min_x, y);
    let yb = choose|y: int| ink(all_rows(r), b.max_x, y);
    let xa = choose|x: int| ink(all_rows(r), x, b.min_y);
    let xb = choose|x: int| ink(all_rows(r), x, b.max_y);
    assert(ink(r, b.min_x, ya) && ink(r, b.max_x, yb) && ink(r, xa, b.min_y) && ink(
        r,
        xb,
        b.max_y,
    ));
    let after = without_margins(r);
    assert(ink(after, b.min_x - x0, ya - y0));
    assert(ink(after, b.max_x - x0, yb - y0));
    assert(ink(after, xa - x0, b.min_y - y0));
    assert(ink(after, xb - x0, b.max_y - y0));
}

/// A blank page is not cut at all.
pub proof fn law_blank_page_stays(r: Raster)
    requires
        r.rows.len() == 0 || r.width == 0 || forall|x: int, y: int| !ink(all_rows(r), x, y),
    ensures
        without_margins(r) == r,
{
}

/// What is done to a page: it is highlighted, and then cut, if it is to be; the
/// highlights are there either way.
pub proof fn law_page_is_highlighted_then_cut(r: Raster, rects: Seq<HighlightRect>)
    ensures
        processed(r, rects, false) == with_highlights(r, rects),
        processed(r, rects, true) == without_margins(processed(r, rects, false)),
        rects.len() == 0 ==> processed(r, rects, false) == r,
{
    law_highlights_dim_blue_only(r, rects);
}

/// What an image is: rows that are all as long as its width asks for, in bytes of
/// which none is missing. It has content if one of its pixels is content.
pub proof fn law_what_an_image_is(r: Raster, img: RgbImage)
    ensures
        r.wf() <==> forall|y: int|
            0 <= y < r.rows.len() ==> (#[trigger] r.rows[y]).len() == 3 * r.width,
        has_ink(r) <==> exists|x: int, y: int| ink(r, x, y),
        img.wf() <==> img.data@.len() >= 3 * (img.width * img.height),
        img.exact() <==> img.data@.len() == 3 * (img.width * img.height),
{
    let w = img.width as int;
    let h = img.height as int;
    assert(h * (3 * w) == 3 * (w * h)) by (nonlinear_arith);
}

} // verus!
