use vstd::prelude::*;
use vstd::arithmetic::mul::{lemma_mul_inequality, lemma_mul_is_distributive_add_other_way};
use vstd::arithmetic::div_mod::{lemma_fundamental_div_mod, lemma_div_pos_is_pos};
use crate::bands::{Band, is_partition, lemma_rows_covered_once, partition_bands};
use crate::intensity::{intensity, map_intensity, within_limit};
use crate::types::Dimensions;

verus! {

/// Reasons for which an image cannot be rendered.
#[derive(Debug, Clone, Copy, PartialEq, Eq, Structural)]
pub enum RenderError {
    /// The image has no columns or no rows.
    InvalidDimensions,
    /// A side of the image does not fit in 32 bits.
    TooLarge,
    /// The pixel buffer does not hold one byte per pixel.
    BufferSize,
    /// The iteration limit is zero, or an escape count is above it.
    InvalidLimit,
    /// The band count is zero or larger than the number of rows.
    InvalidBandCount,
}

/// The grey levels of an image whose pixels, in row-major order, have the
/// escape results `escapes`.
pub open spec fn shaded(escapes: Seq<Option<usize>>, limit: usize, invert: bool) -> Seq<u8> {
    escapes.map_values(|e: Option<usize>| intensity(e, limit, invert))
}

/// Every escape result is one that the iteration limit `limit` allows.
pub open spec fn all_within_limit(escapes: Seq<Option<usize>>, limit: usize) -> bool {
    forall|i: int| 0 <= i < escapes.len() ==> within_limit(#[trigger] escapes[i], limit)
}

/// Accepts the size of an image to render, which must have at least one
/// column and one row.
pub fn check_dimensions(width: usize, height: usize) -> (r: Result<Dimensions, RenderError>)
    ensures
        (width > 0 && height > 0) == (r is Ok),
        (r is Ok) ==> (r->Ok_0 == (Dimensions { width, height })),
        (r is Err) ==> (r->Err_0 == RenderError::InvalidDimensions),
{
    if width == 0 || height == 0 {
        Err(RenderError::InvalidDimensions)
    } else {
        Ok(Dimensions::new(width, height))
    }
}

proof fn lemma_next_row(row: int, width: int, bottom: int)
    requires
        0 <= row < bottom,
        0 <= width,
    ensures
        0 <= row * width,
        (row + 1) * width == row * width + width,
        (row + 1) * width <= bottom * width,
{
    lemma_mul_is_distributive_add_other_way(width, row, 1);
    lemma_mul_inequality(row + 1, bottom, width);
}

/// Draws the rows of `band`: the pixel in row `y` and column `x` of the image
/// gets, at offset `y * width + x`, the grey level of its escape result. The
/// other pixels keep their values.
pub fn render_band(
    pixels: &mut Vec<u8>,
    bounds: Dimensions,
    band: Band,
    escapes: &Vec<Option<usize>>,
    limit: usize,
    invert: bool,
)
    requires
        old(pixels)@.len() == bounds.pixel_count(),
        escapes@.len() == bounds.pixel_count(),
        band.top <= band.bottom <= bounds.height,
        limit > 0,
        all_within_limit(escapes@, limit),
    ensures
        final(pixels)@.len() == old(pixels)@.len(),
        forall|i: int|
            band.top * bounds.width <= i < band.bottom * bounds.width ==> #[trigger] final(pixels)@[i]
                == intensity(escapes@[i], limit, invert),
        forall|i: int|
            0 <= i < old(pixels)@.len() && !(band.top * bounds.width <= i < band.bottom
                * bounds.width) ==> #[trigger] final(pixels)@[i] == old(pixels)@[i],
{
    let ghost before = pixels@;
    let total: usize = pixels.len();
    let width: usize = bounds.width;
    let mut row: usize = band.top;
    while row < band.bottom
        invariant
            pixels@.len() == bounds.pixel_count(),
            escapes@.len() == bounds.pixel_count(),
            total == bounds.pixel_count(),
            width == bounds.width,
            band.top <= row <= band.bottom <= bounds.height,
            limit > 0,
            all_within_limit(escapes@, limit),
            band.top * width <= row * width,
            forall|i: int|
                band.top * width <= i < row * width ==> #[trigger] pixels@[i] == intensity(
                    escapes@[i],
                    limit,
                    invert,
                ),
            forall|i: int|
                0 <= i < pixels@.len() && !(band.top * width <= i < row * width)
                    ==> #[trigger] pixels@[i] == before[i],
        decreases band.bottom - row,
    {
        let mut column: usize = 0;
        while column < width
            invariant
                pixels@.len() == bounds.pixel_count(),
                escapes@.len() == bounds.pixel_count(),
                total == bounds.pixel_count(),
                width == bounds.width,
                band.top <= row < band.bottom <= bounds.height,
                limit > 0,
                all_within_limit(escapes@, limit),
                band.top * width <= row * width,
                column <= width,
                forall|i: int|
                    band.top * width <= i < row * width + column ==> #[trigger] pixels@[i]
                        == intensity(escapes@[i], limit, invert),
                forall|i: int|
                    0 <= i < pixels@.len() && !(band.top * width <= i < row * width + column)
                        ==> #[trigger] pixels@[i] == before[i],
            decreases width - column,
        {
            proof {
                lemma_next_row(row as int, width as int, bounds.height as int);
            }
            let index: usize = row * width + column;
            let grey: u8 = map_intensity(escapes[index], limit, invert);
            pixels.set(index, grey);
            column = column + 1;
        }
        proof {
            lemma_next_row(row as int, width as int, bounds.height as int);
        }
        row = row + 1;
    }
}

/// Renders a whole image: shares its rows among `band_count` bands (see
/// `partition_bands`) and draws each band. The result is the same for every
/// number of bands: each pixel gets the grey level of its own escape result.
pub fn render(
    pixels: &mut Vec<u8>,
    bounds: Dimensions,
    escapes: &Vec<Option<usize>>,
    band_count: usize,
    limit: usize,
    invert: bool,
)
    requires
        old(pixels)@.len() == bounds.pixel_count(),
        escapes@.len() == bounds.pixel_count(),
        0 < band_count <= bounds.height,
        limit > 0,
        all_within_limit(escapes@, limit),
    ensures
        final(pixels)@ == shaded(escapes@, limit, invert),
{
    let bands: Vec<Band> = partition_bands(bounds.height, band_count);
    let ghost width = bounds.width as int;
    let ghost mut reached: int = 0;
    let mut k: usize = 0;
    while k < bands.len()
        invariant
            pixels@.len() == bounds.pixel_count(),
            escapes@.len() == bounds.pixel_count(),
            limit > 0,
            all_within_limit(escapes@, limit),
            width == bounds.width,
            is_partition(bands@, bounds.height as nat),
            k <= bands@.len(),
            k < bands@.len() ==> reached == bands@[k as int].top,
            k == bands@.len() ==> reached == bounds.height,
            0 <= reached <= bounds.height,
            forall|i: int|
                0 <= i < reached * width ==> #[trigger] pixels@[i] == intensity(
                    escapes@[i],
                    limit,
                    invert,
                ),
        decreases bands@.len() - k,
    {
        let band: Band = bands[k];
        let ghost prev = pixels@;
        proof {
            assert(band.top < band.bottom <= bounds.height);
            if k + 1 < bands@.len() {
                assert(bands@[k as int].bottom == bands@[k + 1].top);
            }
        }
        render_band(pixels, bounds, band, escapes, limit, invert);
        proof {
            assert forall|i: int| 0 <= i < band.bottom * width implies #[trigger] pixels@[i]
                == intensity(escapes@[i], limit, invert) by {
                if i < band.top * width {
                    lemma_mul_inequality(band.top as int, bounds.height as int, width);
                    assert(width * bounds.height == bounds.height * width) by (nonlinear_arith);
                    assert(pixels@[i] == prev[i]);
                }
            }
            reached = band.bottom as int;
        }
        k = k + 1;
    }
    assert(bounds.width * bounds.height == bounds.height * width) by (nonlinear_arith)
        requires
            width == bounds.width,
    ;
    assert(pixels@ =~= shaded(escapes@, limit, invert));
}

/// However the rows are shared among bands, a buffer in which every band of
/// the partition has been drawn holds the shaded image: the result does not
/// depend on the partition.
pub proof fn lemma_banded_render_is_shaded(
    bands: Seq<Band>,
    bounds: Dimensions,
    escapes: Seq<Option<usize>>,
    limit: usize,
    invert: bool,
    pixels: Seq<u8>,
)
    requires
        is_partition(bands, bounds.height as nat),
        escapes.len() == bounds.pixel_count(),
        pixels.len() == bounds.pixel_count(),
        forall|k: int, i: int|
            #![trigger bands[k], pixels[i]]
            0 <= k < bands.len() && bands[k].top * bounds.width <= i < bands[k].bottom
                * bounds.width ==> pixels[i] == intensity(escapes[i], limit, invert),
    ensures
        pixels == shaded(escapes, limit, invert),
{
    let w = bounds.width as int;
    let h = bounds.height as int;
    assert forall|i: int| 0 <= i < pixels.len() implies #[trigger] pixels[i] == intensity(
        escapes[i],
        limit,
        invert,
    ) by {
        assert(w > 0) by (nonlinear_arith)
            requires
                0 <= i < w * h,
                0 <= w,
                0 <= h,
        ;
        let row = i / w;
        let column = i % w;
        lemma_fundamental_div_mod(i, w);
        lemma_div_pos_is_pos(i, w);
        assert(0 <= column < w);
        assert(row < h) by (nonlinear_arith)
            requires
                i == w * row + column,
                0 <= column,
                i < w * h,
                0 < w,
        ;
        lemma_rows_covered_once(bands, h as nat, row);
        let k = choose|k: int| 0 <= k < bands.len() && #[trigger] bands[k].holds(row);
        let top = bands[k].top as int;
        let bottom = bands[k].bottom as int;
        assert(top * w <= i < bottom * w) by (nonlinear_arith)
            requires
                top <= row < bottom,
                i == w * row + column,
                0 <= column < w,
                0 < w,
        ;
    }
    assert(pixels =~= shaded(escapes, limit, invert));
}

/// Rendering is deterministic: two buffers that each hold a render of the
/// same escape results with the same limit and inversion, whatever band counts
/// were used, are equal.
pub proof fn lemma_render_deterministic(
    escapes: Seq<Option<usize>>,
    limit: usize,
    invert: bool,
    first: Seq<u8>,
    second: Seq<u8>,
)
    requires
        first == shaded(escapes, limit, invert),
        second == shaded(escapes, limit, invert),
    ensures
        first == second,
{
}

/// Why an image with these inputs cannot be rendered, checked in this order;
/// `None` if it can.
pub open spec fn render_failure(
    bounds: Dimensions,
    escapes: Seq<Option<usize>>,
    band_count: usize,
    limit: usize,
) -> Option<RenderError> {
    if bounds.width == 0 || bounds.height == 0 {
        Some(RenderError::InvalidDimensions)
    } else if bounds.pixel_count() > usize::MAX {
        Some(RenderError::TooLarge)
    } else if escapes.len() != bounds.pixel_count() {
        Some(RenderError::BufferSize)
    } else if limit == 0 || !all_within_limit(escapes, limit) {
        Some(RenderError::InvalidLimit)
    } else if band_count == 0 || band_count > bounds.height {
        Some(RenderError::InvalidBandCount)
    } else {
        None
    }
}

/// Whether every escape count is at most `limit`.
fn counts_within_limit(escapes: &Vec<Option<usize>>, limit: usize) -> (r: bool)
    ensures
        r == all_within_limit(escapes@, limit),
{
    let mut i: usize = 0;
    while i < escapes.len()
        invariant
            i <= escapes@.len(),
            forall|j: int| 0 <= j < i ==> within_limit(#[trigger] escapes@[j], limit),
        decreases escapes@.len() - i,
    {
        if let Some(count) = escapes[i] {
            if count > limit {
                assert(!within_limit(escapes@[i as int], limit));
                return false;
            }
        }
        i = i + 1;
    }
    true
}

/// Checks the inputs and renders the image into a new buffer with
/// `band_count` bands; see `render_failure` for the errors.
pub fn render_image(
    bounds: Dimensions,
    escapes: &Vec<Option<usize>>,
    band_count: usize,
    limit: usize,
    invert: bool,
) -> (r: Result<Vec<u8>, RenderError>)
    ensures
        (r is Err) == (render_failure(bounds, escapes@, band_count, limit) is Some),
        (r is Err) ==> r->Err_0 == render_failure(bounds, escapes@, band_count, limit)->Some_0,
        (r is Ok) ==> r->Ok_0@ == shaded(escapes@, limit, invert),
{
    if bounds.width == 0 || bounds.height == 0 {
        return Err(RenderError::InvalidDimensions);
    }
    let total: usize = match bounds.width.checked_mul(bounds.height) {
        Some(total) => total,
        None => return Err(RenderError::TooLarge),
    };
    if escapes.len() != total {
        return Err(RenderError::BufferSize);
    }
    if limit == 0 || !counts_within_limit(escapes, limit) {
        return Err(RenderError::InvalidLimit);
    }
    if band_count == 0 || band_count > bounds.height {
        return Err(RenderError::InvalidBandCount);
    }
    let mut pixels: Vec<u8> = Vec::new();
    let mut i: usize = 0;
    while i < total
        invariant
            i <= total,
            pixels@.len() == i,
        decreases total - i,
    {
        pixels.push(0);
        i = i + 1;
    }
    render(&mut pixels, bounds, escapes, band_count, limit, invert);
    Ok(pixels)
}

} // verus!
