//! Integer image operations of palm feature extraction: input validation,
//! 3x3 morphology, Zhang-Suen thinning, skeleton neighbour counts, adaptive
//! binarisation, and minutiae detection (crossing numbers, local ridge
//! density and filtering).
//!
//! All operations read channel 0 of row-major images.

use vstd::prelude::*;
use crate::biometric::image::{lemma_pixel_index_bound, lemma_positions_fit, pixel_at, pixel_index, positions_fit, PalmImage};
use crate::error::{invalid_input, Result, SableError};

verus! {

/// Minimum image dimension (width or height) in pixels.
pub const MIN_IMAGE_DIM: u32 = 64;

/// Maximum image dimension (width or height) in pixels.
pub const MAX_IMAGE_DIM: u32 = 4096;

/// Dimension of palm vein feature vectors.
pub const VEIN_FEATURE_DIM: usize = 512;

/// Dimension of palm print feature vectors.
pub const PRINT_FEATURE_DIM: usize = 256;

/// Whether vectorised kernels run for the floating-point feature
/// arithmetic. This build has none: the scalar kernels always run.
pub fn simd_enabled() -> (b: bool)
    ensures
        !b,
{
    false
}

/// Whether both sides of an image lie in `[64, 4096]`.
pub open spec fn dimensions_ok(image: PalmImage) -> bool {
    MIN_IMAGE_DIM <= image.width <= MAX_IMAGE_DIM && MIN_IMAGE_DIM <= image.height <= MAX_IMAGE_DIM
}

/// Checks that both sides of an image lie in `[64, 4096]`. The error is the
/// same generic one whichever side failed.
pub fn validate_image_dimensions(image: &PalmImage) -> (r: Result<()>)
    ensures
        r is Ok <==> dimensions_ok(*image),
        r matches Err(e) ==> e matches SableError::InvalidInput(m) && m@ == "Invalid image dimensions"@,
{
    let width_valid = image.width >= MIN_IMAGE_DIM && image.width <= MAX_IMAGE_DIM;
    let height_valid = image.height >= MIN_IMAGE_DIM && image.height <= MAX_IMAGE_DIM;
    if width_valid && height_valid {
        Ok(())
    } else {
        Err(invalid_input("Invalid image dimensions"))
    }
}

/// The dimensions, channel count, bytes and recorded preprocessing steps of
/// an image.
pub struct ImageModel {
    /// Width in pixels.
    pub width: u32,
    /// Height in pixels.
    pub height: u32,
    /// Number of channels.
    pub channels: u32,
    /// Pixel bytes.
    pub data: Seq<u8>,
    /// Names of the preprocessing steps recorded.
    pub steps: Seq<String>,
}

/// The model of an image.
pub open spec fn model_of(img: PalmImage) -> ImageModel {
    ImageModel {
        width: img.width,
        height: img.height,
        channels: img.channels,
        data: img.data@,
        steps: img.preprocessing_steps@,
    }
}

/// Channel 0 of pixel `(x, y)`, if inside the dimensions and present in the
/// buffer.
pub open spec fn mpixel(m: ImageModel, x: int, y: int) -> Option<u8> {
    if 0 <= x < m.width && 0 <= y < m.height && 0 < m.channels && (y * m.width + x) * m.channels
        < m.data.len() {
        Some(m.data[(y * m.width + x) * m.channels])
    } else {
        None
    }
}

/// Channel 0 of pixel `(x, y)`, or 0 where there is none.
pub open spec fn luma(m: ImageModel, x: int, y: int) -> u8 {
    match mpixel(m, x, y) {
        Some(v) => v,
        None => 0,
    }
}

/// Whether pixel `(x, y)` is present.
pub open spec fn present(m: ImageModel, x: int, y: int) -> bool {
    mpixel(m, x, y) is Some
}

/// Whether the 3x3 window centred on `(x, y)` is present.
pub open spec fn window_present(m: ImageModel, x: int, y: int) -> bool {
    &&& present(m, x - 1, y - 1) && present(m, x, y - 1) && present(m, x + 1, y - 1)
    &&& present(m, x - 1, y) && present(m, x, y) && present(m, x + 1, y)
    &&& present(m, x - 1, y + 1) && present(m, x, y + 1) && present(m, x + 1, y + 1)
}

/// Whether `(x, y)` is an interior pixel: not on the border.
pub open spec fn interior(m: ImageModel, x: int, y: int) -> bool {
    1 <= x < m.width - 1 && 1 <= y < m.height - 1
}

/// Whether the 3x3 window of every interior pixel is present.
pub open spec fn windows_present(m: ImageModel) -> bool {
    forall|x: int, y: int| interior(m, x, y) ==> #[trigger] window_present(m, x, y)
}

/// Smallest of three bytes.
pub open spec fn min3(a: u8, b: u8, c: u8) -> u8 {
    let ab = if a < b { a } else { b };
    if ab < c { ab } else { c }
}

/// Largest of three bytes.
pub open spec fn max3(a: u8, b: u8, c: u8) -> u8 {
    let ab = if a > b { a } else { b };
    if ab > c { ab } else { c }
}

/// Smallest value of the 3x3 window centred on `(x, y)`.
pub open spec fn window_min(m: ImageModel, x: int, y: int) -> u8 {
    min3(
        min3(luma(m, x - 1, y - 1), luma(m, x, y - 1), luma(m, x + 1, y - 1)),
        min3(luma(m, x - 1, y), luma(m, x, y), luma(m, x + 1, y)),
        min3(luma(m, x - 1, y + 1), luma(m, x, y + 1), luma(m, x + 1, y + 1)),
    )
}

/// Largest value of the 3x3 window centred on `(x, y)`.
pub open spec fn window_max(m: ImageModel, x: int, y: int) -> u8 {
    max3(
        max3(luma(m, x - 1, y - 1), luma(m, x, y - 1), luma(m, x + 1, y - 1)),
        max3(luma(m, x - 1, y), luma(m, x, y), luma(m, x + 1, y)),
        max3(luma(m, x - 1, y + 1), luma(m, x, y + 1), luma(m, x + 1, y + 1)),
    )
}

/// The bytes of a 3x3 erosion (`take_min`) or dilation: one byte per
/// pixel, row-major, over a buffer as long as the input's; interior pixels
/// hold the window extreme, all other bytes are 0.
pub open spec fn filtered(m: ImageModel, take_min: bool) -> Seq<u8> {
    Seq::new(
        m.data.len(),
        |i: int|
            if m.width > 0 && i < m.width * m.height && interior(m, i % (m.width as int), i / (
            m.width as int)) {
                if take_min {
                    window_min(m, i % (m.width as int), i / (m.width as int))
                } else {
                    window_max(m, i % (m.width as int), i / (m.width as int))
                }
            } else {
                0
            },
    )
}

/// The single-channel result of a 3x3 erosion (`take_min`) or dilation, or
/// `None` when some interior window is not present.
pub open spec fn filter_model(m: ImageModel, take_min: bool) -> Option<ImageModel> {
    if windows_present(m) {
        Some(
            ImageModel {
                width: m.width,
                height: m.height,
                channels: 1,
                data: filtered(m, take_min),
                steps: Seq::empty(),
            },
        )
    } else {
        None
    }
}

/// Preconditions of the 3x3 image operations: non-empty sides, and pixel
/// positions and pixel counts that fit in 32 bits, the width of the
/// arithmetic in which the row-major positions `y * width + x` and
/// `(y * width + x) * channels` of the window's pixels are formed.
pub open spec fn operable(img: PalmImage) -> bool {
    &&& img.width >= 1
    &&& img.height >= 1
    &&& positions_fit(img)
    &&& img.width * img.height <= u32::MAX
}

/// Smallest of three bytes.
fn min3_exec(a: u8, b: u8, c: u8) -> (r: u8)
    ensures
        r == min3(a, b, c),
{
    let ab = if a < b { a } else { b };
    if ab < c { ab } else { c }
}

/// Largest of three bytes.
fn max3_exec(a: u8, b: u8, c: u8) -> (r: u8)
    ensures
        r == max3(a, b, c),
{
    let ab = if a > b { a } else { b };
    if ab > c { ab } else { c }
}

/// The extreme value of the 3x3 window centred on interior pixel `(x, y)`.
fn window_extreme(image: &PalmImage, x: u32, y: u32, take_min: bool) -> (r: Result<u8>)
    requires
        operable(*image),
        interior(model_of(*image), x as int, y as int),
    ensures
        r is Ok <==> window_present(model_of(*image), x as int, y as int),
        r matches Ok(v) ==> v == (if take_min {
            window_min(model_of(*image), x as int, y as int)
        } else {
            window_max(model_of(*image), x as int, y as int)
        }),
        r is Ok ==> y * image.width + x < image.data@.len(),
        r matches Err(e) ==> e is CryptoError,
{
    let ghost m = model_of(*image);
    proof {
        lemma_positions_fit(*image, x - 1, y - 1, 0);
        lemma_positions_fit(*image, x as int, y - 1, 0);
        lemma_positions_fit(*image, x + 1, y - 1, 0);
        lemma_positions_fit(*image, x - 1, y as int, 0);
        lemma_positions_fit(*image, x as int, y as int, 0);
        lemma_positions_fit(*image, x + 1, y as int, 0);
        lemma_positions_fit(*image, x - 1, y + 1, 0);
        lemma_positions_fit(*image, x as int, y + 1, 0);
        lemma_positions_fit(*image, x + 1, y + 1, 0);
    }
    let a0 = image.get_pixel(x - 1, y - 1, 0)?;
    let a1 = image.get_pixel(x, y - 1, 0)?;
    let a2 = image.get_pixel(x + 1, y - 1, 0)?;
    let b0 = image.get_pixel(x - 1, y, 0)?;
    let b1 = image.get_pixel(x, y, 0)?;
    let b2 = image.get_pixel(x + 1, y, 0)?;
    let c0 = image.get_pixel(x - 1, y + 1, 0)?;
    let c1 = image.get_pixel(x, y + 1, 0)?;
    let c2 = image.get_pixel(x + 1, y + 1, 0)?;
    proof {
        let w = image.width as int;
        let ch = image.channels as int;
        assert(0 < ch);
        assert(((y + 1) * w + x + 1) * ch < image.data@.len());
        assert(y * w + x < ((y + 1) * w + x + 1) * ch) by (nonlinear_arith)
            requires
                ch >= 1,
                w >= 0,
                y >= 0,
                x >= 0,
        ;
    }
    if take_min {
        Ok(min3_exec(min3_exec(a0, a1, a2), min3_exec(b0, b1, b2), min3_exec(c0, c1, c2)))
    } else {
        Ok(max3_exec(max3_exec(a0, a1, a2), max3_exec(b0, b1, b2), max3_exec(c0, c1, c2)))
    }
}

/// Row and column of buffer position `i` in rows of width `w`.
proof fn lemma_row_col(w: int, x: int, y: int)
    requires
        w > 0,
        0 <= x < w,
        0 <= y,
    ensures
        (y * w + x) % w == x,
        (y * w + x) / w == y,
{
    vstd::arithmetic::div_mod::lemma_div_multiples_vanish_fancy(y, x, w);
    vstd::arithmetic::div_mod::lemma_mod_multiples_vanish(y, x, w);
    vstd::arithmetic::div_mod::lemma_small_mod(x as nat, w as nat);
    assert(y * w + x == w * y + x) by (nonlinear_arith);
}

/// Whether pixel `(row, col)` precedes `(y, x)` in row-major order.
pub open spec fn before(row: int, col: int, y: int, x: int) -> bool {
    row < y || (row == y && col < x)
}

/// 3x3 erosion (`take_min`) or dilation of channel 0 into a single-channel
/// image.
fn neighbourhood_filter(image: &PalmImage, take_min: bool) -> (r: Result<PalmImage>)
    requires
        operable(*image),
    ensures
        r is Ok <==> filter_model(model_of(*image), take_min) is Some,
        r matches Ok(o) ==> model_of(o) == filter_model(model_of(*image), take_min).unwrap()
            && o.preprocessing_steps@.len() == 0,
        r matches Err(e) ==> e is CryptoError,
{
    let ghost m = model_of(*image);
    let w = image.width;
    let h = image.height;
    let len = image.data.len();
    let mut out: Vec<u8> = vec![0u8; len];
    let mut y: u32 = 1;
    while y < h - 1
        invariant
            operable(*image),
            m == model_of(*image),
            w == image.width,
            h == image.height,
            len == image.data@.len(),
            out@.len() == len,
            1 <= y,
            y <= h - 1 || h < 2,
            forall|x2: int, y2: int|
                interior(m, x2, y2) && y2 < y ==> #[trigger] window_present(m, x2, y2),
            forall|i: int|
                0 <= i < len ==> #[trigger] out@[i] == (if i < w * h && interior(
                    m,
                    i % (w as int),
                    i / (w as int),
                ) && i / (w as int) < y {
                    if take_min {
                        window_min(m, i % (w as int), i / (w as int))
                    } else {
                        window_max(m, i % (w as int), i / (w as int))
                    }
                } else {
                    0u8
                }),
        decreases h - y,
    {
        let mut x: u32 = 1;
        while x < w - 1
            invariant
                operable(*image),
                m == model_of(*image),
                w == image.width,
                h == image.height,
                len == image.data@.len(),
                out@.len() == len,
                1 <= y < h - 1,
                1 <= x,
                x <= w - 1 || w < 2,
                forall|x2: int, y2: int|
                    interior(m, x2, y2) && before(y2, x2, y as int, x as int) ==> #[trigger] window_present(
                        m,
                        x2,
                        y2,
                    ),
                forall|i: int|
                    0 <= i < len ==> #[trigger] out@[i] == (if i < w * h && interior(
                        m,
                        i % (w as int),
                        i / (w as int),
                    ) && before(i / (w as int), i % (w as int), y as int, x as int) {
                        if take_min {
                            window_min(m, i % (w as int), i / (w as int))
                        } else {
                            window_max(m, i % (w as int), i / (w as int))
                        }
                    } else {
                        0u8
                    }),
            decreases w - x,
        {
            let v = match window_extreme(image, x, y, take_min) {
                Ok(v) => v,
                Err(e) => {
                    return Err(e);
                },
            };
            proof {
                lemma_row_col(w as int, x as int, y as int);
                assert((y as int) * (w as int) + (x as int) < (w as int) * (h as int)) by (nonlinear_arith)
                    requires
                        0 <= x < w,
                        0 <= y < h,
                ;
            }
            let idx = (y * w + x) as usize;
            let ghost before_out = out@;
            out.set(idx, v);
            proof {
                assert forall|i: int| 0 <= i < len implies #[trigger] out@[i] == (if i < w * h
                    && interior(m, i % (w as int), i / (w as int)) && before(
                    i / (w as int),
                    i % (w as int),
                    y as int,
                    (x + 1) as int,
                ) {
                    if take_min {
                        window_min(m, i % (w as int), i / (w as int))
                    } else {
                        window_max(m, i % (w as int), i / (w as int))
                    }
                } else {
                    0u8
                }) by {
                    if i != idx {
                        assert(out@[i] == before_out[i]);
                        if i / (w as int) == y as int && i % (w as int) == x as int {
                            vstd::arithmetic::div_mod::lemma_fundamental_div_mod(i, w as int);
                            assert(i == (w as int) * (y as int) + (x as int));
                            assert(i == idx) by (nonlinear_arith)
                                requires
                                    i == (w as int) * (y as int) + (x as int),
                                    idx == (y as int) * (w as int) + (x as int),
                            ;
                        }
                    }
                }
            }
            x = x + 1;
        }
        proof {
            assert forall|i: int| 0 <= i < len implies #[trigger] out@[i] == (if i < w * h && interior(
                m,
                i % (w as int),
                i / (w as int),
            ) && i / (w as int) < y + 1 {
                if take_min {
                    window_min(m, i % (w as int), i / (w as int))
                } else {
                    window_max(m, i % (w as int), i / (w as int))
                }
            } else {
                0u8
            }) by {
                if interior(m, i % (w as int), i / (w as int)) {
                    assert(before(i / (w as int), i % (w as int), y as int, x as int) <==> i / (w as int) < y + 1);
                }
            }
            assert forall|x2: int, y2: int| interior(m, x2, y2) && y2 < y + 1 implies #[trigger] window_present(
                m,
                x2,
                y2,
            ) by {
                assert(before(y2, x2, y as int, x as int));
            }
        }
        y = y + 1;
    }
    proof {
        assert forall|x2: int, y2: int| interior(m, x2, y2) implies #[trigger] window_present(m, x2, y2) by {
            assert(y2 < y);
        }
        assert(out@ =~= filtered(m, take_min)) by {
            assert forall|i: int| 0 <= i < len implies out@[i] == filtered(m, take_min)[i] by {
                if w > 0 && i < w * h && interior(m, i % (w as int), i / (w as int)) {
                    assert(i / (w as int) < y);
                }
            }
        }
    }
    let o = PalmImage::new(w, h, 1, out);
    assert(o.preprocessing_steps@ =~= Seq::<String>::empty());
    Ok(o)
}

/// Erosion followed by dilation.
pub open spec fn opening_model(m: ImageModel) -> Option<ImageModel> {
    match filter_model(m, true) {
        Some(e) => filter_model(e, false),
        None => None,
    }
}

/// Dilation followed by erosion.
pub open spec fn closing_model(m: ImageModel) -> Option<ImageModel> {
    match filter_model(m, false) {
        Some(d) => filter_model(d, true),
        None => None,
    }
}

/// Opening followed by closing.
pub open spec fn morphology_model(m: ImageModel) -> Option<ImageModel> {
    match opening_model(m) {
        Some(o) => closing_model(o),
        None => None,
    }
}

/// The result of a 3x3 operation on an operable image is operable.
proof fn lemma_filtered_operable(img: PalmImage, o: PalmImage, take_min: bool)
    requires
        operable(img),
        filter_model(model_of(img), take_min) is Some,
        model_of(o) == filter_model(model_of(img), take_min).unwrap(),
    ensures
        operable(o),
{
    assert(o.width * o.height * o.channels == o.width * o.height) by (nonlinear_arith)
        requires
            o.channels == 1,
    ;
}

/// 3x3 erosion: each interior pixel becomes the minimum of its window.
pub fn morphological_erosion(image: &PalmImage) -> (r: Result<PalmImage>)
    requires
        operable(*image),
    ensures
        r is Ok <==> filter_model(model_of(*image), true) is Some,
        r matches Ok(o) ==> model_of(o) == filter_model(model_of(*image), true).unwrap()
            && operable(o),
        r matches Err(e) ==> e is CryptoError,
{
    let r = neighbourhood_filter(image, true);
    proof {
        if r is Ok {
            lemma_filtered_operable(*image, r->Ok_0, true);
        }
    }
    r
}

/// 3x3 dilation: each interior pixel becomes the maximum of its window.
pub fn morphological_dilation(image: &PalmImage) -> (r: Result<PalmImage>)
    requires
        operable(*image),
    ensures
        r is Ok <==> filter_model(model_of(*image), false) is Some,
        r matches Ok(o) ==> model_of(o) == filter_model(model_of(*image), false).unwrap()
            && operable(o),
        r matches Err(e) ==> e is CryptoError,
{
    let r = neighbourhood_filter(image, false);
    proof {
        if r is Ok {
            lemma_filtered_operable(*image, r->Ok_0, false);
        }
    }
    r
}

/// Morphological opening: erosion followed by dilation.
pub fn morphological_opening(image: &PalmImage) -> (r: Result<PalmImage>)
    requires
        operable(*image),
    ensures
        r is Ok <==> opening_model(model_of(*image)) is Some,
        r matches Ok(o) ==> model_of(o) == opening_model(model_of(*image)).unwrap() && operable(o),
        r matches Err(e) ==> e is CryptoError,
{
    let eroded = morphological_erosion(image)?;
    morphological_dilation(&eroded)
}

/// Morphological closing: dilation followed by erosion.
pub fn morphological_closing(image: &PalmImage) -> (r: Result<PalmImage>)
    requires
        operable(*image),
    ensures
        r is Ok <==> closing_model(model_of(*image)) is Some,
        r matches Ok(o) ==> model_of(o) == closing_model(model_of(*image)).unwrap() && operable(o),
        r matches Err(e) ==> e is CryptoError,
{
    let dilated = morphological_dilation(image)?;
    morphological_erosion(&dilated)
}

/// Vein structure refinement: opening followed by closing.
pub fn apply_morphological_operations(image: &PalmImage) -> (r: Result<PalmImage>)
    requires
        operable(*image),
    ensures
        r is Ok <==> morphology_model(model_of(*image)) is Some,
        r matches Ok(o) ==> model_of(o) == morphology_model(model_of(*image)).unwrap() && operable(o),
        r matches Err(e) ==> e is CryptoError,
{
    let opened = morphological_opening(image)?;
    morphological_closing(&opened)
}

/// Whether every pixel inside the dimensions is present.
pub open spec fn all_present(m: ImageModel) -> bool {
    forall|x: int, y: int| 0 <= x < m.width && 0 <= y < m.height ==> #[trigger] present(m, x, y)
}

/// Foreground map of an image: pixel `i` (row-major) is foreground when its
/// channel-0 value exceeds 128.
pub open spec fn binary_of(m: ImageModel) -> Seq<bool> {
    Seq::new(
        (m.width * m.height) as nat,
        |i: int| luma(m, i % (m.width as int), i / (m.width as int)) > 128,
    )
}

/// Cell `idx` of a foreground map; outside the map counts as background.
pub open spec fn cell(b: Seq<bool>, idx: int) -> bool {
    0 <= idx < b.len() && b[idx]
}

/// The eight neighbours of `(x, y)` clockwise from the top: P2 (north) to
/// P9 (north-west).
pub open spec fn zs_neighbours(b: Seq<bool>, w: int, x: int, y: int) -> Seq<bool> {
    seq![
        cell(b, (y - 1) * w + x),
        cell(b, (y - 1) * w + x + 1),
        cell(b, y * w + x + 1),
        cell(b, (y + 1) * w + x + 1),
        cell(b, (y + 1) * w + x),
        cell(b, (y + 1) * w + x - 1),
        cell(b, y * w + x - 1),
        cell(b, (y - 1) * w + x - 1),
    ]
}

/// 1 when a background cell is followed by a foreground cell.
pub open spec fn rise(a: bool, b: bool) -> int {
    if !a && b {
        1
    } else {
        0
    }
}

/// 1 for a foreground cell.
pub open spec fn ind(a: bool) -> int {
    if a {
        1
    } else {
        0
    }
}

/// Number of background-to-foreground transitions around the neighbours.
pub open spec fn zs_transitions(n: Seq<bool>) -> int {
    rise(n[0], n[1]) + rise(n[1], n[2]) + rise(n[2], n[3]) + rise(n[3], n[4]) + rise(n[4], n[5])
        + rise(n[5], n[6]) + rise(n[6], n[7]) + rise(n[7], n[0])
}

/// Number of foreground neighbours.
pub open spec fn zs_count(n: Seq<bool>) -> int {
    ind(n[0]) + ind(n[1]) + ind(n[2]) + ind(n[3]) + ind(n[4]) + ind(n[5]) + ind(n[6]) + ind(n[7])
}

/// The Zhang-Suen deletion test for foreground pixel `(x, y)`: two to six
/// foreground neighbours, exactly one transition around them, and (first
/// sub-step) P2·P4·P6 = 0 and P4·P6·P8 = 0, or (second sub-step)
/// P2·P4·P8 = 0 and P2·P6·P8 = 0.
pub open spec fn zs_deletable(b: Seq<bool>, w: int, x: int, y: int, step1: bool) -> bool {
    let n = zs_neighbours(b, w, x, y);
    &&& b[y * w + x]
    &&& 2 <= zs_count(n) <= 6
    &&& zs_transitions(n) == 1
    &&& if step1 {
        (!n[0] || !n[2] || !n[4]) && (!n[0] || !n[4] || !n[6])
    } else {
        (!n[2] || !n[4] || !n[6]) && (!n[0] || !n[2] || !n[6])
    }
}

/// Zhang-Suen deletion test on a foreground map of width `width`.
pub fn should_delete_pixel(binary: &[bool], x: usize, y: usize, width: usize, step1: bool) -> (d: bool)
    requires
        x >= 1,
        y >= 1,
        y * width + x < binary@.len(),
        y < usize::MAX,
        (y + 1) * width + x + 1 <= usize::MAX,
    ensures
        d == zs_deletable(binary@, width as int, x as int, y as int, step1),
{
    assert((y - 1) * width <= y * width <= (y + 1) * width) by (nonlinear_arith)
        requires
            y >= 1,
    ;
    if !binary[y * width + x] {
        return false;
    }
    let up = (y - 1) * width;
    let mid = y * width;
    let y1 = y + 1;
    assert(y1 * width <= usize::MAX);
    let down = y1 * width;
    let len = binary.len();
    let n: [bool; 8] = [
        up + x < len && binary[up + x],
        up + x + 1 < len && binary[up + x + 1],
        mid + x + 1 < len && binary[mid + x + 1],
        down + x + 1 < len && binary[down + x + 1],
        down + x < len && binary[down + x],
        down + x - 1 < len && binary[down + x - 1],
        mid + x - 1 < len && binary[mid + x - 1],
        up + x - 1 < len && binary[up + x - 1],
    ];
    let ghost ns = zs_neighbours(binary@, width as int, x as int, y as int);
    assert(n@ =~= ns);
    let mut transitions: u32 = 0;
    let mut i: usize = 0;
    while i < 8
        invariant
            i <= 8,
            n@ == ns,
            transitions == (if i > 0 { rise(ns[0], ns[1]) } else { 0 }) + (if i > 1 { rise(ns[1], ns[2]) } else { 0 })
                + (if i > 2 { rise(ns[2], ns[3]) } else { 0 }) + (if i > 3 { rise(ns[3], ns[4]) } else { 0 })
                + (if i > 4 { rise(ns[4], ns[5]) } else { 0 }) + (if i > 5 { rise(ns[5], ns[6]) } else { 0 })
                + (if i > 6 { rise(ns[6], ns[7]) } else { 0 }) + (if i > 7 { rise(ns[7], ns[0]) } else { 0 }),
        decreases 8 - i,
    {
        let current = n[i];
        let next = n[(i + 1) % 8];
        if !current && next {
            transitions = transitions + 1;
        }
        i = i + 1;
    }
    let mut count: u32 = 0;
    let mut i: usize = 0;
    while i < 8
        invariant
            i <= 8,
            n@ == ns,
            count == (if i > 0 { ind(ns[0]) } else { 0 }) + (if i > 1 { ind(ns[1]) } else { 0 }) + (if i > 2 {
                ind(ns[2])
            } else { 0 }) + (if i > 3 { ind(ns[3]) } else { 0 }) + (if i > 4 { ind(ns[4]) } else { 0 }) + (
            if i > 5 { ind(ns[5]) } else { 0 }) + (if i > 6 { ind(ns[6]) } else { 0 }) + (if i > 7 {
                ind(ns[7])
            } else { 0 }),
        decreases 8 - i,
    {
        if n[i] {
            count = count + 1;
        }
        i = i + 1;
    }
    let condition1 = count >= 2 && count <= 6;
    let condition2 = transitions == 1;
    let condition3 = if step1 {
        !n[0] || !n[2] || !n[4]
    } else {
        !n[2] || !n[4] || !n[6]
    };
    let condition4 = if step1 {
        !n[0] || !n[4] || !n[6]
    } else {
        !n[0] || !n[2] || !n[6]
    };
    condition1 && condition2 && condition3 && condition4
}

/// Whether `(x, y)` lies strictly inside a `w x h` grid.
pub open spec fn inside(w: int, h: int, x: int, y: int) -> bool {
    1 <= x < w - 1 && 1 <= y < h - 1
}

/// One Zhang-Suen sub-step on a `w x h` foreground map: every interior
/// pixel that passes the deletion test on the map as it stood is cleared.
pub open spec fn zs_pass(b: Seq<bool>, w: int, h: int, step1: bool) -> Seq<bool> {
    Seq::new(
        b.len(),
        |i: int| b[i] && !(inside(w, h, i % w, i / w) && zs_deletable(b, w, i % w, i / w, step1)),
    )
}

/// Number of foreground cells.
pub open spec fn count_true(s: Seq<bool>) -> nat
    decreases s.len(),
{
    if s.len() == 0 {
        0
    } else {
        count_true(s.drop_last()) + if s.last() {
            1nat
        } else {
            0nat
        }
    }
}

/// A map whose foreground lies within another's has no more foreground
/// cells, and fewer when it differs.
pub proof fn lemma_count_subset(a: Seq<bool>, b: Seq<bool>)
    requires
        a.len() == b.len(),
        forall|i: int| 0 <= i < a.len() && #[trigger] a[i] ==> b[i],
    ensures
        count_true(a) <= count_true(b),
        a != b ==> count_true(a) < count_true(b),
    decreases a.len(),
{
    if a.len() > 0 {
        let n = a.len() as int;
        let a1 = a.drop_last();
        let b1 = b.drop_last();
        assert forall|i: int| 0 <= i < a1.len() && #[trigger] a1[i] implies b1[i] by {
            assert(a[i]);
        }
        lemma_count_subset(a1, b1);
        assert(a[n - 1] ==> b[n - 1]);
        if a != b && a1 == b1 {
            if a[n - 1] == b[n - 1] {
                assert(a =~= b) by {
                    assert forall|i: int| 0 <= i < n implies a[i] == b[i] by {
                        if i < n - 1 {
                            assert(a1[i] == b1[i]);
                        }
                    }
                }
            }
        }
    } else {
        assert(a =~= b);
    }
}

/// Two sequences of one length that are not equal differ at some position.
proof fn lemma_seq_differs(a: Seq<bool>, b: Seq<bool>)
    requires
        a.len() == b.len(),
        a != b,
    ensures
        exists|j: int| 0 <= j < a.len() && a[j] != b[j],
{
    if !(exists|j: int| 0 <= j < a.len() && a[j] != b[j]) {
        assert(a =~= b);
    }
}

/// The two sub-steps of a Zhang-Suen iteration.
pub open spec fn zs_iteration(b: Seq<bool>, w: int, h: int) -> Seq<bool> {
    zs_pass(zs_pass(b, w, h, true), w, h, false)
}

/// An iteration only clears cells, and strictly reduces the foreground when
/// it changes the map.
pub proof fn lemma_iteration_shrinks(b: Seq<bool>, w: int, h: int)
    ensures
        zs_iteration(b, w, h).len() == b.len(),
        forall|i: int| 0 <= i < b.len() && #[trigger] zs_iteration(b, w, h)[i] ==> b[i],
        zs_iteration(b, w, h) != b ==> count_true(zs_iteration(b, w, h)) < count_true(b),
{
    let b2 = zs_iteration(b, w, h);
    assert forall|i: int| 0 <= i < b.len() && #[trigger] b2[i] implies b[i] by {
        assert(zs_pass(b, w, h, true)[i]);
    }
    lemma_count_subset(b2, b);
}

/// Zhang-Suen thinning: iterations repeat until one changes nothing.
pub open spec fn zs_thin(b: Seq<bool>, w: int, h: int) -> Seq<bool>
    decreases count_true(b),
{
    let b2 = zs_iteration(b, w, h);
    if b2 == b {
        b
    } else {
        proof {
            lemma_iteration_shrinks(b, w, h);
        }
        zs_thin(b2, w, h)
    }
}

/// Bytes of a foreground map: 255 for foreground, 0 for background.
pub open spec fn bytes_of(b: Seq<bool>) -> Seq<u8> {
    Seq::new(b.len(), |i: int| if b[i] { 255u8 } else { 0u8 })
}

/// Row and column bounds of a position in a `w x h` grid.
proof fn lemma_grid_position(i: int, w: int, h: int)
    requires
        w > 0,
        0 <= i < w * h,
    ensures
        0 <= i % w < w,
        0 <= i / w < h,
        i == (i / w) * w + i % w,
{
    vstd::arithmetic::div_mod::lemma_fundamental_div_mod(i, w);
    let q = i / w;
    let r = i % w;
    assert(0 <= r < w);
    assert(i == w * q + r);
    assert(0 <= q < h) by (nonlinear_arith)
        requires
            w > 0,
            i == w * q + r,
            0 <= r < w,
            0 <= i < w * h,
    ;
    assert(w * q == q * w) by (nonlinear_arith);
}

/// One Zhang-Suen sub-step, with whether it cleared any cell.
fn zs_pass_exec(b: &Vec<bool>, width: usize, height: usize, step1: bool) -> (r: (Vec<bool>, bool))
    requires
        width >= 1,
        height >= 1,
        width * height <= u32::MAX,
        b@.len() == width * height,
    ensures
        r.0@ == zs_pass(b@, width as int, height as int, step1),
        r.1 <==> r.0@ != b@,
{
    let n = width * height;
    let mut out: Vec<bool> = Vec::new();
    let mut changed = false;
    let mut i: usize = 0;
    assert(out@ =~= b@.subrange(0, 0));
    while i < n
        invariant
            width >= 1,
            height >= 1,
            n == width * height,
            n <= u32::MAX,
            b@.len() == n,
            i <= n,
            out@.len() == i,
            forall|j: int| 0 <= j < i ==> #[trigger] out@[j] == zs_pass(b@, width as int, height as int, step1)[j],
            forall|j: int| 0 <= j < i && #[trigger] out@[j] ==> b@[j],
            changed <==> out@ != b@.subrange(0, i as int),
        decreases n - i,
    {
        proof {
            lemma_grid_position(i as int, width as int, height as int);
        }
        let x = i % width;
        let y = i / width;
        let mut keep = b[i];
        if keep && x >= 1 && x + 1 < width && y >= 1 && y + 1 < height {
            assert((y + 1) * width + x + 1 <= width * height) by (nonlinear_arith)
                requires
                    y + 1 < height,
                    x + 1 < width,
            ;
            if should_delete_pixel(b.as_slice(), x, y, width, step1) {
                keep = false;
            }
        }
        let ghost old_out = out@;
        let ghost old_sub = b@.subrange(0, i as int);
        if b[i] && !keep {
            changed = true;
        }
        out.push(keep);
        proof {
            let new_sub = b@.subrange(0, i + 1);
            assert(new_sub =~= old_sub.push(b@[i as int]));
            assert(out@ =~= old_out.push(keep));
            if old_out == old_sub && keep == b@[i as int] {
                assert(out@ =~= new_sub);
            }
            if out@ == new_sub {
                assert(old_out =~= out@.drop_last());
                assert(old_sub =~= new_sub.drop_last());
                assert(out@[i as int] == new_sub[i as int]);
            }
        }
        i = i + 1;
    }
    proof {
        assert(out@ =~= zs_pass(b@, width as int, height as int, step1));
        assert(b@.subrange(0, n as int) =~= b@);
    }
    (out, changed)
}

/// Zhang-Suen thinning of the foreground (channel 0 above 128) of an image
/// to a one-pixel-wide skeleton, as a single-channel image of 255s and 0s.
/// Every pixel inside the dimensions must be present.
pub fn apply_zhang_suen_thinning(image: &PalmImage) -> (r: Result<PalmImage>)
    requires
        operable(*image),
    ensures
        r is Ok <==> all_present(model_of(*image)),
        r matches Ok(o) ==> o.width == image.width && o.height == image.height && o.channels == 1
            && o.data@ == bytes_of(
            zs_thin(binary_of(model_of(*image)), image.width as int, image.height as int),
        ) && o.preprocessing_steps@.len() == 0,
        r matches Err(e) ==> e is CryptoError,
{
    let ghost m = model_of(*image);
    let width = image.width as usize;
    let height = image.height as usize;
    let n = width * height;
    let mut binary: Vec<bool> = Vec::new();
    let mut i: usize = 0;
    while i < n
        invariant
            operable(*image),
            m == model_of(*image),
            width == image.width,
            height == image.height,
            n == width * height,
            i <= n,
            binary@.len() == i,
            forall|j: int| 0 <= j < i ==> #[trigger] binary@[j] == binary_of(m)[j],
            forall|j: int| 0 <= j < i ==> #[trigger] present(m, j % (width as int), j / (width as int)),
        decreases n - i,
    {
        proof {
            lemma_grid_position(i as int, width as int, height as int);
            lemma_positions_fit(*image, (i % width) as int, (i / width) as int, 0);
        }
        let x = (i % width) as u32;
        let y = (i / width) as u32;
        let pixel = match image.get_pixel(x, y, 0) {
            Ok(p) => p,
            Err(e) => {
                proof {
                    assert(!present(m, x as int, y as int));
                }
                return Err(e);
            },
        };
        binary.push(pixel > 128);
        i = i + 1;
    }
    proof {
        assert(binary@ =~= binary_of(m));
        assert forall|x: int, y: int| 0 <= x < m.width && 0 <= y < m.height implies #[trigger] present(m, x, y) by {
            let j = y * (width as int) + x;
            lemma_row_col(width as int, x, y);
            assert(j < n) by (nonlinear_arith)
                requires
                    0 <= x < width,
                    0 <= y < height,
                    j == y * width + x,
                    n == width * height,
            ;
            assert(present(m, j % (width as int), j / (width as int)));
        }
    }
    let ghost start = binary@;
    let mut bin = binary;
    loop
        invariant
            width >= 1,
            height >= 1,
            n == width * height,
            n <= u32::MAX,
            bin@.len() == n,
            zs_thin(bin@, width as int, height as int) == zs_thin(start, width as int, height as int),
        ensures
            bin@ == zs_thin(start, width as int, height as int),
        decreases count_true(bin@),
    {
        let (b1, changed1) = zs_pass_exec(&bin, width, height, true);
        let (b2, changed2) = zs_pass_exec(&b1, width, height, false);
        proof {
            lemma_iteration_shrinks(bin@, width as int, height as int);
            assert(b2@ == zs_iteration(bin@, width as int, height as int));
            if changed1 {
                lemma_seq_differs(b1@, bin@);
                let j = choose|j: int| 0 <= j < b1@.len() && b1@[j] != bin@[j];
                assert(b1@[j] == zs_pass(bin@, width as int, height as int, true)[j]);
                assert(b2@[j] == zs_pass(b1@, width as int, height as int, false)[j]);
                assert(b2@[j] != bin@[j]);
            }
            if changed2 {
                lemma_seq_differs(b2@, b1@);
                let j = choose|j: int| 0 <= j < b2@.len() && b2@[j] != b1@[j];
                assert(b1@[j] == zs_pass(bin@, width as int, height as int, true)[j]);
                assert(b2@[j] == zs_pass(b1@, width as int, height as int, false)[j]);
                assert(b2@[j] != bin@[j]);
            }
        }
        if !changed1 && !changed2 {
            proof {
                assert(b1@ == bin@);
                assert(b2@ == bin@);
            }
            break;
        }
        bin = b2;
    }
    let mut data: Vec<u8> = Vec::new();
    let mut k: usize = 0;
    while k < n
        invariant
            bin@.len() == n,
            k <= n,
            data@.len() == k,
            forall|j: int| 0 <= j < k ==> #[trigger] data@[j] == bytes_of(bin@)[j],
        decreases n - k,
    {
        let v: u8 = if bin[k] { 255 } else { 0 };
        data.push(v);
        k = k + 1;
    }
    proof {
        assert(data@ =~= bytes_of(bin@));
    }
    Ok(PalmImage::new(image.width, image.height, 1, data))
}

/// A 32-bit coordinate moved by `d` in `{-1, 0, 1}`, wrapping around.
pub open spec fn step_wrap(v: u32, d: int) -> int {
    if d < 0 {
        if v == 0 { u32::MAX as int } else { v - 1 }
    } else if d > 0 {
        if v == u32::MAX { 0 } else { v + 1 }
    } else {
        v as int
    }
}

/// Whether the neighbour of `(x, y)` at offset `(dx, dy)` lies inside the
/// dimensions.
pub open spec fn nb_inside(m: ImageModel, x: u32, y: u32, dx: int, dy: int) -> bool {
    step_wrap(x, dx) < m.width && step_wrap(y, dy) < m.height
}

/// Whether the neighbour at `(dx, dy)` is readable: outside the dimensions,
/// or present.
pub open spec fn nb_readable(m: ImageModel, x: u32, y: u32, dx: int, dy: int) -> bool {
    nb_inside(m, x, y, dx, dy) ==> present(m, step_wrap(x, dx), step_wrap(y, dy))
}

/// 1 when the neighbour at `(dx, dy)` is inside and foreground.
pub open spec fn nb_fg(m: ImageModel, x: u32, y: u32, dx: int, dy: int) -> int {
    if nb_inside(m, x, y, dx, dy) && luma(m, step_wrap(x, dx), step_wrap(y, dy)) > 128 {
        1
    } else {
        0
    }
}

/// Whether all eight neighbours of `(x, y)` are readable.
pub open spec fn neighbours_readable(m: ImageModel, x: u32, y: u32) -> bool {
    &&& nb_readable(m, x, y, -1, -1) && nb_readable(m, x, y, 0, -1) && nb_readable(m, x, y, 1, -1)
    &&& nb_readable(m, x, y, -1, 0) && nb_readable(m, x, y, 1, 0)
    &&& nb_readable(m, x, y, -1, 1) && nb_readable(m, x, y, 0, 1) && nb_readable(m, x, y, 1, 1)
}

/// Number of foreground (above 128) pixels among the eight neighbours of
/// `(x, y)` inside the dimensions.
pub open spec fn foreground_neighbours(m: ImageModel, x: u32, y: u32) -> int {
    nb_fg(m, x, y, -1, -1) + nb_fg(m, x, y, 0, -1) + nb_fg(m, x, y, 1, -1) + nb_fg(m, x, y, -1, 0)
        + nb_fg(m, x, y, 1, 0) + nb_fg(m, x, y, -1, 1) + nb_fg(m, x, y, 0, 1) + nb_fg(m, x, y, 1, 1)
}

/// A coordinate moved by `d` in `{-1, 0, 1}`, wrapping around.
fn step_wrap_exec(v: u32, d: i8) -> (r: u32)
    requires
        -1 <= d <= 1,
    ensures
        r == step_wrap(v, d as int),
{
    if d < 0 {
        if v == 0 { u32::MAX } else { v - 1 }
    } else if d > 0 {
        if v == u32::MAX { 0 } else { v + 1 }
    } else {
        v
    }
}

/// 1 when the neighbour at `(dx, dy)` is inside and foreground.
fn neighbour_foreground(image: &PalmImage, x: u32, y: u32, dx: i8, dy: i8) -> (r: Result<u32>)
    requires
        positions_fit(*image),
        -1 <= dx <= 1,
        -1 <= dy <= 1,
    ensures
        r is Ok <==> nb_readable(model_of(*image), x, y, dx as int, dy as int),
        r matches Ok(v) ==> v == nb_fg(model_of(*image), x, y, dx as int, dy as int),
        r matches Err(e) ==> e is CryptoError,
{
    let nx = step_wrap_exec(x, dx);
    let ny = step_wrap_exec(y, dy);
    if nx < image.width && ny < image.height {
        proof {
            lemma_positions_fit(*image, nx as int, ny as int, 0);
        }
        let pixel = image.get_pixel(nx, ny, 0)?;
        if pixel > 128 {
            Ok(1)
        } else {
            Ok(0)
        }
    } else {
        Ok(0)
    }
}

/// Number of foreground (above 128) pixels among the 8-connected
/// neighbours of `(x, y)` that lie inside the image.
pub fn count_foreground_neighbors(image: &PalmImage, x: u32, y: u32) -> (r: Result<u32>)
    requires
        positions_fit(*image),
    ensures
        r is Ok <==> neighbours_readable(model_of(*image), x, y),
        r matches Ok(n) ==> n == foreground_neighbours(model_of(*image), x, y),
        r matches Err(e) ==> e is CryptoError,
{
    let a = neighbour_foreground(image, x, y, -1, -1)?;
    let b = neighbour_foreground(image, x, y, 0, -1)?;
    let c = neighbour_foreground(image, x, y, 1, -1)?;
    let d = neighbour_foreground(image, x, y, -1, 0)?;
    let e = neighbour_foreground(image, x, y, 1, 0)?;
    let f = neighbour_foreground(image, x, y, -1, 1)?;
    let g = neighbour_foreground(image, x, y, 0, 1)?;
    let h = neighbour_foreground(image, x, y, 1, 1)?;
    Ok(a + b + c + d + e + f + g + h)
}

/// Whether interior pixel `(x, y)` is a skeleton feature: foreground, with
/// at least three foreground neighbours (`bifurcation`) or exactly one.
pub open spec fn is_skeleton_feature(m: ImageModel, x: u32, y: u32, bifurcation: bool) -> bool {
    &&& luma(m, x as int, y as int) > 128
    &&& if bifurcation {
        foreground_neighbours(m, x, y) >= 3
    } else {
        foreground_neighbours(m, x, y) == 1
    }
}

/// Whether the interior pixel at row-major position `i` can be examined:
/// present, and when foreground its neighbours are readable.
pub open spec fn examinable(m: ImageModel, x: int, y: int) -> bool {
    &&& present(m, x, y)
    &&& luma(m, x, y) > 128 ==> neighbours_readable(m, x as u32, y as u32)
}

/// The skeleton features among the first `i` row-major positions, in
/// row-major order.
pub open spec fn features_upto(m: ImageModel, i: int, bifurcation: bool) -> Seq<(u32, u32)>
    decreases i,
{
    if i <= 0 || m.width == 0 {
        seq![]
    } else {
        let prev = features_upto(m, i - 1, bifurcation);
        let x = (i - 1) % (m.width as int);
        let y = (i - 1) / (m.width as int);
        if interior(m, x, y) && is_skeleton_feature(m, x as u32, y as u32, bifurcation) {
            prev.push((x as u32, y as u32))
        } else {
            prev
        }
    }
}

/// Whether every interior pixel among the first `i` positions can be
/// examined.
pub open spec fn examinable_upto(m: ImageModel, i: int) -> bool {
    forall|j: int|
        0 <= j < i && interior(m, j % (m.width as int), j / (m.width as int)) ==> #[trigger] examinable(
            m,
            j % (m.width as int),
            j / (m.width as int),
        )
}

/// Interior skeleton features (bifurcations or endpoints) in row-major
/// order.
fn detect_skeleton_features(skeleton: &PalmImage, bifurcation: bool) -> (r: Result<Vec<(u32, u32)>>)
    requires
        operable(*skeleton),
    ensures
        r is Ok <==> examinable_upto(model_of(*skeleton), skeleton.width * skeleton.height),
        r matches Ok(v) ==> v@ == features_upto(
            model_of(*skeleton),
            skeleton.width * skeleton.height,
            bifurcation,
        ),
        r matches Err(e) ==> e is CryptoError,
{
    let ghost m = model_of(*skeleton);
    let width = skeleton.width as usize;
    let height = skeleton.height as usize;
    let n = width * height;
    let mut found: Vec<(u32, u32)> = Vec::new();
    let mut i: usize = 0;
    while i < n
        invariant
            operable(*skeleton),
            m == model_of(*skeleton),
            width == skeleton.width,
            height == skeleton.height,
            n == width * height,
            i <= n,
            found@ == features_upto(m, i as int, bifurcation),
            examinable_upto(m, i as int),
        decreases n - i,
    {
        proof {
            lemma_grid_position(i as int, width as int, height as int);
        }
        let x = (i % width) as u32;
        let y = (i / width) as u32;
        if x >= 1 && x + 1 < skeleton.width && y >= 1 && y + 1 < skeleton.height {
            proof {
                lemma_positions_fit(*skeleton, x as int, y as int, 0);
            }
            let pixel = match skeleton.get_pixel(x, y, 0) {
                Ok(p) => p,
                Err(e) => {
                    proof {
                        assert(!examinable(m, x as int, y as int));
                    }
                    return Err(e);
                },
            };
            if pixel > 128 {
                let count = match count_foreground_neighbors(skeleton, x, y) {
                    Ok(c) => c,
                    Err(e) => {
                        proof {
                            assert(!examinable(m, x as int, y as int));
                        }
                        return Err(e);
                    },
                };
                let hit = if bifurcation { count >= 3 } else { count == 1 };
                if hit {
                    found.push((x, y));
                }
            }
        }
        i = i + 1;
    }
    Ok(found)
}

/// Vein bifurcations: interior foreground pixels with at least three
/// foreground neighbours, in row-major order.
pub fn detect_vein_bifurcations(skeleton: &PalmImage) -> (r: Result<Vec<(u32, u32)>>)
    requires
        operable(*skeleton),
    ensures
        r is Ok <==> examinable_upto(model_of(*skeleton), skeleton.width * skeleton.height),
        r matches Ok(v) ==> v@ == features_upto(model_of(*skeleton), skeleton.width * skeleton.height, true),
        r matches Err(e) ==> e is CryptoError,
{
    detect_skeleton_features(skeleton, true)
}

/// Vein endpoints: interior foreground pixels with exactly one foreground
/// neighbour, in row-major order.
pub fn detect_vein_endpoints(skeleton: &PalmImage) -> (r: Result<Vec<(u32, u32)>>)
    requires
        operable(*skeleton),
    ensures
        r is Ok <==> examinable_upto(model_of(*skeleton), skeleton.width * skeleton.height),
        r matches Ok(v) ==> v@ == features_upto(model_of(*skeleton), skeleton.width * skeleton.height, false),
        r matches Err(e) ==> e is CryptoError,
{
    detect_skeleton_features(skeleton, false)
}

/// Sum of bytes `d[y * w + x]` for `x` in `[x0, x)`.
pub open spec fn byte_row_sum(d: Seq<u8>, w: int, y: int, x0: int, x: int) -> int
    decreases x - x0,
{
    if x <= x0 {
        0
    } else {
        byte_row_sum(d, w, y, x0, x - 1) + d[y * w + x - 1] as int
    }
}

/// Sum of bytes over columns `[x0, x1)` of rows `[y0, y)`.
pub open spec fn byte_block_sum(d: Seq<u8>, w: int, x0: int, x1: int, y0: int, y: int) -> int
    decreases y - y0,
{
    if y <= y0 {
        0
    } else {
        byte_block_sum(d, w, x0, x1, y0, y - 1) + byte_row_sum(d, w, y - 1, x0, x1)
    }
}

/// The 15 x 15 block around `v` along an axis of length `len`, clipped:
/// `[v - 7, v + 8)` within `[0, len)`.
pub open spec fn block_lo(v: int) -> int {
    if v >= 7 { v - 7 } else { 0 }
}

/// One past the last coordinate of the block around `v`.
pub open spec fn block_hi(v: int, len: int) -> int {
    if v + 8 < len { v + 8 } else { len }
}

/// Adaptive binarisation of pixel `(x, y)` of a single-channel `w x h`
/// buffer: 255 when the pixel exceeds the mean of its clipped 15 x 15 block
/// less 5 (compared exactly, as `(pixel + 5) * count > sum`), else 0.
pub open spec fn binarized_pixel(d: Seq<u8>, w: int, h: int, x: int, y: int) -> u8 {
    let x0 = block_lo(x);
    let x1 = block_hi(x, w);
    let y0 = block_lo(y);
    let y1 = block_hi(y, h);
    let count = (x1 - x0) * (y1 - y0);
    let sum = byte_block_sum(d, w, x0, x1, y0, y1);
    if (d[y * w + x] as int + 5) * count > sum {
        255
    } else {
        0
    }
}

/// Adaptive binarisation of a `w x h` single-channel buffer.
pub open spec fn binarized(d: Seq<u8>, w: int, h: int) -> Seq<u8> {
    Seq::new((w * h) as nat, |i: int| binarized_pixel(d, w, h, i % w, i / w))
}

/// Sum of the clipped block of bytes over columns `[x0, x1)` of rows
/// `[y0, y1)`.
fn block_sum(data: &Vec<u8>, width: usize, x0: usize, x1: usize, y0: usize, y1: usize) -> (s: u64)
    requires
        x0 < x1 <= width,
        y0 < y1,
        x1 - x0 <= 15,
        y1 - y0 <= 15,
        y1 * width <= data@.len(),
    ensures
        s == byte_block_sum(data@, width as int, x0 as int, x1 as int, y0 as int, y1 as int),
        s <= 255 * ((x1 - x0) * (y1 - y0)),
{
    let dlen = data.len();
    let mut sum: u64 = 0;
    let mut by = y0;
    while by < y1
        invariant
            dlen == data@.len(),
            x0 < x1 <= width,
            y0 <= by <= y1,
            x1 - x0 <= 15,
            y1 - y0 <= 15,
            y1 * width <= data@.len(),
            sum == byte_block_sum(data@, width as int, x0 as int, x1 as int, y0 as int, by as int),
            sum <= 3825 * (by - y0),
        decreases y1 - by,
    {
        let mut row: u64 = 0;
        let mut bx = x0;
        assert(by * width + x1 <= y1 * width) by (nonlinear_arith)
            requires
                by < y1,
                x1 <= width,
        ;
        while bx < x1
            invariant
                dlen == data@.len(),
                x0 <= bx <= x1 <= width,
                x1 - x0 <= 15,
                y0 <= by < y1,
                y1 - y0 <= 15,
                sum <= 3825 * (by - y0),
                by * width + x1 <= y1 * width,
                y1 * width <= data@.len(),
                row == byte_row_sum(data@, width as int, by as int, x0 as int, bx as int),
                row <= 255 * (bx - x0),
            decreases x1 - bx,
        {
            row = row + data[by * width + bx] as u64;
            bx = bx + 1;
        }
        assert(row <= 3825);
        assert(sum + row <= 3825 * (by + 1 - y0));
        sum = sum + row;
        by = by + 1;
    }
    proof {
        lemma_block_sum_bound(data@, width as int, x0 as int, x1 as int, y0 as int, y1 as int);
    }
    sum
}

/// Block sums of bytes are at most 255 per byte.
proof fn lemma_block_sum_bound(d: Seq<u8>, w: int, x0: int, x1: int, y0: int, y: int)
    requires
        x0 <= x1,
        y0 <= y,
    ensures
        0 <= byte_block_sum(d, w, x0, x1, y0, y) <= 255 * ((x1 - x0) * (y - y0)),
    decreases y - y0,
{
    if y > y0 {
        lemma_block_sum_bound(d, w, x0, x1, y0, y - 1);
        lemma_byte_row_bound(d, w, y - 1, x0, x1);
        assert((x1 - x0) * (y - y0) == (x1 - x0) * (y - 1 - y0) + (x1 - x0)) by (nonlinear_arith);
    }
}

/// Row sums of bytes are at most 255 per byte.
proof fn lemma_byte_row_bound(d: Seq<u8>, w: int, y: int, x0: int, x: int)
    requires
        x0 <= x,
    ensures
        0 <= byte_row_sum(d, w, y, x0, x) <= 255 * (x - x0),
    decreases x - x0,
{
    if x > x0 {
        lemma_byte_row_bound(d, w, y, x0, x - 1);
    }
}

/// Adaptive binarisation of channel 0 (the buffer read as single-channel):
/// each pixel becomes 255 when above the mean of its clipped 15 x 15 block
/// less 5, else 0. The buffer must hold at least `width * height` bytes.
pub fn binarize_image(image: &PalmImage) -> (r: Result<PalmImage>)
    requires
        image.width * image.height <= usize::MAX,
        image.data@.len() >= image.width * image.height,
    ensures
        r matches Ok(o) && o.width == image.width && o.height == image.height && o.channels == 1
            && o.data@ == binarized(image.data@, image.width as int, image.height as int)
            && o.preprocessing_steps@.len() == 0,
{
    let width = image.width as usize;
    let height = image.height as usize;
    let n = width * height;
    let mut out: Vec<u8> = Vec::new();
    let mut i: usize = 0;
    while i < n
        invariant
            width == image.width,
            height == image.height,
            n == width * height,
            image.data@.len() >= n,
            i <= n,
            out@.len() == i,
            forall|j: int| 0 <= j < i ==> #[trigger] out@[j] == binarized(
                image.data@,
                width as int,
                height as int,
            )[j],
        decreases n - i,
    {
        assert(width > 0) by (nonlinear_arith)
            requires
                i < n,
                n == width * height,
        ;
        proof {
            lemma_grid_position(i as int, width as int, height as int);
        }
        let x = i % width;
        let y = i / width;
        let start_y = if y >= 7 { y - 7 } else { 0 };
        let end_y = if height - y > 8 { y + 8 } else { height };
        let start_x = if x >= 7 { x - 7 } else { 0 };
        let end_x = if width - x > 8 { x + 8 } else { width };
        assert(end_y * width <= n) by (nonlinear_arith)
            requires
                end_y <= height,
                n == width * height,
        ;
        let sum = block_sum(&image.data, width, start_x, end_x, start_y, end_y);
        assert((end_x - start_x) * (end_y - start_y) <= 225) by (nonlinear_arith)
            requires
                end_x - start_x <= 15,
                end_y - start_y <= 15,
                end_x >= start_x,
                end_y >= start_y,
        ;
        let count = ((end_x - start_x) * (end_y - start_y)) as u64;
        let pixel = image.data[i] as u64;
        assert(i == y * width + x);
        assert((pixel + 5) * count <= 260 * 225) by (nonlinear_arith)
            requires
                pixel <= 255,
                count <= 225,
        ;
        let v: u8 = if (pixel + 5) * count > sum { 255 } else { 0 };
        out.push(v);
        i = i + 1;
    }
    proof {
        assert(out@ =~= binarized(image.data@, width as int, height as int));
    }
    Ok(PalmImage::new(image.width, image.height, 1, out))
}

/// 1 for a neighbour value above 128.
pub open spec fn fg_bit(v: u8) -> int {
    if v > 128 {
        1
    } else {
        0
    }
}

/// Absolute difference of two foreground bits.
pub open spec fn bit_change(a: u8, b: u8) -> int {
    if fg_bit(a) != fg_bit(b) {
        1
    } else {
        0
    }
}

/// Crossing number of `(x, y)`: half the number of foreground changes
/// around its eight neighbours (missing neighbours count as background).
pub open spec fn crossing_number(m: ImageModel, x: int, y: int) -> int {
    let p = seq![
        luma(m, x, y - 1),
        luma(m, x + 1, y - 1),
        luma(m, x + 1, y),
        luma(m, x + 1, y + 1),
        luma(m, x, y + 1),
        luma(m, x - 1, y + 1),
        luma(m, x - 1, y),
        luma(m, x - 1, y - 1),
    ];
    (bit_change(p[0], p[1]) + bit_change(p[1], p[2]) + bit_change(p[2], p[3]) + bit_change(p[3], p[4])
        + bit_change(p[4], p[5]) + bit_change(p[5], p[6]) + bit_change(p[6], p[7]) + bit_change(
        p[7],
        p[0],
    )) / 2
}

/// Channel 0 of pixel `(x, y)`, or 0 when it is not present.
fn pixel_or_zero(image: &PalmImage, x: u32, y: u32) -> (v: u8)
    requires
        positions_fit(*image),
    ensures
        v == luma(model_of(*image), x as int, y as int),
{
    proof {
        lemma_positions_fit(*image, x as int, y as int, 0);
    }
    match image.get_pixel(x, y, 0) {
        Ok(p) => p,
        Err(_) => 0,
    }
}

/// Crossing number of `(x, y)` for minutiae detection: 1 at a ridge ending,
/// 3 or more at a bifurcation.
pub fn calculate_crossing_number(image: &PalmImage, x: u32, y: u32) -> (r: Result<u32>)
    requires
        positions_fit(*image),
        x < u32::MAX,
        y < u32::MAX,
    ensures
        r matches Ok(cn) && cn == crossing_number(model_of(*image), x as int, y as int),
{
    let ghost m = model_of(*image);
    let xl = x.wrapping_sub(1);
    let yu = y.wrapping_sub(1);
    let p: [u8; 8] = [
        pixel_or_zero(image, x, yu),
        pixel_or_zero(image, x + 1, yu),
        pixel_or_zero(image, x + 1, y),
        pixel_or_zero(image, x + 1, y + 1),
        pixel_or_zero(image, x, y + 1),
        pixel_or_zero(image, xl, y + 1),
        pixel_or_zero(image, xl, y),
        pixel_or_zero(image, xl, yu),
    ];
    proof {
        assert(luma(m, x as int, yu as int) == luma(m, x as int, y - 1));
        assert(luma(m, x + 1, yu as int) == luma(m, x + 1, y - 1));
        assert(luma(m, xl as int, y + 1) == luma(m, x - 1, y + 1));
        assert(luma(m, xl as int, y as int) == luma(m, x - 1, y as int));
        assert(luma(m, xl as int, yu as int) == luma(m, x - 1, y - 1));
    }
    let mut cn: u32 = 0;
    let mut i: usize = 0;
    while i < 8
        invariant
            i <= 8,
            cn <= i,
            cn == (if i > 0 { bit_change(p[0], p[1]) } else { 0 }) + (if i > 1 { bit_change(p[1], p[2]) } else { 0 })
                + (if i > 2 { bit_change(p[2], p[3]) } else { 0 }) + (if i > 3 { bit_change(p[3], p[4]) } else { 0 })
                + (if i > 4 { bit_change(p[4], p[5]) } else { 0 }) + (if i > 5 { bit_change(p[5], p[6]) } else { 0 })
                + (if i > 6 { bit_change(p[6], p[7]) } else { 0 }) + (if i > 7 { bit_change(p[7], p[0]) } else { 0 }),
        decreases 8 - i,
    {
        let a: u32 = if p[i] > 128 { 1 } else { 0 };
        let b: u32 = if p[(i + 1) % 8] > 128 { 1 } else { 0 };
        let diff = if a >= b { a - b } else { b - a };
        cn = cn + diff;
        i = i + 1;
    }
    Ok(cn / 2)
}

/// Bit `i` of a byte.
pub open spec fn bit_of(code: u8, i: int) -> bool {
    (code >> (i as u8)) & 1u8 == 1u8
}

/// Number of circular 0-1 and 1-0 transitions between adjacent bits of an
/// LBP code (a code is uniform when there are at most two).
pub open spec fn lbp_transitions(code: u8) -> int {
    ind(bit_of(code, 0) != bit_of(code, 7)) + ind(bit_of(code, 1) != bit_of(code, 0)) + ind(
        bit_of(code, 2) != bit_of(code, 1),
    ) + ind(bit_of(code, 3) != bit_of(code, 2)) + ind(bit_of(code, 4) != bit_of(code, 3)) + ind(
        bit_of(code, 5) != bit_of(code, 4),
    ) + ind(bit_of(code, 6) != bit_of(code, 5)) + ind(bit_of(code, 7) != bit_of(code, 6))
}

/// Number of transitions between adjacent bits of an LBP code, circularly.
pub fn count_lbp_transitions(code: u8) -> (t: u32)
    ensures
        t == lbp_transitions(code),
{
    let mut transitions: u32 = 0;
    let mut prev = (code >> 7u8) & 1;
    let mut i: u8 = 0;
    while i < 8
        invariant
            i <= 8,
            prev == (if i == 0 { (code >> 7u8) & 1u8 } else { (code >> ((i - 1) as u8)) & 1u8 }),
            transitions == (if i > 0 { ind(bit_of(code, 0) != bit_of(code, 7)) } else { 0 }) + (if i > 1 {
                ind(bit_of(code, 1) != bit_of(code, 0))
            } else { 0 }) + (if i > 2 { ind(bit_of(code, 2) != bit_of(code, 1)) } else { 0 }) + (if i > 3 {
                ind(bit_of(code, 3) != bit_of(code, 2))
            } else { 0 }) + (if i > 4 { ind(bit_of(code, 4) != bit_of(code, 3)) } else { 0 }) + (if i > 5 {
                ind(bit_of(code, 5) != bit_of(code, 4))
            } else { 0 }) + (if i > 6 { ind(bit_of(code, 6) != bit_of(code, 5)) } else { 0 }) + (if i > 7 {
                ind(bit_of(code, 7) != bit_of(code, 6))
            } else { 0 }),
        decreases 8 - i,
    {
        let current = (code >> i) & 1;
        assert(current == 0 || current == 1) by (bit_vector)
            requires
                current == (code >> i) & 1u8,
        ;
        assert(prev == 0 || prev == 1) by (bit_vector)
            requires
                prev == (code >> 7u8) & 1u8 || prev == (code >> ((i - 1) as u8)) & 1u8,
        ;
        if current != prev {
            transitions = transitions + 1;
        }
        prev = current;
        i = i + 1;
    }
    transitions
}

/// Whether `(x, y)` lies in the region scanned for minutiae: at least five
/// pixels inside every border.
pub open spec fn in_scan_region(m: ImageModel, x: int, y: int) -> bool {
    5 <= x < m.width - 5 && 5 <= y < m.height - 5
}

/// Whether `(x, y)` is a minutia candidate: a foreground pixel whose crossing
/// number is 1 (a ridge ending) or at least 3 (a bifurcation).
pub open spec fn is_minutia(m: ImageModel, x: int, y: int, ending: bool) -> bool {
    &&& luma(m, x, y) > 128
    &&& if ending {
        crossing_number(m, x, y) == 1
    } else {
        crossing_number(m, x, y) >= 3
    }
}

/// The minutia candidates of one kind among the first `i` row-major
/// positions, in row-major order.
pub open spec fn minutiae_upto(m: ImageModel, i: int, ending: bool) -> Seq<(u32, u32)>
    decreases i,
{
    if i <= 0 || m.width == 0 {
        seq![]
    } else {
        let prev = minutiae_upto(m, i - 1, ending);
        let x = (i - 1) % (m.width as int);
        let y = (i - 1) / (m.width as int);
        if in_scan_region(m, x, y) && is_minutia(m, x, y, ending) {
            prev.push((x as u32, y as u32))
        } else {
            prev
        }
    }
}

/// Whether every scanned pixel among the first `i` positions is present.
pub open spec fn scan_readable_upto(m: ImageModel, i: int) -> bool {
    forall|j: int|
        0 <= j < i && in_scan_region(m, j % (m.width as int), j / (m.width as int)) ==> #[trigger] present(
            m,
            j % (m.width as int),
            j / (m.width as int),
        )
}

/// First coordinate of a window of radius `r` around `c`, clipped at 0.
pub open spec fn window_lo(c: int, r: int) -> int {
    if c >= r { c - r } else { 0 }
}

/// Last coordinate of a window of radius `r` around `c`, clipped to an
/// axis of length `len`.
pub open spec fn window_hi(c: int, r: int, len: int) -> int {
    if c + r < len - 1 { c + r } else { len - 1 }
}

/// Number of coordinates in `[lo, hi]`.
pub open spec fn span(lo: int, hi: int) -> int {
    if hi >= lo { hi - lo + 1 } else { 0 }
}

/// Number of foreground (above 128) pixels in columns `[x0, x)` of row `y`.
pub open spec fn fg_row(m: ImageModel, y: int, x0: int, x: int) -> int
    decreases x - x0,
{
    if x <= x0 {
        0
    } else {
        fg_row(m, y, x0, x - 1) + if luma(m, x - 1, y) > 128 { 1int } else { 0int }
    }
}

/// Number of foreground pixels in columns `[x0, x1)` of rows `[y0, y)`.
pub open spec fn fg_block(m: ImageModel, x0: int, x1: int, y0: int, y: int) -> int
    decreases y - y0,
{
    if y <= y0 {
        0
    } else {
        fg_block(m, x0, x1, y0, y - 1) + fg_row(m, y - 1, x0, x1)
    }
}

/// Whether every pixel in columns `[x0, x1)` of rows `[y0, y1)` is present.
pub open spec fn block_present(m: ImageModel, x0: int, x1: int, y0: int, y1: int) -> bool {
    forall|x: int, y: int| x0 <= x < x1 && y0 <= y < y1 ==> #[trigger] present(m, x, y)
}

/// Whether every pixel of the clipped window of radius `r` around
/// `(cx, cy)` is present.
pub open spec fn ridge_window_present(m: ImageModel, cx: int, cy: int, r: int) -> bool {
    block_present(
        m,
        window_lo(cx, r),
        window_hi(cx, r, m.width as int) + 1,
        window_lo(cy, r),
        window_hi(cy, r, m.height as int) + 1,
    )
}

/// Foreground pixels of the clipped window of radius `r` around `(cx, cy)`.
pub open spec fn ridge_foreground(m: ImageModel, cx: int, cy: int, r: int) -> int {
    let x0 = window_lo(cx, r);
    let x1 = window_hi(cx, r, m.width as int) + 1;
    let y0 = window_lo(cy, r);
    let y1 = window_hi(cy, r, m.height as int) + 1;
    if y1 > y0 {
        fg_block(m, x0, x1, y0, y1)
    } else {
        0
    }
}

/// Pixels in the clipped window of radius `r` around `(cx, cy)`.
pub open spec fn ridge_total(m: ImageModel, cx: int, cy: int, r: int) -> int {
    span(window_lo(cx, r), window_hi(cx, r, m.width as int)) * span(
        window_lo(cy, r),
        window_hi(cy, r, m.height as int),
    )
}

/// Foreground pixels in columns `[x0, x)` of a row are at most `x - x0`.
proof fn lemma_fg_row_bound(m: ImageModel, y: int, x0: int, x: int)
    ensures
        0 <= fg_row(m, y, x0, x),
        x >= x0 ==> fg_row(m, y, x0, x) <= x - x0,
        x < x0 ==> fg_row(m, y, x0, x) == 0,
    decreases x - x0,
{
    if x > x0 {
        lemma_fg_row_bound(m, y, x0, x - 1);
    }
}

/// Foreground pixels of a block are at most its row count times the
/// pixels per row.
proof fn lemma_fg_block_bound(m: ImageModel, x0: int, x1: int, y0: int, y: int)
    requires
        y >= y0,
    ensures
        0 <= fg_block(m, x0, x1, y0, y) <= span(x0, x1 - 1) * (y - y0),
    decreases y - y0,
{
    if y > y0 {
        lemma_fg_block_bound(m, x0, x1, y0, y - 1);
        lemma_fg_row_bound(m, y - 1, x0, x1);
        assert(span(x0, x1 - 1) * (y - y0) == span(x0, x1 - 1) * (y - 1 - y0) + span(x0, x1 - 1))
            by (nonlinear_arith);
    }
}

/// Local ridge density around `(cx, cy)`: the foreground (above 128) and
/// total pixel counts of the window of radius `radius` clipped to the image,
/// in that order. Fails on the first pixel of the window that is missing.
pub fn calculate_local_ridge_density(skeleton: &PalmImage, cx: u32, cy: u32, radius: u32) -> (r:
    Result<(u32, u32)>)
    requires
        positions_fit(*skeleton),
        skeleton.width >= 1,
        skeleton.height >= 1,
        cx + radius <= u32::MAX,
        cy + radius <= u32::MAX,
        ridge_total(model_of(*skeleton), cx as int, cy as int, radius as int) <= i32::MAX,
    ensures
        r is Ok <==> ridge_window_present(model_of(*skeleton), cx as int, cy as int, radius as int),
        r matches Ok(d) ==> d.0 == ridge_foreground(model_of(*skeleton), cx as int, cy as int, radius as int)
            && d.1 == ridge_total(model_of(*skeleton), cx as int, cy as int, radius as int) && d.0 <= d.1,
        r matches Err(e) ==> e is CryptoError,
{
    let ghost m = model_of(*skeleton);
    let start_x = cx.saturating_sub(radius);
    let end_x = if cx + radius < skeleton.width - 1 { cx + radius } else { skeleton.width - 1 };
    let start_y = cy.saturating_sub(radius);
    let end_y = if cy + radius < skeleton.height - 1 { cy + radius } else { skeleton.height - 1 };
    let ghost cols = span(start_x as int, end_x as int);
    let ghost rows = span(start_y as int, end_y as int);
    let ghost x1 = end_x + 1;
    let ghost y1 = end_y + 1;
    assert(start_x == window_lo(cx as int, radius as int) && start_y == window_lo(cy as int, radius as int));
    assert(x1 == window_hi(cx as int, radius as int, m.width as int) + 1);
    assert(y1 == window_hi(cy as int, radius as int, m.height as int) + 1);
    assert(ridge_window_present(m, cx as int, cy as int, radius as int) == block_present(
        m,
        start_x as int,
        x1,
        start_y as int,
        y1,
    ));
    assert(cols * rows == ridge_total(m, cx as int, cy as int, radius as int));
    assert(cols >= 0 && rows >= 0);
    let mut foreground: u32 = 0;
    let mut y = start_y;
    if start_y <= end_y {
        while y <= end_y
            invariant
                positions_fit(*skeleton),
                m == model_of(*skeleton),
                start_y <= y <= end_y + 1,
                end_x < skeleton.width,
                end_y < skeleton.height,
                x1 == end_x + 1,
                y1 == end_y + 1,
                ridge_window_present(m, cx as int, cy as int, radius as int) == block_present(
                    m,
                    start_x as int,
                    x1,
                    start_y as int,
                    y1,
                ),
                cols == span(start_x as int, end_x as int),
                rows == end_y + 1 - start_y,
                cols * rows <= i32::MAX,
                foreground == fg_block(m, start_x as int, x1, start_y as int, y as int),
                foreground <= cols * (y - start_y),
                block_present(m, start_x as int, x1, start_y as int, y as int),
            decreases end_y + 1 - y,
        {
            let mut row_count: u32 = 0;
            let mut x = start_x;
            while x <= end_x
                invariant
                    positions_fit(*skeleton),
                    m == model_of(*skeleton),
                    start_y <= y <= end_y,
                    end_x < skeleton.width,
                    end_y < skeleton.height,
                    x1 == end_x + 1,
                    y1 == end_y + 1,
                    ridge_window_present(m, cx as int, cy as int, radius as int) == block_present(
                        m,
                        start_x as int,
                        x1,
                        start_y as int,
                        y1,
                    ),
                    start_x <= x,
                    x <= end_x + 1 || x == start_x,
                    row_count == fg_row(m, y as int, start_x as int, x as int),
                    row_count <= span(start_x as int, x as int - 1),
                    forall|px: int| start_x <= px < x ==> #[trigger] present(m, px, y as int),
                decreases end_x + 1 - x,
            {
                proof {
                    lemma_positions_fit(*skeleton, x as int, y as int, 0);
                }
                let pixel = match skeleton.get_pixel(x, y, 0) {
                    Ok(p) => p,
                    Err(e) => {
                        proof {
                            assert(!present(m, x as int, y as int));
                            assert(start_x <= x < x1 && start_y <= y < y1);
                            assert(!block_present(m, start_x as int, x1, start_y as int, y1));
                        }
                        return Err(e);
                    },
                };
                if pixel > 128 {
                    row_count = row_count + 1;
                }
                x = x + 1;
            }
            proof {
                lemma_fg_row_bound(m, y as int, start_x as int, x1);
                assert(row_count <= cols);
                assert(cols * (y - start_y) + cols == cols * (y + 1 - start_y)) by (nonlinear_arith);
                assert(cols * (y + 1 - start_y) <= cols * rows) by (nonlinear_arith)
                    requires
                        y + 1 - start_y <= rows,
                        cols >= 0,
                ;
                assert forall|px: int, py: int|
                    start_x <= px < x1 && start_y <= py < y + 1 implies #[trigger] present(m, px, py) by {
                    if py < y {
                        assert(block_present(m, start_x as int, x1, start_y as int, y as int));
                    }
                }
            }
            foreground = foreground + row_count;
            y = y + 1;
        }
    }
    proof {
        if start_y > end_y {
            assert(rows == 0);
        } else {
            assert(foreground <= cols * rows);
        }
    }
    let total = (span_exec(start_x, end_x) as u64 * span_exec(start_y, end_y) as u64) as u32;
    Ok((foreground, total))
}

/// Number of coordinates in `[lo, hi]`.
fn span_exec(lo: u32, hi: u32) -> (n: u32)
    requires
        hi < u32::MAX,
    ensures
        n == span(lo as int, hi as int),
{
    if hi >= lo { hi - lo + 1 } else { 0 }
}

/// Whether two minutiae lie within eight pixels of each other on both axes.
pub open spec fn near(a: (u32, u32), b: (u32, u32)) -> bool {
    -8 < a.0 - b.0 < 8 && -8 < a.1 - b.1 < 8
}

/// Whether some minutia of `kept` is near `p`.
pub open spec fn has_near(kept: Seq<(u32, u32)>, p: (u32, u32)) -> bool {
    exists|k: int| 0 <= k < kept.len() && near(#[trigger] kept[k], p)
}

/// Whether a minutia lies at least ten pixels inside every border.
pub open spec fn off_border(m: ImageModel, p: (u32, u32)) -> bool {
    10 <= p.0 && 10 <= p.1 && p.0 < m.width - 10 && p.1 < m.height - 10
}

/// Whether the ridge density around a minutia lies in `[0.1, 0.7]`, compared
/// exactly on the window's counts.
pub open spec fn density_plausible(m: ImageModel, p: (u32, u32)) -> bool {
    let fg = ridge_foreground(m, p.0 as int, p.1 as int, 10);
    let total = ridge_total(m, p.0 as int, p.1 as int, 10);
    !(10 * fg < total || 10 * fg > 7 * total)
}

/// The minutiae of `s` that survive filtering, in order: each must lie off
/// the border, have a plausible ridge density, and not be near one already
/// kept.
pub open spec fn filtered_minutiae(m: ImageModel, s: Seq<(u32, u32)>) -> Seq<(u32, u32)>
    decreases s.len(),
{
    if s.len() == 0 {
        seq![]
    } else {
        let prev = filtered_minutiae(m, s.drop_last());
        let p = s.last();
        if off_border(m, p) && density_plausible(m, p) && !has_near(prev, p) {
            prev.push(p)
        } else {
            prev
        }
    }
}

/// Whether the density window of every off-border minutia of `s` is present.
pub open spec fn filter_readable(m: ImageModel, s: Seq<(u32, u32)>) -> bool {
    forall|k: int|
        0 <= k < s.len() && off_border(m, #[trigger] s[k]) ==> ridge_window_present(
            m,
            s[k].0 as int,
            s[k].1 as int,
            10,
        )
}

/// Whether the border test of the filter is defined for `p`: the image is
/// at least ten pixels wide (and high) wherever the test reaches that far.
pub open spec fn border_test_defined(m: ImageModel, p: (u32, u32)) -> bool {
    &&& (10 <= p.0 && 10 <= p.1) ==> m.width >= 10
    &&& (10 <= p.0 && 10 <= p.1 && p.0 < m.width - 10) ==> m.height >= 10
}

/// Whether some minutia of `kept` is near `p`.
fn too_close(kept: &Vec<(u32, u32)>, p: (u32, u32)) -> (b: bool)
    ensures
        b == has_near(kept@, p),
{
    let mut j: usize = 0;
    while j < kept.len()
        invariant
            j <= kept.len(),
            forall|k: int| 0 <= k < j ==> !near(#[trigger] kept@[k], p),
        decreases kept.len() - j,
    {
        let (fx, fy) = kept[j];
        let dx = p.0 as i64 - fx as i64;
        let dy = p.1 as i64 - fy as i64;
        if -8 < dx && dx < 8 && -8 < dy && dy < 8 {
            assert(near(kept@[j as int], p));
            return true;
        }
        j = j + 1;
    }
    false
}

/// Discards minutiae within ten pixels of a border, those whose local ridge
/// density lies outside `[0.1, 0.7]`, and those near one already kept.
pub fn filter_false_minutiae(skeleton: &PalmImage, minutiae: Vec<(u32, u32)>) -> (r: Result<Vec<(u32, u32)>>)
    requires
        operable(*skeleton),
        forall|k: int| 0 <= k < minutiae@.len() ==> border_test_defined(model_of(*skeleton), #[trigger] minutiae@[k]),
    ensures
        r is Ok <==> filter_readable(model_of(*skeleton), minutiae@),
        r matches Ok(v) ==> v@ == filtered_minutiae(model_of(*skeleton), minutiae@),
        r matches Err(e) ==> e is CryptoError,
{
    let ghost m = model_of(*skeleton);
    let ghost s = minutiae@;
    let mut filtered: Vec<(u32, u32)> = Vec::new();
    let mut i: usize = 0;
    while i < minutiae.len()
        invariant
            operable(*skeleton),
            m == model_of(*skeleton),
            s == minutiae@,
            i <= s.len(),
            forall|k: int| 0 <= k < s.len() ==> border_test_defined(m, #[trigger] s[k]),
            filtered@ == filtered_minutiae(m, s.take(i as int)),
            filter_readable(m, s.take(i as int)),
        decreases s.len() - i,
    {
        let (x, y) = minutiae[i];
        proof {
            assert(s.take(i as int + 1).drop_last() == s.take(i as int));
            assert(s.take(i as int + 1).last() == s[i as int]);
            assert(border_test_defined(m, s[i as int]));
        }
        let skip_border = x < 10 || y < 10 || x >= skeleton.width - 10 || y >= skeleton.height - 10;
        if skip_border {
            proof {
                assert(!off_border(m, s[i as int]));
                assert forall|k: int|
                    0 <= k < s.take(i as int + 1).len() && off_border(m, #[trigger] s.take(i as int + 1)[k])
                    implies ridge_window_present(m, s.take(i as int + 1)[k].0 as int, s.take(i as int + 1)[k].1 as int, 10) by {
                    assert(s.take(i as int + 1)[k] == s.take(i as int)[k]);
                }
            }
        } else {
            proof {
                assert(off_border(m, s[i as int]));
                assert(x == s[i as int].0 && y == s[i as int].1);
                assert(window_lo(x as int, 10) == x - 10);
                assert(window_hi(x as int, 10, m.width as int) == x + 10);
                assert(window_lo(y as int, 10) == y - 10);
                assert(window_hi(y as int, 10, m.height as int) == y + 10);
                assert(span(x - 10, x + 10) == 21);
                assert(span(y - 10, y + 10) == 21);
                assert(ridge_total(m, x as int, y as int, 10) == 441);
            }
            let (foreground, total) = match calculate_local_ridge_density(skeleton, x, y, 10) {
                Ok(d) => d,
                Err(e) => {
                    proof {
                        let t = s.take(i as int + 1);
                        assert(off_border(m, t[i as int]));
                        assert(!filter_readable(m, t));
                        assert(!filter_readable(m, s)) by {
                            assert(s[i as int] == t[i as int]);
                        }
                    }
                    return Err(e);
                },
            };
            let plausible = !(10 * foreground < total || 10 * foreground > 7 * total);
            if plausible {
                let close = too_close(&filtered, (x, y));
                if !close {
                    filtered.push((x, y));
                }
            }
            proof {
                assert forall|k: int|
                    0 <= k < s.take(i as int + 1).len() && off_border(m, #[trigger] s.take(i as int + 1)[k])
                    implies ridge_window_present(m, s.take(i as int + 1)[k].0 as int, s.take(i as int + 1)[k].1 as int, 10) by {
                    if k < i {
                        assert(s.take(i as int + 1)[k] == s.take(i as int)[k]);
                    }
                }
            }
        }
        i = i + 1;
    }
    proof {
        assert(s.take(s.len() as int) == s);
    }
    Ok(filtered)
}

/// Ridge endings and bifurcations of a skeleton, filtered. The pixels at
/// least five inside every border are scanned in row-major order for
/// foreground pixels with crossing number 1 (endings) or at least 3
/// (bifurcations); each list is then filtered by `filter_false_minutiae`.
pub fn detect_minutiae_points(skeleton: &PalmImage) -> (r: Result<(Vec<(u32, u32)>, Vec<(u32, u32)>)>)
    requires
        operable(*skeleton),
        skeleton.height >= 5,
        skeleton.height > 10 ==> skeleton.width >= 5,
    ensures
        r is Ok <==> {
            let m = model_of(*skeleton);
            let n = skeleton.width * skeleton.height;
            &&& scan_readable_upto(m, n)
            &&& filter_readable(m, minutiae_upto(m, n, true))
            &&& filter_readable(m, minutiae_upto(m, n, false))
        },
        r matches Ok(found) ==> {
            let m = model_of(*skeleton);
            let n = skeleton.width * skeleton.height;
            &&& found.0@ == filtered_minutiae(m, minutiae_upto(m, n, true))
            &&& found.1@ == filtered_minutiae(m, minutiae_upto(m, n, false))
        },
        r matches Err(e) ==> e is CryptoError,
{
    let ghost m = model_of(*skeleton);
    let width = skeleton.width as usize;
    let height = skeleton.height as usize;
    let n = width * height;
    let mut endings: Vec<(u32, u32)> = Vec::new();
    let mut bifurcations: Vec<(u32, u32)> = Vec::new();
    let mut i: usize = 0;
    while i < n
        invariant
            operable(*skeleton),
            m == model_of(*skeleton),
            width == skeleton.width,
            height == skeleton.height,
            n == width * height,
            i <= n,
            endings@ == minutiae_upto(m, i as int, true),
            bifurcations@ == minutiae_upto(m, i as int, false),
            scan_readable_upto(m, i as int),
            forall|k: int| 0 <= k < endings@.len() ==> in_scan_region(m, #[trigger] endings@[k].0 as int, endings@[k].1 as int),
            forall|k: int|
                0 <= k < bifurcations@.len() ==> in_scan_region(m, #[trigger] bifurcations@[k].0 as int, bifurcations@[k].1 as int),
        decreases n - i,
    {
        proof {
            lemma_grid_position(i as int, width as int, height as int);
        }
        let x = (i % width) as u32;
        let y = (i / width) as u32;
        if x >= 5 && skeleton.width - x > 5 && y >= 5 && skeleton.height - y > 5 {
            proof {
                lemma_positions_fit(*skeleton, x as int, y as int, 0);
            }
            let pixel = match skeleton.get_pixel(x, y, 0) {
                Ok(p) => p,
                Err(e) => {
                    proof {
                        assert(!present(m, x as int, y as int));
                        assert(!scan_readable_upto(m, n as int)) by {
                            assert(!present(m, (i as int) % (width as int), (i as int) / (width as int)));
                        }
                    }
                    return Err(e);
                },
            };
            if pixel > 128 {
                let cn = match calculate_crossing_number(skeleton, x, y) {
                    Ok(c) => c,
                    Err(e) => return Err(e),
                };
                if cn == 1 {
                    endings.push((x, y));
                } else if cn >= 3 {
                    bifurcations.push((x, y));
                }
            }
        }
        i = i + 1;
    }
    proof {
        assert forall|k: int| 0 <= k < endings@.len() implies border_test_defined(m, #[trigger] endings@[k]) by {
            assert(in_scan_region(m, endings@[k].0 as int, endings@[k].1 as int));
        }
        assert forall|k: int| 0 <= k < bifurcations@.len() implies border_test_defined(m, #[trigger] bifurcations@[k]) by {
            assert(in_scan_region(m, bifurcations@[k].0 as int, bifurcations@[k].1 as int));
        }
    }
    let endings = filter_false_minutiae(skeleton, endings)?;
    let bifurcations = filter_false_minutiae(skeleton, bifurcations)?;
    Ok((endings, bifurcations))
}

/// Filtering keeps an order-preserving selection of the minutiae: every kept
/// minutia lies off the border with a plausible ridge density, and no two
/// kept minutiae are near each other. The returned indices locate the kept
/// minutiae in the input, in increasing order.
pub proof fn lemma_filtered_minutiae(m: ImageModel, s: Seq<(u32, u32)>) -> (idx: Seq<int>)
    ensures
        idx.len() == filtered_minutiae(m, s).len(),
        forall|i: int|
            0 <= i < idx.len() ==> 0 <= #[trigger] idx[i] < s.len() && filtered_minutiae(m, s)[i] == s[idx[i]],
        forall|i: int, j: int| 0 <= i < j < idx.len() ==> #[trigger] idx[i] < #[trigger] idx[j],
        forall|i: int|
            0 <= i < filtered_minutiae(m, s).len() ==> off_border(m, #[trigger] filtered_minutiae(m, s)[i])
                && density_plausible(m, filtered_minutiae(m, s)[i]),
        forall|i: int, j: int|
            0 <= i < j < filtered_minutiae(m, s).len() ==> !near(
                #[trigger] filtered_minutiae(m, s)[i],
                #[trigger] filtered_minutiae(m, s)[j],
            ),
    decreases s.len(),
{
    if s.len() == 0 {
        Seq::empty()
    } else {
        let prev = s.drop_last();
        let p = s.last();
        let idx0 = lemma_filtered_minutiae(m, prev);
        let r0 = filtered_minutiae(m, prev);
        let r = filtered_minutiae(m, s);
        if off_border(m, p) && density_plausible(m, p) && !has_near(r0, p) {
            let idx = idx0.push(s.len() - 1);
            assert(r == r0.push(p));
            assert forall|i: int| 0 <= i < idx.len() implies 0 <= #[trigger] idx[i] < s.len() && r[i] == s[idx[i]] by {
                if i < idx0.len() {
                    assert(idx[i] == idx0[i]);
                    assert(prev[idx0[i]] == s[idx0[i]]);
                }
            }
            assert forall|i: int, j: int| 0 <= i < j < idx.len() implies #[trigger] idx[i] < #[trigger] idx[j] by {
                if j < idx0.len() {
                    assert(idx[i] == idx0[i] && idx[j] == idx0[j]);
                } else {
                    assert(idx[i] == idx0[i]);
                }
            }
            assert forall|i: int| 0 <= i < r.len() implies off_border(m, #[trigger] r[i]) && density_plausible(m, r[i]) by {
                if i < r0.len() {
                    assert(r[i] == r0[i]);
                }
            }
            assert forall|i: int, j: int| 0 <= i < j < r.len() implies !near(#[trigger] r[i], #[trigger] r[j]) by {
                if j < r0.len() {
                    assert(r[i] == r0[i] && r[j] == r0[j]);
                } else {
                    assert(r[i] == r0[i] && r[j] == p);
                    if near(r0[i], p) {
                        assert(has_near(r0, p));
                    }
                }
            }
            idx
        } else {
            assert(r == r0);
            assert forall|i: int| 0 <= i < idx0.len() implies 0 <= #[trigger] idx0[i] < s.len() && r[i] == s[idx0[i]] by {
                assert(prev[idx0[i]] == s[idx0[i]]);
            }
            idx0
        }
    }
}

/// Erosion never brightens and dilation never darkens an interior pixel:
/// each window extreme brackets the pixel it is centred on.
pub proof fn lemma_erosion_below_dilation(m: ImageModel, x: int, y: int)
    ensures
        window_min(m, x, y) <= luma(m, x, y) <= window_max(m, x, y),
{
}

/// Adaptive binarisation produces only 0 and 255.
pub proof fn lemma_binarized_is_binary(d: Seq<u8>, w: int, h: int)
    ensures
        forall|i: int| 0 <= i < binarized(d, w, h).len() ==> #[trigger] binarized(d, w, h)[i] == 0
            || binarized(d, w, h)[i] == 255,
{
}

/// Thinning only removes foreground, and its result is stable: one more
/// iteration changes nothing.
pub proof fn lemma_thinning_stable_subset(b: Seq<bool>, w: int, h: int)
    ensures
        zs_thin(b, w, h).len() == b.len(),
        forall|i: int| 0 <= i < b.len() && #[trigger] zs_thin(b, w, h)[i] ==> b[i],
        zs_iteration(zs_thin(b, w, h), w, h) == zs_thin(b, w, h),
    decreases count_true(b),
{
    let b2 = zs_iteration(b, w, h);
    lemma_iteration_shrinks(b, w, h);
    if b2 != b {
        lemma_thinning_stable_subset(b2, w, h);
        assert forall|i: int| 0 <= i < b.len() && #[trigger] zs_thin(b, w, h)[i] implies b[i] by {
            assert(zs_thin(b, w, h) == zs_thin(b2, w, h));
            assert(b2[i]);
        }
    }
}

/// Thinning is idempotent: thinning a skeleton gives it back unchanged.
pub proof fn lemma_thinning_idempotent(b: Seq<bool>, w: int, h: int)
    ensures
        zs_thin(zs_thin(b, w, h), w, h) == zs_thin(b, w, h),
{
    lemma_thinning_stable_subset(b, w, h);
}

/// A single-channel image whose bytes are those of a foreground map of its
/// size has every pixel present, and its foreground map is that map. So
/// thinning the output of `apply_zhang_suen_thinning` succeeds and gives
/// the same skeleton back.
pub proof fn lemma_thinned_image_is_fixed_point(o: PalmImage, b: Seq<bool>)
    requires
        o.width >= 1,
        o.channels == 1,
        b.len() == o.width * o.height,
        o.data@ == bytes_of(zs_thin(b, o.width as int, o.height as int)),
    ensures
        all_present(model_of(o)),
        binary_of(model_of(o)) == zs_thin(b, o.width as int, o.height as int),
        bytes_of(zs_thin(binary_of(model_of(o)), o.width as int, o.height as int)) == o.data@,
{
    let w = o.width as int;
    let h = o.height as int;
    let m = model_of(o);
    let s = zs_thin(b, w, h);
    lemma_thinning_stable_subset(b, w, h);
    assert forall|x: int, y: int| 0 <= x < m.width && 0 <= y < m.height implies #[trigger] present(m, x, y) by {
        assert(y * w + x < w * h) by (nonlinear_arith)
            requires
                0 <= x < w,
                0 <= y < h,
        ;
        assert(0 <= y * w + x) by (nonlinear_arith)
            requires
                0 <= x,
                0 <= y,
                0 <= w,
        ;
    }
    assert forall|i: int| 0 <= i < w * h implies #[trigger] binary_of(m)[i] == s[i] by {
        lemma_grid_position(i, w, h);
        let x = i % w;
        let y = i / w;
        assert(y * w + x == i) by (nonlinear_arith)
            requires
                i == (i / w) * w + i % w,
                x == i % w,
                y == i / w,
        ;
        assert(mpixel(m, x, y) == Some(bytes_of(s)[i]));
    }
    assert(binary_of(m) =~= s);
    lemma_thinning_idempotent(b, w, h);
}

} // verus!
