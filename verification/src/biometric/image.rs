//! Raw images and biometric modality identifiers.

use vstd::prelude::*;
use crate::error::{crypto_error, Result, SableError};

verus! {

/// Biometric modality types.
#[derive(Debug, Clone, Copy, PartialEq, Eq, Structural)]
pub enum BiometricModality {
    /// Palm vein patterns.
    PalmVein,
    /// Palm print ridge patterns.
    PalmPrint,
    /// Combined vein and print.
    PalmMultiModal,
}

/// Raw image data (row-major, interleaved channels) with the list of
/// preprocessing steps applied to it.
#[derive(Debug, Clone)]
pub struct PalmImage {
    /// Width in pixels.
    pub width: u32,
    /// Height in pixels.
    pub height: u32,
    /// Number of channels (1 = grayscale, 3 = RGB).
    pub channels: u32,
    /// Pixel bytes, row-major with interleaved channels.
    pub data: Vec<u8>,
    /// Names of the preprocessing operations applied.
    pub preprocessing_steps: Vec<String>,
}

/// Position in the buffer of channel `c` of pixel `(x, y)`.
pub open spec fn pixel_index(img: PalmImage, x: int, y: int, c: int) -> int {
    (y * img.width + x) * img.channels + c
}

/// Whether the declared dimensions count at most 2^32 - 1 bytes, so that
/// every pixel position is a 32-bit number.
pub open spec fn positions_fit(img: PalmImage) -> bool {
    img.width * img.height * img.channels <= u32::MAX
}

/// The value of channel `c` of pixel `(x, y)`, if the coordinates are inside
/// the declared dimensions and the buffer holds that byte.
pub open spec fn pixel_at(img: PalmImage, x: int, y: int, c: int) -> Option<u8> {
    if 0 <= x < img.width && 0 <= y < img.height && 0 <= c < img.channels && pixel_index(img, x, y, c)
        < img.data@.len() {
        Some(img.data@[pixel_index(img, x, y, c)])
    } else {
        None
    }
}

/// Why a pixel cannot be read or written: coordinates outside the declared
/// dimensions, or a position past the end of the buffer.
pub open spec fn pixel_refusal(img: PalmImage, x: int, y: int, c: int) -> Seq<char> {
    if 0 <= x < img.width && 0 <= y < img.height && 0 <= c < img.channels {
        "Pixel data out of bounds"@
    } else {
        "Pixel coordinates out of bounds"@
    }
}

/// The buffer position of `(x, y, channel)`, computed in 128 bits.
fn wide_index(img: &PalmImage, x: u32, y: u32, channel: u32) -> (i: u128)
    ensures
        i == pixel_index(*img, x as int, y as int, channel as int),
{
    let w = img.width as u128;
    let c = img.channels as u128;
    let yy = y as u128;
    assert(yy * w <= 0xffff_ffffu128 * 0xffff_ffffu128) by (nonlinear_arith)
        requires
            yy <= 0xffff_ffffu128,
            w <= 0xffff_ffffu128,
    ;
    let offset = yy * w + x as u128;
    assert(offset * c <= 0x1_0000_0000_0000_0000u128 * 0xffff_ffffu128) by (nonlinear_arith)
        requires
            offset <= 0x1_0000_0000_0000_0000u128,
            c <= 0xffff_ffffu128,
    ;
    offset * c + channel as u128
}

/// Whether the pixel position of `(x, y, c)` is a 32-bit number whenever the
/// coordinates are inside the declared dimensions.
pub open spec fn position_fits(img: PalmImage, x: int, y: int, c: int) -> bool {
    (0 <= x < img.width && 0 <= y < img.height && 0 <= c < img.channels) ==> pixel_index(
        img,
        x,
        y,
        c,
    ) <= u32::MAX
}

/// Inside the declared dimensions, a position counts fewer bytes than the
/// dimensions do.
pub proof fn lemma_pixel_index_bound(img: PalmImage, x: int, y: int, c: int)
    requires
        0 <= x < img.width,
        0 <= y < img.height,
        0 <= c < img.channels,
    ensures
        0 <= pixel_index(img, x, y, c) < img.width * img.height * img.channels,
{
    let w = img.width as int;
    let h = img.height as int;
    let ch = img.channels as int;
    assert(y * w + x <= (h - 1) * w + w - 1) by (nonlinear_arith)
        requires
            0 <= x < w,
            0 <= y < h,
    ;
    assert((y * w + x) * ch + c <= ((h - 1) * w + w - 1) * ch + ch - 1) by (nonlinear_arith)
        requires
            0 <= y * w + x <= (h - 1) * w + w - 1,
            0 <= c < ch,
    ;
    assert(((h - 1) * w + w - 1) * ch + ch - 1 == w * h * ch - 1) by (nonlinear_arith);
    assert(0 <= (y * w + x) * ch) by (nonlinear_arith)
        requires
            0 <= y * w + x,
            0 <= ch,
    ;
}

/// When the dimensions count at most 2^32 - 1 bytes, every position inside
/// them is a 32-bit number.
pub proof fn lemma_positions_fit(img: PalmImage, x: int, y: int, c: int)
    requires
        positions_fit(img),
    ensures
        position_fits(img, x, y, c),
{
    if 0 <= x < img.width && 0 <= y < img.height && 0 <= c < img.channels {
        lemma_pixel_index_bound(img, x, y, c);
    }
}

/// Each partial result of computing a pixel position is at most the position.
pub proof fn lemma_position_steps(img: PalmImage, x: int, y: int, c: int)
    requires
        0 <= x < img.width,
        0 <= y < img.height,
        0 <= c < img.channels,
    ensures
        0 <= y * img.width <= y * img.width + x <= (y * img.width + x) * img.channels <= pixel_index(img, x, y, c),
{
    let w = img.width as int;
    let ch = img.channels as int;
    assert(0 <= y * w) by (nonlinear_arith)
        requires
            0 <= y,
            0 <= w,
    ;
    assert(y * w + x <= (y * w + x) * ch) by (nonlinear_arith)
        requires
            0 <= y * w + x,
            1 <= ch,
    ;
}

impl PalmImage {
    /// Creates an image with no preprocessing steps recorded.
    pub fn new(width: u32, height: u32, channels: u32, data: Vec<u8>) -> (img: Self)
        ensures
            img.width == width,
            img.height == height,
            img.channels == channels,
            img.data@ == data@,
            img.preprocessing_steps@.len() == 0,
    {
        PalmImage { width, height, channels, data, preprocessing_steps: Vec::new() }
    }

    /// The value of one channel of one pixel. The position is computed
    /// without wrap-around, so a position past the buffer is an error.
    pub fn get_pixel(&self, x: u32, y: u32, channel: u32) -> (r: Result<u8>)
        ensures
            r is Ok <==> pixel_at(*self, x as int, y as int, channel as int) is Some,
            r matches Ok(v) ==> pixel_at(*self, x as int, y as int, channel as int) == Some(v),
            r matches Err(e) ==> e matches SableError::CryptoError(m) && m@ == pixel_refusal(
                *self,
                x as int,
                y as int,
                channel as int,
            ),
    {
        if x >= self.width || y >= self.height || channel >= self.channels {
            return Err(crypto_error("Pixel coordinates out of bounds"));
        }
        let index = wide_index(self, x, y, channel);
        if index < self.data.len() as u128 {
            Ok(self.data[index as usize])
        } else {
            Err(crypto_error("Pixel data out of bounds"))
        }
    }

    /// Sets the value of one channel of one pixel. The position is computed
    /// without wrap-around, so a position past the buffer is an error.
    pub fn set_pixel(&mut self, x: u32, y: u32, channel: u32, value: u8) -> (r: Result<()>)
        ensures
            r is Ok <==> pixel_at(*old(self), x as int, y as int, channel as int) is Some,
            r is Ok ==> final(self).data@ == old(self).data@.update(
                pixel_index(*old(self), x as int, y as int, channel as int),
                value,
            ),
            r is Err ==> final(self).data@ == old(self).data@,
            final(self).width == old(self).width,
            final(self).height == old(self).height,
            final(self).channels == old(self).channels,
            final(self).preprocessing_steps@ == old(self).preprocessing_steps@,
            r matches Err(e) ==> e matches SableError::CryptoError(m) && m@ == pixel_refusal(
                *old(self),
                x as int,
                y as int,
                channel as int,
            ),
    {
        if x >= self.width || y >= self.height || channel >= self.channels {
            return Err(crypto_error("Pixel coordinates out of bounds"));
        }
        let index = wide_index(self, x, y, channel);
        if index < self.data.len() as u128 {
            self.data.set(index as usize, value);
            Ok(())
        } else {
            Err(crypto_error("Pixel data out of bounds"))
        }
    }

    /// Records a preprocessing step.
    pub fn add_preprocessing_step(&mut self, step: String)
        ensures
            final(self).preprocessing_steps@ == old(self).preprocessing_steps@.push(step),
            final(self).data@ == old(self).data@,
            final(self).width == old(self).width,
            final(self).height == old(self).height,
            final(self).channels == old(self).channels,
    {
        self.preprocessing_steps.push(step);
    }

    /// Whether every pixel position of the declared dimensions is a 32-bit
    /// number, as pixel access requires.
    pub fn positions_fit(&self) -> (b: bool)
        ensures
            b == positions_fit(*self),
    {
        let w = self.width as u128;
        let h = self.height as u128;
        let c = self.channels as u128;
        assert(w * h <= 0xffff_ffff * 0xffff_ffffu128) by (nonlinear_arith)
            requires
                w <= 0xffff_ffff,
                h <= 0xffff_ffff,
        ;
        assert(w * h * c <= 0xffff_ffff * 0xffff_ffffu128 * 0xffff_ffffu128) by (nonlinear_arith)
            requires
                w * h <= 0xffff_ffff * 0xffff_ffffu128,
                c <= 0xffff_ffff,
        ;
        w * h * c <= 0xffff_ffffu128
    }
}

} // verus!
