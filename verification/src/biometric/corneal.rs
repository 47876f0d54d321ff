//! Corneal glint liveness: the cornea mirrors the screen, so the mean colour
//! change of the eye region under a flash must follow the challenge colours.
//!
//! Eye localisation is the caller's: a cropped RGB eye region is supplied.

use vstd::prelude::*;
use crate::biometric::fingerprint::{
    fields_match, fingerprint_of, quantize_channels,
    MAGNITUDE_SCALE,
};
use crate::biometric::image::PalmImage;
use crate::error::{invalid_input, Result, SableError};

verus! {

/// Smallest accepted eye-region side.
const MIN_EYE_DIM: u32 = 8;

/// Largest accepted eye-region side.
const MAX_EYE_DIM: u32 = 4096;

/// Number of screen quadrants contributing to the reflected composite.
pub const NUM_QUADRANTS: usize = 4;

/// Whether two eye regions form a valid pair: same dimensions, both RGB,
/// each side in `[8, 4096]`, and each buffer exactly `width * height * 3`
/// bytes long.
pub open spec fn eye_pair_ok(base: PalmImage, flash: PalmImage) -> bool {
    &&& base.width == flash.width
    &&& base.height == flash.height
    &&& base.channels == 3
    &&& flash.channels == 3
    &&& 8 <= base.width <= 4096
    &&& 8 <= base.height <= 4096
    &&& base.data@.len() == base.width * base.height * 3
    &&& flash.data@.len() == base.width * base.height * 3
}

/// Sum over the first `k` pixels of the change of channel `c` from `base`
/// to `flash` (interleaved RGB buffers).
pub open spec fn channel_sum(base: Seq<u8>, flash: Seq<u8>, c: int, k: nat) -> int
    decreases k,
{
    if k == 0 {
        0
    } else {
        channel_sum(base, flash, c, (k - 1) as nat) + (flash[3 * (k - 1) + c] as int - base[3 * (k
            - 1) + c] as int)
    }
}

/// `|s| / n` rounded to the nearest integer, halves rounded up.
pub open spec fn rounded_abs_mean(s: int, n: int) -> int {
    let a = if s < 0 { -s } else { s };
    (2 * a + n) / (2 * n)
}

/// The rounded absolute mean change of channel `c` over an eye region pair.
pub open spec fn mean_change(base: PalmImage, flash: PalmImage, c: int) -> int {
    let n = base.width * base.height;
    rounded_abs_mean(channel_sum(base.data@, flash.data@, c, n as nat), n as int)
}

/// The glint fingerprint of a valid eye region pair: the fingerprint of the
/// rounded absolute mean change of each channel.
pub open spec fn glint_of(base: PalmImage, flash: PalmImage) -> u16 {
    fingerprint_of(
        mean_change(base, flash, 0) as u32,
        mean_change(base, flash, 1) as u32,
        mean_change(base, flash, 2) as u32,
        MAGNITUDE_SCALE,
    )
}

/// Checks that two eye regions form a valid pair.
fn recognise(baseline_eye: &PalmImage, flash_eye: &PalmImage) -> (r: Result<()>)
    ensures
        r is Ok <==> eye_pair_ok(*baseline_eye, *flash_eye),
        r matches Err(e) ==> e is InvalidInput,
{
    if baseline_eye.width != flash_eye.width || baseline_eye.height != flash_eye.height {
        return Err(invalid_input("eye region dimensions differ"));
    }
    if baseline_eye.channels != 3 || flash_eye.channels != 3 {
        return Err(invalid_input("eye region must be RGB8"));
    }
    if baseline_eye.width < MIN_EYE_DIM || baseline_eye.width > MAX_EYE_DIM || baseline_eye.height
        < MIN_EYE_DIM || baseline_eye.height > MAX_EYE_DIM {
        return Err(invalid_input("eye region dimensions outside [8, 4096]"));
    }
    let w = baseline_eye.width as usize;
    let h = baseline_eye.height as usize;
    assert(w * h <= 4096 * 4096) by (nonlinear_arith)
        requires
            w <= 4096,
            h <= 4096,
    ;
    let expected = w * h * 3;
    if baseline_eye.data.len() != expected || flash_eye.data.len() != expected {
        return Err(invalid_input("eye pixel buffer length does not match dimensions"));
    }
    Ok(())
}

/// The rounded absolute mean of a channel sum bounded by 255 per pixel is at
/// most 255.
proof fn lemma_rounded_mean_bound(s: int, n: int)
    requires
        n > 0,
        -255 * n <= s <= 255 * n,
    ensures
        0 <= rounded_abs_mean(s, n) <= 255,
{
    let a = if s < 0 { -s } else { s };
    assert(0 <= (2 * a + n) / (2 * n) <= 255) by (nonlinear_arith)
        requires
            n > 0,
            0 <= a <= 255 * n,
    ;
}

/// Encodes the mean RGB change of a corneal region under a flash as a
/// fingerprint. The pair is validated before any arithmetic.
pub fn glint_fingerprint(baseline_eye: &PalmImage, flash_eye: &PalmImage) -> (r: Result<u16>)
    ensures
        r is Ok <==> eye_pair_ok(*baseline_eye, *flash_eye),
        r matches Ok(fp) ==> fp == glint_of(*baseline_eye, *flash_eye),
        r matches Err(e) ==> e is InvalidInput,
{
    let checked = recognise(baseline_eye, flash_eye);
    if let Err(e) = checked {
        return Err(e);
    }
    let w = baseline_eye.width as usize;
    let h = baseline_eye.height as usize;
    assert(w * h <= 4096 * 4096) by (nonlinear_arith)
        requires
            w <= 4096,
            h <= 4096,
    ;
    assert(w * h >= 64) by (nonlinear_arith)
        requires
            w >= 8,
            h >= 8,
    ;
    let n = w * h;
    let ghost bs = baseline_eye.data@;
    let ghost fs = flash_eye.data@;
    let mut s0: i64 = 0;
    let mut s1: i64 = 0;
    let mut s2: i64 = 0;
    let mut i: usize = 0;
    while i < n
        invariant
            i <= n,
            n <= 4096 * 4096,
            bs == baseline_eye.data@,
            fs == flash_eye.data@,
            bs.len() == 3 * n,
            fs.len() == 3 * n,
            s0 == channel_sum(bs, fs, 0, i as nat),
            s1 == channel_sum(bs, fs, 1, i as nat),
            s2 == channel_sum(bs, fs, 2, i as nat),
            -255 * i <= s0 <= 255 * i,
            -255 * i <= s1 <= 255 * i,
            -255 * i <= s2 <= 255 * i,
        decreases n - i,
    {
        let j = i * 3;
        s0 = s0 + (flash_eye.data[j] as i64 - baseline_eye.data[j] as i64);
        s1 = s1 + (flash_eye.data[j + 1] as i64 - baseline_eye.data[j + 1] as i64);
        s2 = s2 + (flash_eye.data[j + 2] as i64 - baseline_eye.data[j + 2] as i64);
        i = i + 1;
    }
    proof {
        lemma_rounded_mean_bound(s0 as int, n as int);
        lemma_rounded_mean_bound(s1 as int, n as int);
        lemma_rounded_mean_bound(s2 as int, n as int);
    }
    let n64 = n as u64;
    let a0: u64 = if s0 < 0 { (-s0) as u64 } else { s0 as u64 };
    let a1: u64 = if s1 < 0 { (-s1) as u64 } else { s1 as u64 };
    let a2: u64 = if s2 < 0 { (-s2) as u64 } else { s2 as u64 };
    let m0 = ((2 * a0 + n64) / (2 * n64)) as u32;
    let m1 = ((2 * a1 + n64) / (2 * n64)) as u32;
    let m2 = ((2 * a2 + n64) / (2 * n64)) as u32;
    Ok(quantize_channels([m0, m1, m2], MAGNITUDE_SCALE))
}

/// Channel `c` of the area-weighted composite of the quadrant colours,
/// capped at 255 (a weighted mean of bytes never exceeds it).
pub open spec fn composite_channel(colours: [[u8; 3]; 4], weights: [u32; 4], c: int) -> u8 {
    let total = weights[0] as int + weights[1] as int + weights[2] as int + weights[3] as int;
    let acc = colours[0][c] as int * weights[0] as int + colours[1][c] as int * weights[1] as int
        + colours[2][c] as int * weights[2] as int + colours[3][c] as int * weights[3] as int;
    if acc / total > 255 {
        255
    } else {
        (acc / total) as u8
    }
}

/// The fingerprint of the area-weighted composite colour. Its magnitude
/// field is kept, so the composite responds to the quadrant areas even where
/// its direction does not: a pure red composite and a black one both have
/// all direction fields zero and differ only in magnitude. Agreement with an
/// observed glint ignores the expected magnitude.
pub open spec fn composite_fingerprint(colours: [[u8; 3]; 4], weights: [u32; 4]) -> u16 {
    fingerprint_of(
        composite_channel(colours, weights, 0) as u32,
        composite_channel(colours, weights, 1) as u32,
        composite_channel(colours, weights, 2) as u32,
        MAGNITUDE_SCALE,
    )
}

/// Weighted sum of one channel over the four quadrants.
fn weighted_channel(colours: &[[u8; 3]; NUM_QUADRANTS], weights: &[u32; NUM_QUADRANTS], c: usize) -> (acc: u64)
    requires
        c < 3,
    ensures
        acc == colours[0][c as int] as int * weights[0] as int + colours[1][c as int] as int
            * weights[1] as int + colours[2][c as int] as int * weights[2] as int
            + colours[3][c as int] as int * weights[3] as int,
{
    let mut acc: u64 = 0;
    let mut k: usize = 0;
    while k < NUM_QUADRANTS
        invariant
            k <= 4,
            c < 3,
            acc == (if k > 0 { colours[0][c as int] as int * weights[0] as int } else { 0 }) + (if k
                > 1 { colours[1][c as int] as int * weights[1] as int } else { 0 }) + (if k > 2 {
                colours[2][c as int] as int * weights[2] as int
            } else { 0 }) + (if k > 3 { colours[3][c as int] as int * weights[3] as int } else { 0 }),
            acc <= k * 0x100_0000_0000,
        decreases 4 - k,
    {
        let colour = colours[k][c] as u64;
        let weight = weights[k] as u64;
        assert(colour * weight <= 0x100_0000_0000) by (nonlinear_arith)
            requires
                colour <= 255,
                weight <= 0xFFFF_FFFF,
        ;
        acc = acc + colour * weight;
        k = k + 1;
    }
    acc
}

/// Fingerprint of the area-weighted composite of the four quadrant colours;
/// `weights` are the quadrant areas. Weights summing to zero are refused.
pub fn expected_composite(
    quadrant_colours: &[[u8; 3]; NUM_QUADRANTS],
    weights: &[u32; NUM_QUADRANTS],
) -> (r: Result<u16>)
    ensures
        r is Err <==> weights[0] == 0 && weights[1] == 0 && weights[2] == 0 && weights[3] == 0,
        r matches Ok(fp) ==> fp == composite_fingerprint(*quadrant_colours, *weights),
        r matches Err(e) ==> e is InvalidInput,
{
    let total: u64 = weights[0] as u64 + weights[1] as u64 + weights[2] as u64 + weights[3] as u64;
    if total == 0 {
        return Err(invalid_input("quadrant weights sum to zero"));
    }
    let mut composite: [u8; 3] = [0u8; 3];
    let mut c: usize = 0;
    while c < 3
        invariant
            c <= 3,
            total > 0,
            total == weights[0] as int + weights[1] as int + weights[2] as int + weights[3] as int,
            forall|j: int| 0 <= j < c ==> composite[j] == composite_channel(*quadrant_colours, *weights, j),
        decreases 3 - c,
    {
        let acc = weighted_channel(quadrant_colours, weights, c);
        let q = acc / total;
        let v: u8 = if q > 255 { 255 } else { q as u8 };
        composite[c] = v;
        c = c + 1;
    }
    Ok(quantize_channels([composite[0] as u32, composite[1] as u32, composite[2] as u32], MAGNITUDE_SCALE))
}

/// Whether an observed glint agrees with the round's expected composite, by
/// the structured field comparison (the order field is categorical, so a bit
/// distance would accept a blue glint against a red challenge).
pub fn agrees(observed: u16, expected: u16, max_ratio_delta: u8, max_magnitude_delta: u8) -> (b: bool)
    ensures
        b == fields_match(observed, expected, max_ratio_delta, max_magnitude_delta),
{
    crate::biometric::fingerprint::matches(observed, expected, max_ratio_delta, max_magnitude_delta)
}

/// The channel sums of a region against itself are zero.
proof fn lemma_channel_sum_self(s: Seq<u8>, c: int, k: nat)
    ensures
        channel_sum(s, s, c, k) == 0,
    decreases k,
{
    if k > 0 {
        lemma_channel_sum_self(s, c, (k - 1) as nat);
    }
}

/// Swapping the two regions negates every channel sum.
proof fn lemma_channel_sum_swap(a: Seq<u8>, b: Seq<u8>, c: int, k: nat)
    ensures
        channel_sum(a, b, c, k) == -channel_sum(b, a, c, k),
    decreases k,
{
    if k > 0 {
        lemma_channel_sum_swap(a, b, c, (k - 1) as nat);
    }
}

/// A region flashed against itself has no glint: its fingerprint is zero.
pub proof fn lemma_unchanged_region_has_no_glint(eye: PalmImage)
    requires
        eye_pair_ok(eye, eye),
    ensures
        glint_of(eye, eye) == 0,
{
    let n = (eye.width * eye.height) as nat;
    lemma_channel_sum_self(eye.data@, 0, n);
    lemma_channel_sum_self(eye.data@, 1, n);
    lemma_channel_sum_self(eye.data@, 2, n);
    let nn = eye.width * eye.height;
    assert(nn >= 64) by (nonlinear_arith)
        requires
            eye.width >= 8,
            eye.height >= 8,
            nn == eye.width * eye.height,
    ;
    assert((2 * 0 + nn) / (2 * nn) == 0) by (nonlinear_arith)
        requires
            nn > 0,
    ;
}

/// The glint is sign-invariant: swapping the baseline and the flash region
/// gives the same fingerprint.
pub proof fn lemma_glint_swap_invariant(base: PalmImage, flash: PalmImage)
    requires
        eye_pair_ok(base, flash),
    ensures
        eye_pair_ok(flash, base),
        glint_of(base, flash) == glint_of(flash, base),
{
    let n = (base.width * base.height) as nat;
    lemma_channel_sum_swap(base.data@, flash.data@, 0, n);
    lemma_channel_sum_swap(base.data@, flash.data@, 1, n);
    lemma_channel_sum_swap(base.data@, flash.data@, 2, n);
}

} // verus!
