//! The 16-bit delta fingerprint: channel order, two ratios and a magnitude.
//!
//! ```text
//! bit  15 14 13 | 12 11 10 9 | 8 7 6 5  | 4 3 2 1 0
//!      order    | mid_ratio  | min_ratio| magnitude
//! ```

use vstd::prelude::*;

verus! {

/// Channel value that maps to `magnitude = 31`.
pub const MAGNITUDE_SCALE: u32 = 128;

/// Mask selecting the direction fields (order and both ratios).
pub const DIRECTION_MASK: u16 = 0xFFE0;

/// Position of the largest of three values; ties go to the lower position.
pub open spec fn max_index(a: u32, b: u32, c: u32) -> int {
    if a >= b && a >= c {
        0
    } else if b >= c {
        1
    } else {
        2
    }
}

/// Position of the middle value once the largest is removed; ties go to the
/// lower position.
pub open spec fn mid_index(a: u32, b: u32, c: u32) -> int {
    let m = max_index(a, b, c);
    if m == 0 {
        if b >= c { 1 } else { 2 }
    } else if m == 1 {
        if a >= c { 0 } else { 2 }
    } else {
        if a >= b { 0 } else { 1 }
    }
}

/// Code of the channel ordering whose largest and middle channels are at
/// positions `mx` and `md`.
pub open spec fn order_code(mx: int, md: int) -> u16 {
    if mx == 0 && md == 1 {
        0
    } else if mx == 0 && md == 2 {
        1
    } else if mx == 1 && md == 0 {
        2
    } else if mx == 1 && md == 2 {
        3
    } else if mx == 2 && md == 0 {
        4
    } else {
        5
    }
}

/// The value at position `i` of three values.
pub open spec fn pick(a: u32, b: u32, c: u32, i: int) -> u32 {
    if i == 0 {
        a
    } else if i == 1 {
        b
    } else {
        c
    }
}

/// `v * 15 / max`, capped at 15.
pub open spec fn ratio15(v: u32, max: u32) -> u16 {
    if (v as int) * 15 / (max as int) > 15 {
        15
    } else {
        ((v as int) * 15 / (max as int)) as u16
    }
}

/// `v * 31 / scale`, capped at 31.
pub open spec fn magnitude31(v: u32, scale: u32) -> u16 {
    if (v as int) * 31 / (scale as int) > 31 {
        31
    } else {
        ((v as int) * 31 / (scale as int)) as u16
    }
}

/// Packs the four fields into a fingerprint.
pub open spec fn pack(order: u16, mid_ratio: u16, min_ratio: u16, magnitude: u16) -> u16 {
    (order << 13u16) | (mid_ratio << 9u16) | (min_ratio << 5u16) | magnitude
}

/// The fingerprint of absolute channel values `(a, b, c)` at magnitude
/// scale `scale` (a scale of 0 counts as 1): 0 when all are zero; otherwise
/// the ordering code, the middle and smallest values as fifteenths of the
/// largest, and the largest as a fraction of the scale in 31 steps.
pub open spec fn fingerprint_of(a: u32, b: u32, c: u32, scale: u32) -> u16 {
    let s: u32 = if scale < 1 { 1 } else { scale };
    let mx = max_index(a, b, c);
    let md = mid_index(a, b, c);
    let maxv = pick(a, b, c, mx);
    let midv = pick(a, b, c, md);
    let minv = pick(a, b, c, 3 - mx - md);
    if maxv == 0 {
        0
    } else {
        pack(
            order_code(mx, md),
            ratio15(midv, maxv),
            ratio15(minv, maxv),
            magnitude31(maxv, s),
        )
    }
}

/// The direction fields of a fingerprint, with the magnitude cleared.
pub open spec fn direction_of(fp: u16) -> u16 {
    fp & 0xFFE0u16
}

/// The direction fields of a fingerprint with the magnitude cleared.
pub fn direction(fp: u16) -> (d: u16)
    ensures
        d == direction_of(fp),
{
    fp & DIRECTION_MASK
}

/// `v * 15 / max`, capped at 15.
fn ratio(v: u32, max: u32) -> (r: u16)
    requires
        max > 0,
        v <= max,
        max <= u32::MAX / 31,
    ensures
        r == ratio15(v, max),
        r <= 15,
{
    let q = v * 15 / max;
    if q > 15 {
        15
    } else {
        q as u16
    }
}

/// The fingerprint of absolute channel values `abs` at magnitude scale
/// `scale`; values are at most `u32::MAX / 31`.
pub fn quantize_channels(abs: [u32; 3], scale: u32) -> (fp: u16)
    requires
        abs[0] <= u32::MAX / 31,
        abs[1] <= u32::MAX / 31,
        abs[2] <= u32::MAX / 31,
    ensures
        fp == fingerprint_of(abs[0], abs[1], abs[2], scale),
{
    let s = if scale < 1 { 1 } else { scale };
    let a = abs[0];
    let b = abs[1];
    let c = abs[2];
    let mx: usize = if a >= b && a >= c {
        0
    } else if b >= c {
        1
    } else {
        2
    };
    let md: usize = if mx == 0 {
        if b >= c { 1 } else { 2 }
    } else if mx == 1 {
        if a >= c { 0 } else { 2 }
    } else {
        if a >= b { 0 } else { 1 }
    };
    let mn: usize = 3 - mx - md;
    let maxv = abs[mx];
    let midv = abs[md];
    let minv = abs[mn];
    if maxv == 0 {
        return 0;
    }
    let order: u16 = if mx == 0 && md == 1 {
        0
    } else if mx == 0 && md == 2 {
        1
    } else if mx == 1 && md == 0 {
        2
    } else if mx == 1 && md == 2 {
        3
    } else if mx == 2 && md == 0 {
        4
    } else {
        5
    };
    let mid_ratio = ratio(midv, maxv);
    let min_ratio = ratio(minv, maxv);
    let m = maxv * 31 / s;
    let magnitude: u16 = if m > 31 { 31 } else { m as u16 };
    (order << 13u16) | (mid_ratio << 9u16) | (min_ratio << 5u16) | magnitude
}

/// The direction half of the fingerprint of a colour: its magnitude field
/// is zero.
pub fn quantize_colour(colour: &[u8; 3]) -> (fp: u16)
    ensures
        fp == direction_of(
            fingerprint_of(colour[0] as u32, colour[1] as u32, colour[2] as u32, MAGNITUDE_SCALE),
        ),
{
    direction(quantize_channels([colour[0] as u32, colour[1] as u32, colour[2] as u32], MAGNITUDE_SCALE))
}

/// Number of set bits.
pub open spec fn bit_count(v: u16) -> nat
    decreases v,
{
    if v == 0 {
        0
    } else {
        (v % 2) as nat + bit_count(v / 2)
    }
}

/// Hamming distance between two fingerprints (not a colour metric).
pub fn hamming_distance(a: u16, b: u16) -> (d: u32)
    ensures
        d == bit_count(a ^ b),
{
    let mut v: u16 = a ^ b;
    let mut count: u32 = 0;
    proof { lemma_bit_count_le(a ^ b); }
    while v != 0
        invariant
            count + bit_count(v) == bit_count(a ^ b),
            bit_count(a ^ b) <= 0xFFFF,
        decreases v,
    {
        count = count + (v % 2) as u32;
        v = v / 2;
    }
    count
}

/// A value has no more set bits than its magnitude.
proof fn lemma_bit_count_le(v: u16)
    ensures
        bit_count(v) <= v,
    decreases v,
{
    if v > 0 {
        lemma_bit_count_le(v / 2);
    }
}

/// The four fields of a fingerprint.
#[derive(Debug, Clone, Copy, PartialEq, Eq, Structural)]
pub struct Fields {
    /// Which of six channel orderings holds; categorical.
    pub order: u8,
    /// `|mid| / |max|` in `[0, 15]`.
    pub mid_ratio: u8,
    /// `|min| / |max|` in `[0, 15]`.
    pub min_ratio: u8,
    /// Dominant channel strength in `[0, 31]`.
    pub magnitude: u8,
}

/// The fields of a fingerprint.
pub open spec fn fields_of(fp: u16) -> Fields {
    Fields {
        order: ((fp >> 13u16) & 0x07u16) as u8,
        mid_ratio: ((fp >> 9u16) & 0x0Fu16) as u8,
        min_ratio: ((fp >> 5u16) & 0x0Fu16) as u8,
        magnitude: (fp & 0x1Fu16) as u8,
    }
}

/// Unpacks a fingerprint into its fields.
pub fn unpack(fp: u16) -> (f: Fields)
    ensures
        f == fields_of(fp),
{
    Fields {
        order: ((fp >> 13u16) & 0x07u16) as u8,
        mid_ratio: ((fp >> 9u16) & 0x0Fu16) as u8,
        min_ratio: ((fp >> 5u16) & 0x0Fu16) as u8,
        magnitude: (fp & 0x1Fu16) as u8,
    }
}

/// Distance between two bytes.
pub open spec fn byte_distance(a: u8, b: u8) -> int {
    if a >= b {
        a - b
    } else {
        b - a
    }
}

/// Whether an observed fingerprint matches an expected one by field: the
/// order must be equal, each ratio within `max_ratio_delta`, and the observed
/// magnitude at least `magnitude_floor` (the expected magnitude is ignored).
pub open spec fn fields_match(observed: u16, expected: u16, max_ratio_delta: u8, magnitude_floor: u8) -> bool {
    let o = fields_of(observed);
    let e = fields_of(expected);
    &&& o.order == e.order
    &&& byte_distance(o.mid_ratio, e.mid_ratio) <= max_ratio_delta
    &&& byte_distance(o.min_ratio, e.min_ratio) <= max_ratio_delta
    &&& o.magnitude >= magnitude_floor
}

/// Compares two fingerprints by field semantics.
pub fn matches(observed: u16, expected: u16, max_ratio_delta: u8, magnitude_floor: u8) -> (b: bool)
    ensures
        b == fields_match(observed, expected, max_ratio_delta, magnitude_floor),
{
    let o = unpack(observed);
    let e = unpack(expected);
    let mid_d = if o.mid_ratio >= e.mid_ratio { o.mid_ratio - e.mid_ratio } else { e.mid_ratio - o.mid_ratio };
    let min_d = if o.min_ratio >= e.min_ratio { o.min_ratio - e.min_ratio } else { e.min_ratio - o.min_ratio };
    o.order == e.order && mid_d <= max_ratio_delta && min_d <= max_ratio_delta && o.magnitude
        >= magnitude_floor
}

/// Every field of a fingerprint lies in its documented range.
pub proof fn lemma_field_bounds(fp: u16)
    ensures
        fields_of(fp).order <= 7,
        fields_of(fp).mid_ratio <= 15,
        fields_of(fp).min_ratio <= 15,
        fields_of(fp).magnitude <= 31,
{
    assert(((fp >> 13u16) & 0x07u16) <= 7) by (bit_vector);
    assert(((fp >> 9u16) & 0x0Fu16) <= 15) by (bit_vector);
    assert(((fp >> 5u16) & 0x0Fu16) <= 15) by (bit_vector);
    assert((fp & 0x1Fu16) <= 31) by (bit_vector);
}

/// The fields of a packed fingerprint are the fields packed.
pub proof fn lemma_pack_fields(order: u16, mid: u16, min: u16, mag: u16)
    requires
        order <= 7,
        mid <= 15,
        min <= 15,
        mag <= 31,
    ensures
        fields_of(pack(order, mid, min, mag)) == (Fields {
            order: order as u8,
            mid_ratio: mid as u8,
            min_ratio: min as u8,
            magnitude: mag as u8,
        }),
        direction_of(pack(order, mid, min, mag)) == pack(order, mid, min, 0),
{
    let p = pack(order, mid, min, mag);
    assert(((((order << 13u16) | (mid << 9u16) | (min << 5u16) | mag) >> 13u16) & 0x07u16) == order)
        by (bit_vector)
        requires
            order <= 7,
            mid <= 15,
            min <= 15,
            mag <= 31,
    ;
    assert(((((order << 13u16) | (mid << 9u16) | (min << 5u16) | mag) >> 9u16) & 0x0Fu16) == mid)
        by (bit_vector)
        requires
            order <= 7,
            mid <= 15,
            min <= 15,
            mag <= 31,
    ;
    assert(((((order << 13u16) | (mid << 9u16) | (min << 5u16) | mag) >> 5u16) & 0x0Fu16) == min)
        by (bit_vector)
        requires
            order <= 7,
            mid <= 15,
            min <= 15,
            mag <= 31,
    ;
    assert((((order << 13u16) | (mid << 9u16) | (min << 5u16) | mag) & 0x1Fu16) == mag) by (bit_vector)
        requires
            order <= 7,
            mid <= 15,
            min <= 15,
            mag <= 31,
    ;
    assert((((order << 13u16) | (mid << 9u16) | (min << 5u16) | mag) & 0xFFE0u16) == ((order << 13u16)
        | (mid << 9u16) | (min << 5u16) | 0u16)) by (bit_vector)
        requires
            order <= 7,
            mid <= 15,
            min <= 15,
            mag <= 31,
    ;
}

/// The fingerprint of a colour carries no magnitude.
pub proof fn lemma_colour_has_no_magnitude(c0: u8, c1: u8, c2: u8)
    ensures
        fields_of(direction_of(fingerprint_of(c0 as u32, c1 as u32, c2 as u32, MAGNITUDE_SCALE))).magnitude == 0,
{
    let fp = fingerprint_of(c0 as u32, c1 as u32, c2 as u32, MAGNITUDE_SCALE);
    assert(((fp & 0xFFE0u16) & 0x1Fu16) == 0) by (bit_vector);
}

/// The magnitude scale affects only the magnitude field: fingerprints at any
/// two scales have the same direction fields.
pub proof fn lemma_scale_changes_magnitude_only(a: u32, b: u32, c: u32, s1: u32, s2: u32)
    requires
        a <= u32::MAX / 31,
        b <= u32::MAX / 31,
        c <= u32::MAX / 31,
    ensures
        direction_of(fingerprint_of(a, b, c, s1)) == direction_of(fingerprint_of(a, b, c, s2)),
{
    let mx = max_index(a, b, c);
    let md = mid_index(a, b, c);
    let maxv = pick(a, b, c, mx);
    if maxv != 0 {
        let o = order_code(mx, md);
        let r1 = ratio15(pick(a, b, c, md), maxv);
        let r2 = ratio15(pick(a, b, c, 3 - mx - md), maxv);
        let t1: u32 = if s1 < 1 { 1 } else { s1 };
        let t2: u32 = if s2 < 1 { 1 } else { s2 };
        let m1 = magnitude31(maxv, t1);
        let m2 = magnitude31(maxv, t2);
        lemma_pack_fields(o, r1, r2, m1);
        lemma_pack_fields(o, r1, r2, m2);
    }
}

/// Fingerprints whose orders differ never match, whatever the tolerances.
pub proof fn lemma_order_mismatch_never_matches(observed: u16, expected: u16, d: u8, f: u8)
    requires
        fields_of(observed).order != fields_of(expected).order,
    ensures
        !fields_match(observed, expected, d, f),
{
}

} // verus!
