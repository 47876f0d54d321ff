//! Photometric convexity from one spatial-flash round.
//!
//! Four screen quadrants are lit at once in four colours. For each patch of an
//! `n x n` grid the mean RGB change is projected onto each lamp's colour and
//! normalised into a mix: the patch's relative illumination by the four lamps.
//! A plane presents one normal everywhere, so its mixes agree; a convex face
//! turns its normal from patch to patch, so its mixes spread. The score is the
//! mean L1 deviation of the patch mixes from their mean. Because each mix is
//! normalised, the score does not depend on exposure or albedo.
//!
//! No threshold lives here: callers supply their own.

use vstd::prelude::*;
use crate::biometric::image::{lemma_pixel_index_bound, lemma_position_steps, pixel_index, PalmImage};
use crate::error::{invalid_input, Result, SableError};

verus! {

/// Fixed-point scale of a lamp response.
const RESPONSE_SCALE: i64 = 65536;

/// Number of screen quadrants lit per round: TL, TR, BL, BR.
pub const NUM_QUADRANTS: usize = 4;

/// Smallest accepted frame side.
const MIN_DIM: u32 = 64;

/// Smallest accepted grid side.
const MIN_GRID_N: usize = 2;

/// Largest accepted grid side.
const MAX_GRID_N: usize = 8;

/// Q15 fixed-point unity: the components of a mix sum to about this when the
/// patch responded.
pub const Q15_ONE: i64 = 32768;

/// Patch grid laid over the face region: `n x n` patches.
#[derive(Debug, Clone, Copy, PartialEq, Eq, Structural)]
pub struct PatchGrid {
    /// Patches per side.
    pub n: usize,
}

impl Default for PatchGrid {
    /// The default grid is `4 x 4`.
    fn default() -> (g: Self)
        ensures
            g.n == 4,
    {
        PatchGrid { n: 4 }
    }
}

/// Photometric analysis of one round.
#[derive(Debug, Clone, PartialEq, Eq)]
pub struct PhotometricRound {
    /// Per-patch response to each lamp, row-major, `n * n` entries.
    pub responses: Vec<[i64; 4]>,
    /// Per-patch illumination mix in Q15; all zero where the patch did not
    /// respond.
    pub mixes: Vec<[i64; 4]>,
    /// Mean L1 deviation of the patch mixes from their mean, in Q15.
    pub convexity_score: u16,
}

/// Whether a frame pair and grid are accepted: same dimensions, both RGB,
/// each side at least 64, grid side in `[2, 8]`, and each buffer exactly
/// `width * height * 3` bytes long.
pub open spec fn frames_ok(base: PalmImage, flash: PalmImage, n: int) -> bool {
    &&& base.width == flash.width
    &&& base.height == flash.height
    &&& base.channels == 3
    &&& flash.channels == 3
    &&& base.width >= 64
    &&& base.height >= 64
    &&& 2 <= n <= 8
    &&& base.data@.len() == base.width * base.height * 3
    &&& flash.data@.len() == base.width * base.height * 3
}

/// First coordinate of the `i`-th of `n` spans of `[0, len)`.
pub open spec fn span_lo(i: int, len: int, n: int) -> int {
    i * len / n
}

/// One past the last coordinate of the `i`-th of `n` spans of `[0, len)`;
/// a span holds at least one coordinate.
pub open spec fn span_hi(i: int, len: int, n: int) -> int {
    let hi = (i + 1) * len / n;
    if hi >= span_lo(i, len, n) + 1 {
        hi
    } else {
        span_lo(i, len, n) + 1
    }
}

/// Change of channel `c` of pixel `(x, y)` from `bs` to `fs` (RGB rows of
/// width `w`).
pub open spec fn pixel_change(bs: Seq<u8>, fs: Seq<u8>, w: int, x: int, y: int, c: int) -> int {
    fs[(y * w + x) * 3 + c] as int - bs[(y * w + x) * 3 + c] as int
}

/// Sum of the changes of channel `c` over pixels `x0..x` of row `y`.
pub open spec fn row_sum(bs: Seq<u8>, fs: Seq<u8>, w: int, y: int, x0: int, x: int, c: int) -> int
    decreases x - x0,
{
    if x <= x0 {
        0
    } else {
        row_sum(bs, fs, w, y, x0, x - 1, c) + pixel_change(bs, fs, w, x - 1, y, c)
    }
}

/// Sum of the changes of channel `c` over columns `x0..x1` of rows `y0..y`.
pub open spec fn rect_sum(bs: Seq<u8>, fs: Seq<u8>, w: int, x0: int, x1: int, y0: int, y: int, c: int) -> int
    decreases y - y0,
{
    if y <= y0 {
        0
    } else {
        rect_sum(bs, fs, w, x0, x1, y0, y - 1, c) + row_sum(bs, fs, w, y - 1, x0, x1, c)
    }
}

/// Integer division rounding toward zero.
pub open spec fn trunc_div(a: int, b: int) -> int {
    if a >= 0 {
        a / b
    } else {
        -((-a) / b)
    }
}

/// Mean change of channel `c` over the patch at `(row, col)`, rounded
/// toward zero.
pub open spec fn patch_delta(base: PalmImage, flash: PalmImage, n: int, row: int, col: int, c: int) -> int {
    let w = base.width as int;
    let h = base.height as int;
    let x0 = span_lo(col, w, n);
    let x1 = span_hi(col, w, n);
    let y0 = span_lo(row, h, n);
    let y1 = span_hi(row, h, n);
    trunc_div(rect_sum(base.data@, flash.data@, w, x0, x1, y0, y1, c), (x1 - x0) * (y1 - y0))
}

/// Whether `r` is the integer square root of `x`.
pub open spec fn is_isqrt(x: int, r: int) -> bool {
    0 <= r && r * r <= x && x < (r + 1) * (r + 1)
}

/// Euclidean norm of a lamp colour, rounded down.
pub open spec fn colour_norm_of(colour: [u8; 3]) -> int {
    let sq = colour[0] as int * colour[0] as int + colour[1] as int * colour[1] as int
        + colour[2] as int * colour[2] as int;
    choose|r: int| is_isqrt(sq, r)
}

/// Projection of a change `(d0, d1, d2)` onto a lamp's unit colour
/// direction in fixed point, clamped at zero (a Lambertian response cannot be
/// negative); 0 for a black lamp.
pub open spec fn projection(d0: int, d1: int, d2: int, colour: [u8; 3], norm: int) -> int {
    let dot = d0 * colour[0] as int + d1 * colour[1] as int + d2 * colour[2] as int;
    if norm == 0 || dot <= 0 {
        0
    } else {
        dot * 65536 / norm
    }
}

/// Response of the patch at `(row, col)` to lamp `k`.
pub open spec fn response_of(
    base: PalmImage,
    flash: PalmImage,
    colours: [[u8; 3]; 4],
    n: int,
    row: int,
    col: int,
    k: int,
) -> int {
    projection(
        patch_delta(base, flash, n, row, col, 0),
        patch_delta(base, flash, n, row, col, 1),
        patch_delta(base, flash, n, row, col, 2),
        colours[k],
        colour_norm_of(colours[k]),
    )
}

/// Component `k` of the Q15 mix of four responses: its share of their total,
/// or 0 when the total is not positive.
pub open spec fn mix_entry(r: [i64; 4], k: int) -> int {
    let total = r[0] as int + r[1] as int + r[2] as int + r[3] as int;
    if total <= 0 {
        0
    } else {
        r[k] as int * 32768 / total
    }
}

/// Sum of component `k` over the first `j` mixes.
pub open spec fn column_sum(ms: Seq<[i64; 4]>, k: int, j: nat) -> int
    decreases j,
{
    if j == 0 {
        0
    } else {
        column_sum(ms, k, (j - 1) as nat) + ms[j - 1][k] as int
    }
}

/// Component `k` of the mean mix, rounded down.
pub open spec fn mean_mix(ms: Seq<[i64; 4]>, k: int) -> int {
    column_sum(ms, k, ms.len()) / (ms.len() as int)
}

/// Absolute value.
pub open spec fn abs_int(v: int) -> int {
    if v < 0 {
        -v
    } else {
        v
    }
}

/// L1 distance of one mix from the mean mix.
pub open spec fn mix_deviation(m: [i64; 4], ms: Seq<[i64; 4]>) -> int {
    abs_int(m[0] - mean_mix(ms, 0)) + abs_int(m[1] - mean_mix(ms, 1)) + abs_int(m[2] - mean_mix(ms, 2))
        + abs_int(m[3] - mean_mix(ms, 3))
}

/// Sum of the L1 deviations of the first `j` mixes.
pub open spec fn deviation_sum(ms: Seq<[i64; 4]>, j: nat) -> int
    decreases j,
{
    if j == 0 {
        0
    } else {
        deviation_sum(ms, (j - 1) as nat) + mix_deviation(ms[j - 1], ms)
    }
}

/// Mean L1 deviation of the mixes from their mean, rounded down and capped
/// at `u16::MAX`.
pub open spec fn convexity_of(ms: Seq<[i64; 4]>) -> u16 {
    let d = deviation_sum(ms, ms.len()) / (ms.len() as int);
    if d > 65535 {
        65535
    } else {
        d as u16
    }
}

/// Checks a frame pair and grid before any arithmetic.
fn recognise(baseline: &PalmImage, flash: &PalmImage, grid: PatchGrid) -> (r: Result<()>)
    ensures
        r is Ok <==> frames_ok(*baseline, *flash, grid.n as int),
        r matches Err(e) ==> e is InvalidInput,
{
    if baseline.width != flash.width || baseline.height != flash.height {
        return Err(invalid_input("baseline and flash dimensions differ"));
    }
    if baseline.channels != 3 || flash.channels != 3 {
        return Err(invalid_input("frames must be RGB8"));
    }
    if baseline.width < MIN_DIM || baseline.height < MIN_DIM {
        return Err(invalid_input("frame smaller than 64x64"));
    }
    if grid.n < MIN_GRID_N || grid.n > MAX_GRID_N {
        return Err(invalid_input("grid.n outside [2, 8]"));
    }
    let base_len = baseline.data.len();
    let px = (baseline.width as usize).checked_mul(baseline.height as usize);
    if px.is_none() {
        proof {
            assert(baseline.width * baseline.height * 3 > usize::MAX) by (nonlinear_arith)
                requires
                    baseline.width * baseline.height > usize::MAX,
            ;
        }
        return Err(invalid_input("pixel buffer length does not match dimensions"));
    }
    let expected = px.unwrap().checked_mul(3);
    if expected.is_none() {
        return Err(invalid_input("pixel buffer length does not match dimensions"));
    }
    let len = expected.unwrap();
    if baseline.data.len() != len || flash.data.len() != len {
        return Err(invalid_input("pixel buffer length does not match dimensions"));
    }
    Ok(())
}

/// The `i`-th of `n` spans of `[0, len)`.
fn span(i: u64, len: u64, n: u64) -> (r: (u64, u64))
    requires
        i < n,
        2 <= n <= 8,
        64 <= len <= u32::MAX,
    ensures
        r.0 == span_lo(i as int, len as int, n as int),
        r.1 == span_hi(i as int, len as int, n as int),
        r.0 < r.1 <= len,
{
    assert(i * len <= (i + 1) * len <= 8 * 0xFFFF_FFFF) by (nonlinear_arith)
        requires
            i + 1 <= 8,
            len <= 0xFFFF_FFFF,
    ;
    proof {
        vstd::arithmetic::mul::lemma_mul_inequality(i as int, (n - 1) as int, len as int);
        vstd::arithmetic::mul::lemma_mul_inequality((i + 1) as int, n as int, len as int);
    }
    let lo = i * len / n;
    let hi0 = (i + 1) * len / n;
    proof {
        vstd::arithmetic::div_mod::lemma_div_is_ordered(((i + 1) * len) as int, (n * len) as int, n as int);
        vstd::arithmetic::div_mod::lemma_div_by_multiple(len as int, n as int);
        vstd::arithmetic::div_mod::lemma_fundamental_div_mod((i * len) as int, n as int);
        assert((n * (lo as int)) <= (i * len) as int);
        assert((i * len) as int <= (n - 1) * len);
        assert(lo < len) by (nonlinear_arith)
            requires
                n * (lo as int) <= (n - 1) * (len as int),
                n >= 2,
                len >= 64,
                lo >= 0,
        ;
        assert(n * len == len * n) by (nonlinear_arith);
    }
    let hi = if hi0 >= lo + 1 { hi0 } else { lo + 1 };
    (lo, hi)
}

/// A row sum moves by at most 255 per pixel.
proof fn lemma_row_sum_bound(bs: Seq<u8>, fs: Seq<u8>, w: int, y: int, x0: int, x: int, c: int)
    requires
        x0 <= x,
    ensures
        -255 * (x - x0) <= row_sum(bs, fs, w, y, x0, x, c) <= 255 * (x - x0),
    decreases x - x0,
{
    if x > x0 {
        lemma_row_sum_bound(bs, fs, w, y, x0, x - 1, c);
    }
}

/// A rectangle sum moves by at most 255 per pixel.
proof fn lemma_rect_sum_bound(bs: Seq<u8>, fs: Seq<u8>, w: int, x0: int, x1: int, y0: int, y: int, c: int)
    requires
        x0 <= x1,
        y0 <= y,
    ensures
        -255 * ((x1 - x0) * (y - y0)) <= rect_sum(bs, fs, w, x0, x1, y0, y, c) <= 255 * ((x1 - x0) * (
        y - y0)),
    decreases y - y0,
{
    if y > y0 {
        lemma_rect_sum_bound(bs, fs, w, x0, x1, y0, y - 1, c);
        lemma_row_sum_bound(bs, fs, w, y - 1, x0, x1, c);
        assert((x1 - x0) * (y - y0) == (x1 - x0) * (y - 1 - y0) + (x1 - x0)) by (nonlinear_arith);
    }
}

/// Sums of channel changes over columns `x0..x1` of row `y`.
fn sum_row(
    baseline: &PalmImage,
    flash: &PalmImage,
    y: usize,
    x0: usize,
    x1: usize,
) -> (s: (i128, i128, i128))
    requires
        frames_ok(*baseline, *flash, 2),
        y < baseline.height,
        x0 <= x1 <= baseline.width,
    ensures
        s.0 == row_sum(baseline.data@, flash.data@, baseline.width as int, y as int, x0 as int, x1 as int, 0),
        s.1 == row_sum(baseline.data@, flash.data@, baseline.width as int, y as int, x0 as int, x1 as int, 1),
        s.2 == row_sum(baseline.data@, flash.data@, baseline.width as int, y as int, x0 as int, x1 as int, 2),
{
    let ghost bs = baseline.data@;
    let ghost fs = flash.data@;
    let ghost wi = baseline.width as int;
    let w = baseline.width as usize;
    let total_len = baseline.data.len();
    let mut t0: i128 = 0;
    let mut t1: i128 = 0;
    let mut t2: i128 = 0;
    let mut x = x0;
    while x < x1
        invariant
            frames_ok(*baseline, *flash, 2),
            bs == baseline.data@,
            fs == flash.data@,
            wi == baseline.width,
            w == baseline.width,
            y < baseline.height,
            total_len == baseline.data@.len(),
            x0 <= x <= x1 <= baseline.width,
            t0 == row_sum(bs, fs, wi, y as int, x0 as int, x as int, 0),
            t1 == row_sum(bs, fs, wi, y as int, x0 as int, x as int, 1),
            t2 == row_sum(bs, fs, wi, y as int, x0 as int, x as int, 2),
            -255 * (x - x0) <= t0 <= 255 * (x - x0),
            -255 * (x - x0) <= t1 <= 255 * (x - x0),
            -255 * (x - x0) <= t2 <= 255 * (x - x0),
        decreases x1 - x,
    {
        proof {
            lemma_position_steps(*baseline, x as int, y as int, 2);
            lemma_pixel_index_bound(*baseline, x as int, y as int, 2);
        }
        let base_idx = (y * w + x) * 3;
        t0 = t0 + (flash.data[base_idx] as i128 - baseline.data[base_idx] as i128);
        t1 = t1 + (flash.data[base_idx + 1] as i128 - baseline.data[base_idx + 1] as i128);
        t2 = t2 + (flash.data[base_idx + 2] as i128 - baseline.data[base_idx + 2] as i128);
        x = x + 1;
    }
    (t0, t1, t2)
}

/// `a / count` rounded toward zero, for a sum bounded by 255 per counted
/// pixel.
fn mean_of(a: i128, count: u128) -> (m: i64)
    requires
        0 < count <= 0x1_0000_0000_0000_0000,
        -255 * count <= a <= 255 * count,
    ensures
        m == trunc_div(a as int, count as int),
        -255 <= m <= 255,
{
    let mag: u128 = if a < 0 { (-a) as u128 } else { a as u128 };
    let q = mag / count;
    proof {
        vstd::arithmetic::div_mod::lemma_div_is_ordered(mag as int, 255 * count, count as int);
        vstd::arithmetic::div_mod::lemma_div_by_multiple(255, count as int);
    }
    if a < 0 {
        -(q as i64)
    } else {
        q as i64
    }
}

/// Mean change of each channel over the patch at `(row, col)`.
fn mean_delta(baseline: &PalmImage, flash: &PalmImage, grid: PatchGrid, row: usize, col: usize) -> (d: [i64; 3])
    requires
        frames_ok(*baseline, *flash, grid.n as int),
        row < grid.n,
        col < grid.n,
    ensures
        forall|c: int| 0 <= c < 3 ==> d[c] == patch_delta(*baseline, *flash, grid.n as int, row as int, col as int, c),
        forall|c: int| 0 <= c < 3 ==> -255 <= #[trigger] d[c] <= 255,
{
    let ghost bs = baseline.data@;
    let ghost fs = flash.data@;
    let ghost wi = baseline.width as int;
    let (x0, x1) = span(col as u64, baseline.width as u64, grid.n as u64);
    let (y0, y1) = span(row as u64, baseline.height as u64, grid.n as u64);
    let xs = x0 as usize;
    let xe = x1 as usize;
    let ye = y1 as usize;
    let mut s0: i128 = 0;
    let mut s1: i128 = 0;
    let mut s2: i128 = 0;
    let mut y = y0 as usize;
    while y < ye
        invariant
            frames_ok(*baseline, *flash, grid.n as int),
            bs == baseline.data@,
            fs == flash.data@,
            wi == baseline.width,
            xs < xe <= baseline.width,
            y0 <= y <= ye <= baseline.height,
            s0 == rect_sum(bs, fs, wi, xs as int, xe as int, y0 as int, y as int, 0),
            s1 == rect_sum(bs, fs, wi, xs as int, xe as int, y0 as int, y as int, 1),
            s2 == rect_sum(bs, fs, wi, xs as int, xe as int, y0 as int, y as int, 2),
            -0x100_0000_0000 * (y - y0) <= s0 <= 0x100_0000_0000 * (y - y0),
            -0x100_0000_0000 * (y - y0) <= s1 <= 0x100_0000_0000 * (y - y0),
            -0x100_0000_0000 * (y - y0) <= s2 <= 0x100_0000_0000 * (y - y0),
        decreases ye - y,
    {
        let (t0, t1, t2) = sum_row(baseline, flash, y, xs, xe);
        proof {
            lemma_row_sum_bound(bs, fs, wi, y as int, xs as int, xe as int, 0);
            lemma_row_sum_bound(bs, fs, wi, y as int, xs as int, xe as int, 1);
            lemma_row_sum_bound(bs, fs, wi, y as int, xs as int, xe as int, 2);
        }
        s0 = s0 + t0;
        s1 = s1 + t1;
        s2 = s2 + t2;
        y = y + 1;
    }
    assert((xe - xs) * (ye - y0) <= 0x1_0000_0000_0000_0000) by (nonlinear_arith)
        requires
            0 <= xe - xs <= 0xFFFF_FFFF,
            0 <= ye - y0 <= 0xFFFF_FFFF,
    ;
    let count: u128 = ((xe - xs) as u128) * ((ye - y0 as usize) as u128);
    proof {
        lemma_rect_sum_bound(bs, fs, wi, xs as int, xe as int, y0 as int, ye as int, 0);
        lemma_rect_sum_bound(bs, fs, wi, xs as int, xe as int, y0 as int, ye as int, 1);
        lemma_rect_sum_bound(bs, fs, wi, xs as int, xe as int, y0 as int, ye as int, 2);
        assert(count > 0) by (nonlinear_arith)
            requires
                count == (xe - xs) * (ye - y0),
                xe > xs,
                ye > y0,
        ;
    }
    [mean_of(s0, count), mean_of(s1, count), mean_of(s2, count)]
}

/// Integer square roots are unique.
proof fn lemma_isqrt_unique(x: int, r1: int, r2: int)
    requires
        is_isqrt(x, r1),
        is_isqrt(x, r2),
    ensures
        r1 == r2,
{
    if r1 < r2 {
        assert((r1 + 1) * (r1 + 1) <= r2 * r2) by (nonlinear_arith)
            requires
                0 <= r1 + 1 <= r2,
        ;
    } else if r2 < r1 {
        assert((r2 + 1) * (r2 + 1) <= r1 * r1) by (nonlinear_arith)
            requires
                0 <= r2 + 1 <= r1,
        ;
    }
}

/// Euclidean norm of a lamp colour, rounded down.
fn colour_norm(colour: &[u8; 3]) -> (r: i64)
    ensures
        r == colour_norm_of(*colour),
        0 <= r <= 442,
{
    let c0 = colour[0] as i64;
    let c1 = colour[1] as i64;
    let c2 = colour[2] as i64;
    assert(c0 * c0 <= 65025 && c1 * c1 <= 65025 && c2 * c2 <= 65025) by (nonlinear_arith)
        requires
            0 <= c0 <= 255,
            0 <= c1 <= 255,
            0 <= c2 <= 255,
    ;
    let sq = c0 * c0 + c1 * c1 + c2 * c2;
    let mut r: i64 = 0;
    loop
        invariant
            0 <= r <= 442,
            r * r <= sq,
            sq <= 195075,
        ensures
            0 <= r <= 442,
            r * r <= sq,
            sq < (r + 1) * (r + 1),
        decreases 442 - r,
    {
        if r >= 442 {
            assert(443 * 443 > 195075);
            break;
        }
        let next = r + 1;
        assert(next * next <= 443 * 443) by (nonlinear_arith)
            requires
                0 <= next <= 443,
        ;
        if next * next > sq {
            break;
        }
        r = next;
    }
    proof {
        let ghost sqi = colour[0] as int * colour[0] as int + colour[1] as int * colour[1] as int
            + colour[2] as int * colour[2] as int;
        assert(is_isqrt(sqi, r as int));
        lemma_isqrt_unique(sqi, r as int, choose|q: int| is_isqrt(sqi, q));
    }
    r
}

/// Projection of a change onto a lamp's unit colour direction, clamped at
/// zero.
fn project(delta: &[i64; 3], colour: &[u8; 3], norm: i64) -> (p: i64)
    requires
        forall|c: int| 0 <= c < 3 ==> -255 <= #[trigger] delta[c] <= 255,
        0 <= norm,
    ensures
        p == projection(delta[0] as int, delta[1] as int, delta[2] as int, *colour, norm as int),
        0 <= p <= 195075 * 65536,
{
    if norm == 0 {
        return 0;
    }
    let d0 = delta[0];
    let d1 = delta[1];
    let d2 = delta[2];
    let k0 = colour[0] as i64;
    let k1 = colour[1] as i64;
    let k2 = colour[2] as i64;
    assert(-65025 <= d0 * k0 <= 65025) by (nonlinear_arith)
        requires
            -255 <= d0 <= 255,
            0 <= k0 <= 255,
    ;
    assert(-65025 <= d1 * k1 <= 65025) by (nonlinear_arith)
        requires
            -255 <= d1 <= 255,
            0 <= k1 <= 255,
    ;
    assert(-65025 <= d2 * k2 <= 65025) by (nonlinear_arith)
        requires
            -255 <= d2 <= 255,
            0 <= k2 <= 255,
    ;
    let dot = d0 * k0 + d1 * k1 + d2 * k2;
    if dot <= 0 {
        return 0;
    }
    let scaled = dot * RESPONSE_SCALE;
    proof {
        vstd::arithmetic::div_mod::lemma_div_is_ordered_by_denominator(scaled as int, 1, norm as int);
        vstd::arithmetic::div_mod::lemma_div_is_ordered(0, scaled as int, norm as int);
    }
    scaled / norm
}

/// Whether `out` is the analysis of a round: one response and one mix per
/// patch in row-major order, each response the projection of the patch's
/// mean change onto each lamp colour, each mix the Q15 share of the
/// responses, and the score the convexity of the mixes.
pub open spec fn round_matches(
    out: PhotometricRound,
    base: PalmImage,
    flash: PalmImage,
    colours: [[u8; 3]; 4],
    n: int,
) -> bool {
    &&& out.responses@.len() == n * n
    &&& out.mixes@.len() == n * n
    &&& forall|p: int, k: int|
        0 <= p < n * n && 0 <= k < 4 ==> #[trigger] out.responses@[p][k] == response_of(
            base,
            flash,
            colours,
            n,
            p / n,
            p % n,
            k,
        )
    &&& forall|p: int, k: int|
        0 <= p < n * n && 0 <= k < 4 ==> #[trigger] out.mixes@[p][k] == mix_entry(out.responses@[p], k)
    &&& out.convexity_score == convexity_of(out.mixes@)
}

/// Q15 share of each of four responses in their total.
fn mix_of(r: &[i64; 4]) -> (m: [i64; 4])
    requires
        forall|k: int| 0 <= k < 4 ==> 0 <= #[trigger] r[k] <= 195075 * 65536,
    ensures
        forall|k: int| 0 <= k < 4 ==> #[trigger] m[k] == mix_entry(*r, k),
        forall|k: int| 0 <= k < 4 ==> 0 <= #[trigger] m[k] <= 32768,
{
    let total = r[0] + r[1] + r[2] + r[3];
    if total <= 0 {
        return [0i64; 4];
    }
    let mut m: [i64; 4] = [0i64; 4];
    let mut k: usize = 0;
    while k < NUM_QUADRANTS
        invariant
            k <= 4,
            total == r[0] + r[1] + r[2] + r[3],
            total > 0,
            forall|j: int| 0 <= j < 4 ==> 0 <= #[trigger] r[j] <= 195075 * 65536,
            forall|j: int| 0 <= j < k ==> #[trigger] m[j] == mix_entry(*r, j),
            forall|j: int| 0 <= j < k ==> 0 <= #[trigger] m[j] <= 32768,
        decreases 4 - k,
    {
        let rk = r[k];
        proof {
            vstd::arithmetic::mul::lemma_mul_inequality(rk as int, total as int, 32768);
            vstd::arithmetic::div_mod::lemma_div_is_ordered((rk * 32768) as int, (total * 32768) as int, total as int);
            vstd::arithmetic::div_mod::lemma_div_is_ordered(0, (rk * 32768) as int, total as int);
            vstd::arithmetic::div_mod::lemma_div_multiples_vanish(32768, total as int);
            assert(total * 32768 == 32768 * total);
        }
        m[k] = rk * Q15_ONE / total;
        k = k + 1;
    }
    m
}

/// Convexity score of a non-empty list of mixes.
fn convexity(ms: &Vec<[i64; 4]>) -> (s: u16)
    requires
        0 < ms@.len() <= 64,
        forall|p: int, k: int| 0 <= p < ms@.len() && 0 <= k < 4 ==> 0 <= #[trigger] ms@[p][k] <= 32768,
    ensures
        s == convexity_of(ms@),
{
    let len = ms.len();
    let mut sums: [i64; 4] = [0i64; 4];
    let mut j: usize = 0;
    while j < len
        invariant
            len == ms@.len(),
            0 < len <= 64,
            j <= len,
            forall|p: int, k: int| 0 <= p < ms@.len() && 0 <= k < 4 ==> 0 <= #[trigger] ms@[p][k] <= 32768,
            forall|k: int| 0 <= k < 4 ==> #[trigger] sums[k] == column_sum(ms@, k, j as nat),
            forall|k: int| 0 <= k < 4 ==> 0 <= #[trigger] sums[k] <= 32768 * j,
        decreases len - j,
    {
        let m = ms[j];
        let mut k: usize = 0;
        while k < NUM_QUADRANTS
            invariant
                len == ms@.len(),
                j < len <= 64,
                k <= 4,
                m == ms@[j as int],
                forall|p: int, q: int| 0 <= p < ms@.len() && 0 <= q < 4 ==> 0 <= #[trigger] ms@[p][q] <= 32768,
                forall|q: int| 0 <= q < k ==> #[trigger] sums[q] == column_sum(ms@, q, (j + 1) as nat),
                forall|q: int| k <= q < 4 ==> #[trigger] sums[q] == column_sum(ms@, q, j as nat),
                forall|q: int| 0 <= q < k ==> 0 <= #[trigger] sums[q] <= 32768 * (j + 1),
                forall|q: int| k <= q < 4 ==> 0 <= #[trigger] sums[q] <= 32768 * j,
            decreases 4 - k,
        {
            assert(0 <= m[k as int] <= 32768);
            let v = sums[k] + m[k];
            sums[k] = v;
            k = k + 1;
        }
        j = j + 1;
    }
    let n = len as i64;
    let mut mean: [i64; 4] = [0i64; 4];
    let mut k: usize = 0;
    while k < NUM_QUADRANTS
        invariant
            len == ms@.len(),
            0 < len <= 64,
            n == len,
            k <= 4,
            forall|q: int| 0 <= q < 4 ==> #[trigger] sums[q] == column_sum(ms@, q, len as nat),
            forall|q: int| 0 <= q < 4 ==> 0 <= #[trigger] sums[q] <= 32768 * len,
            forall|q: int| 0 <= q < k ==> #[trigger] mean[q] == mean_mix(ms@, q),
            forall|q: int| 0 <= q < k ==> 0 <= #[trigger] mean[q] <= 32768,
        decreases 4 - k,
    {
        let sk = sums[k];
        proof {
            vstd::arithmetic::div_mod::lemma_div_is_ordered(sk as int, 32768 * len, n as int);
            vstd::arithmetic::div_mod::lemma_div_is_ordered(0, sk as int, n as int);
            vstd::arithmetic::div_mod::lemma_div_by_multiple(32768, n as int);
            assert(32768 * len == 32768 * n);
        }
        mean[k] = sk / n;
        k = k + 1;
    }
    let mut dev: i64 = 0;
    let mut j: usize = 0;
    while j < len
        invariant
            len == ms@.len(),
            0 < len <= 64,
            j <= len,
            forall|p: int, q: int| 0 <= p < ms@.len() && 0 <= q < 4 ==> 0 <= #[trigger] ms@[p][q] <= 32768,
            forall|q: int| 0 <= q < 4 ==> #[trigger] mean[q] == mean_mix(ms@, q),
            forall|q: int| 0 <= q < 4 ==> 0 <= #[trigger] mean[q] <= 32768,
            dev == deviation_sum(ms@, j as nat),
            0 <= dev <= 131072 * j,
        decreases len - j,
    {
        let m = ms[j];
        assert(0 <= m[0] <= 32768 && 0 <= m[1] <= 32768 && 0 <= m[2] <= 32768 && 0 <= m[3] <= 32768);
        assert(0 <= mean[0] <= 32768 && 0 <= mean[1] <= 32768 && 0 <= mean[2] <= 32768 && 0 <= mean[3] <= 32768);
        let e0 = if m[0] >= mean[0] { m[0] - mean[0] } else { mean[0] - m[0] };
        let e1 = if m[1] >= mean[1] { m[1] - mean[1] } else { mean[1] - m[1] };
        let e2 = if m[2] >= mean[2] { m[2] - mean[2] } else { mean[2] - m[2] };
        let e3 = if m[3] >= mean[3] { m[3] - mean[3] } else { mean[3] - m[3] };
        dev = dev + e0 + e1 + e2 + e3;
        j = j + 1;
    }
    let d = dev / n;
    if d > 65535 {
        65535
    } else {
        d as u16
    }
}

/// Extracts photometric convexity evidence from one flash round.
/// `quadrant_colours` are the emitted colours for TL, TR, BL, BR. The frame
/// pair and grid are validated before any arithmetic.
pub fn extract(
    baseline: &PalmImage,
    flash: &PalmImage,
    quadrant_colours: &[[u8; 3]; NUM_QUADRANTS],
    grid: PatchGrid,
) -> (r: Result<PhotometricRound>)
    ensures
        r is Ok <==> frames_ok(*baseline, *flash, grid.n as int),
        r matches Ok(out) ==> round_matches(out, *baseline, *flash, *quadrant_colours, grid.n as int),
        r matches Err(e) ==> e is InvalidInput,
{
    let checked = recognise(baseline, flash, grid);
    if let Err(e) = checked {
        return Err(e);
    }
    let n = grid.n;
    let norms: [i64; 4] = [
        colour_norm(&quadrant_colours[0]),
        colour_norm(&quadrant_colours[1]),
        colour_norm(&quadrant_colours[2]),
        colour_norm(&quadrant_colours[3]),
    ];
    let mut responses: Vec<[i64; 4]> = Vec::new();
    let mut mixes: Vec<[i64; 4]> = Vec::new();
    let mut row: usize = 0;
    while row < n
        invariant
            frames_ok(*baseline, *flash, n as int),
            n == grid.n,
            row <= n,
            forall|k: int| 0 <= k < 4 ==> #[trigger] norms[k] == colour_norm_of(quadrant_colours[k]),
            forall|k: int| 0 <= k < 4 ==> 0 <= #[trigger] norms[k] <= 442,
            responses@.len() == row * n,
            mixes@.len() == row * n,
            forall|p: int, k: int|
                0 <= p < row * n && 0 <= k < 4 ==> #[trigger] responses@[p][k] == response_of(
                    *baseline,
                    *flash,
                    *quadrant_colours,
                    n as int,
                    p / (n as int),
                    p % (n as int),
                    k,
                ),
            forall|p: int, k: int|
                0 <= p < row * n && 0 <= k < 4 ==> #[trigger] mixes@[p][k] == mix_entry(responses@[p], k),
            forall|p: int, k: int| 0 <= p < row * n && 0 <= k < 4 ==> 0 <= #[trigger] mixes@[p][k] <= 32768,
        decreases n - row,
    {
        let mut col: usize = 0;
        while col < n
            invariant
                frames_ok(*baseline, *flash, n as int),
                n == grid.n,
                row < n,
                col <= n,
                forall|k: int| 0 <= k < 4 ==> #[trigger] norms[k] == colour_norm_of(quadrant_colours[k]),
                forall|k: int| 0 <= k < 4 ==> 0 <= #[trigger] norms[k] <= 442,
                responses@.len() == row * n + col,
                mixes@.len() == row * n + col,
                forall|p: int, k: int|
                    0 <= p < row * n + col && 0 <= k < 4 ==> #[trigger] responses@[p][k] == response_of(
                        *baseline,
                        *flash,
                        *quadrant_colours,
                        n as int,
                        p / (n as int),
                        p % (n as int),
                        k,
                    ),
                forall|p: int, k: int|
                    0 <= p < row * n + col && 0 <= k < 4 ==> #[trigger] mixes@[p][k] == mix_entry(
                        responses@[p],
                        k,
                    ),
                forall|p: int, k: int|
                    0 <= p < row * n + col && 0 <= k < 4 ==> 0 <= #[trigger] mixes@[p][k] <= 32768,
            decreases n - col,
        {
            let delta = mean_delta(baseline, flash, grid, row, col);
            let r: [i64; 4] = [
                project(&delta, &quadrant_colours[0], norms[0]),
                project(&delta, &quadrant_colours[1], norms[1]),
                project(&delta, &quadrant_colours[2], norms[2]),
                project(&delta, &quadrant_colours[3], norms[3]),
            ];
            let mix = mix_of(&r);
            proof {
                let p = row * n + col;
                vstd::arithmetic::div_mod::lemma_div_multiples_vanish_fancy(row as int, col as int, n as int);
                vstd::arithmetic::div_mod::lemma_mod_multiples_vanish(row as int, col as int, n as int);
                vstd::arithmetic::div_mod::lemma_small_mod(col as nat, n as nat);
                assert(p / (n as int) == row && p % (n as int) == col) by {
                    assert(p == n * row + col) by (nonlinear_arith)
                        requires
                            p == row * n + col,
                    ;
                }
            }
            responses.push(r);
            mixes.push(mix);
            col = col + 1;
        }
        assert(row * n + n == (row + 1) * n) by (nonlinear_arith);
        row = row + 1;
    }
    proof {
        assert(n * n <= 64) by (nonlinear_arith)
            requires
                2 <= n <= 8,
        ;
        assert(n * n > 0) by (nonlinear_arith)
            requires
                2 <= n,
        ;
    }
    let convexity_score = convexity(&mixes);
    Ok(PhotometricRound { responses, mixes, convexity_score })
}

/// The components of a mix sum to Q15 unity less a rounding loss of under
/// one per lamp when the patch responded, and to zero when it did not.
pub proof fn lemma_mix_sums_to_unity(r: [i64; 4])
    requires
        forall|k: int| 0 <= k < 4 ==> 0 <= #[trigger] r[k],
    ensures
        ({
            let total = r[0] as int + r[1] as int + r[2] as int + r[3] as int;
            let s = mix_entry(r, 0) + mix_entry(r, 1) + mix_entry(r, 2) + mix_entry(r, 3);
            &&& total == 0 ==> s == 0
            &&& total > 0 ==> 32768 - 4 < s <= 32768
        }),
{
    let total = r[0] as int + r[1] as int + r[2] as int + r[3] as int;
    assert(r[0] >= 0 && r[1] >= 0 && r[2] >= 0 && r[3] >= 0);
    if total > 0 {
        let a0 = r[0] as int * 32768;
        let a1 = r[1] as int * 32768;
        let a2 = r[2] as int * 32768;
        let a3 = r[3] as int * 32768;
        vstd::arithmetic::div_mod::lemma_fundamental_div_mod(a0, total);
        vstd::arithmetic::div_mod::lemma_fundamental_div_mod(a1, total);
        vstd::arithmetic::div_mod::lemma_fundamental_div_mod(a2, total);
        vstd::arithmetic::div_mod::lemma_fundamental_div_mod(a3, total);
        let q = a0 / total + a1 / total + a2 / total + a3 / total;
        let m = a0 % total + a1 % total + a2 % total + a3 % total;
        assert(0 <= m < 4 * total);
        assert(total * q + m == 32768 * total) by (nonlinear_arith)
            requires
                a0 == total * (a0 / total) + a0 % total,
                a1 == total * (a1 / total) + a1 % total,
                a2 == total * (a2 / total) + a2 % total,
                a3 == total * (a3 / total) + a3 % total,
                q == a0 / total + a1 / total + a2 / total + a3 / total,
                m == a0 % total + a1 % total + a2 % total + a3 % total,
                a0 + a1 + a2 + a3 == 32768 * total,
        ;
        assert(32768 - 4 < q <= 32768) by (nonlinear_arith)
            requires
                total > 0,
                0 <= m < 4 * total,
                total * q + m == 32768 * total,
        ;
    }
}

/// Sums of a component over identical mixes.
proof fn lemma_column_sum_uniform(ms: Seq<[i64; 4]>, k: int, j: nat)
    requires
        j <= ms.len(),
        forall|p: int| 0 <= p < ms.len() ==> #[trigger] ms[p] == ms[0],
    ensures
        column_sum(ms, k, j) == j * ms[0][k],
    decreases j,
{
    if j > 0 {
        lemma_column_sum_uniform(ms, k, (j - 1) as nat);
        assert(ms[j - 1] == ms[0]);
        assert(j * ms[0][k] == (j - 1) * ms[0][k] + ms[0][k]) by (nonlinear_arith);
    } else {
        assert(j * ms[0][k] == 0) by (nonlinear_arith)
            requires
                j == 0,
        ;
    }
}

/// Deviation sums over identical mixes vanish.
proof fn lemma_deviation_sum_uniform(ms: Seq<[i64; 4]>, j: nat)
    requires
        0 < ms.len(),
        j <= ms.len(),
        forall|p: int| 0 <= p < ms.len() ==> #[trigger] ms[p] == ms[0],
        forall|k: int| 0 <= k < 4 ==> #[trigger] mean_mix(ms, k) == ms[0][k],
    ensures
        deviation_sum(ms, j) == 0,
    decreases j,
{
    if j > 0 {
        lemma_deviation_sum_uniform(ms, (j - 1) as nat);
        assert(ms[j - 1] == ms[0]);
        assert(mean_mix(ms, 0) == ms[0][0]);
        assert(mean_mix(ms, 1) == ms[0][1]);
        assert(mean_mix(ms, 2) == ms[0][2]);
        assert(mean_mix(ms, 3) == ms[0][3]);
    }
}

/// When every patch has the same mix (a spatially uniform illumination, the
/// flat-surface limit), the convexity score is zero.
pub proof fn lemma_uniform_mixes_have_no_convexity(ms: Seq<[i64; 4]>)
    requires
        0 < ms.len(),
        forall|p: int| 0 <= p < ms.len() ==> #[trigger] ms[p] == ms[0],
    ensures
        convexity_of(ms) == 0,
{
    let len = ms.len();
    assert forall|k: int| 0 <= k < 4 implies #[trigger] mean_mix(ms, k) == ms[0][k] by {
        lemma_column_sum_uniform(ms, k, len);
        vstd::arithmetic::div_mod::lemma_div_multiples_vanish(ms[0][k] as int, len as int);
        assert(len * ms[0][k] == (len as int) * (ms[0][k] as int));
    }
    lemma_deviation_sum_uniform(ms, len);
}

/// Row sums of a buffer against itself are zero.
proof fn lemma_row_sum_self(s: Seq<u8>, w: int, y: int, x0: int, x: int, c: int)
    ensures
        row_sum(s, s, w, y, x0, x, c) == 0,
    decreases x - x0,
{
    if x > x0 {
        lemma_row_sum_self(s, w, y, x0, x - 1, c);
    }
}

/// Rectangle sums of a buffer against itself are zero.
proof fn lemma_rect_sum_self(s: Seq<u8>, w: int, x0: int, x1: int, y0: int, y: int, c: int)
    ensures
        rect_sum(s, s, w, x0, x1, y0, y, c) == 0,
    decreases y - y0,
{
    if y > y0 {
        lemma_rect_sum_self(s, w, x0, x1, y0, y - 1, c);
        lemma_row_sum_self(s, w, y - 1, x0, x1, c);
    }
}

/// A flash frame identical to the baseline yields all-zero mixes (not a
/// division fault) and a zero convexity score.
pub proof fn lemma_unchanged_frames_have_no_convexity(
    out: PhotometricRound,
    base: PalmImage,
    flash: PalmImage,
    colours: [[u8; 3]; 4],
    n: int,
)
    requires
        frames_ok(base, flash, n),
        flash.data@ == base.data@,
        round_matches(out, base, flash, colours, n),
    ensures
        forall|p: int, k: int| 0 <= p < n * n && 0 <= k < 4 ==> #[trigger] out.mixes@[p][k] == 0,
        out.convexity_score == 0,
{
    let w = base.width as int;
    let h = base.height as int;
    assert forall|p: int, k: int| 0 <= p < n * n && 0 <= k < 4 implies #[trigger] out.responses@[p][k]
        == 0 by {
        let row = p / n;
        let col = p % n;
        assert forall|c: int| 0 <= c < 3 implies patch_delta(base, flash, n, row, col, c) == 0 by {
            lemma_rect_sum_self(
                base.data@,
                w,
                span_lo(col, w, n),
                span_hi(col, w, n),
                span_lo(row, h, n),
                span_hi(row, h, n),
                c,
            );
            let cnt = (span_hi(col, w, n) - span_lo(col, w, n)) * (span_hi(row, h, n) - span_lo(row, h, n));
            assert(cnt > 0) by (nonlinear_arith)
                requires
                    span_hi(col, w, n) > span_lo(col, w, n),
                    span_hi(row, h, n) > span_lo(row, h, n),
                    cnt == (span_hi(col, w, n) - span_lo(col, w, n)) * (span_hi(row, h, n) - span_lo(
                        row,
                        h,
                        n,
                    )),
            ;
            vstd::arithmetic::div_mod::lemma_div_multiples_vanish(0, cnt);
        }
        assert(out.responses@[p][k] == response_of(base, flash, colours, n, row, col, k));
    }
    assert forall|p: int, k: int| 0 <= p < n * n && 0 <= k < 4 implies #[trigger] out.mixes@[p][k] == 0 by {
        assert(out.responses@[p][0] == 0);
        assert(out.responses@[p][1] == 0);
        assert(out.responses@[p][2] == 0);
        assert(out.responses@[p][3] == 0);
        assert(out.mixes@[p][k] == mix_entry(out.responses@[p], k));
    }
    let ms = out.mixes@;
    assert(n * n > 0) by (nonlinear_arith)
        requires
            2 <= n,
    ;
    assert forall|p: int| 0 <= p < ms.len() implies #[trigger] ms[p] == ms[0] by {
        assert(ms[p][0] == 0 && ms[p][1] == 0 && ms[p][2] == 0 && ms[p][3] == 0);
        assert(ms[0][0] == 0 && ms[0][1] == 0 && ms[0][2] == 0 && ms[0][3] == 0);
        assert(ms[p] =~= ms[0]);
    }
    lemma_uniform_mixes_have_no_convexity(ms);
}

} // verus!
