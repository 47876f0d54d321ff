//! Integer steps of palm-image preprocessing: the 3 x 3 median filter and
//! the copy of an image's border pixels into a filtered buffer.
//!
//! Buffers are row-major with interleaved channels; a filter changes the
//! interior pixels (those with a full 3 x 3 neighbourhood) and keeps the
//! border ones.

use vstd::prelude::*;
use crate::biometric::image::{positions_fit, PalmImage};
use crate::error::{crypto_error, Result, SableError};

verus! {

/// Number of the first `n` values of `s` that lie below `v`.
pub open spec fn count_below(s: Seq<u8>, v: int, n: int) -> int
    decreases n,
{
    if n <= 0 {
        0
    } else {
        count_below(s, v, n - 1) + if (s[n - 1] as int) < v { 1int } else { 0int }
    }
}

/// Whether `v` is the median of nine values: at most four of them lie
/// below `v` and at least five at or below it (the fifth smallest).
pub open spec fn is_median9(s: Seq<u8>, v: u8) -> bool {
    count_below(s, v as int, 9) <= 4 && count_below(s, v as int + 1, 9) >= 5
}

/// The median of nine values.
pub open spec fn median9_of(s: Seq<u8>) -> u8 {
    choose|v: u8| is_median9(s, v)
}

/// Counting below a larger bound counts at least as many values.
proof fn lemma_count_below_monotone(s: Seq<u8>, a: int, b: int, n: int)
    requires
        a <= b,
    ensures
        count_below(s, a, n) <= count_below(s, b, n),
    decreases n,
{
    if n > 0 {
        lemma_count_below_monotone(s, a, b, n - 1);
    }
}

/// No byte lies below 0, and every byte lies below 256.
proof fn lemma_count_below_extremes(s: Seq<u8>, n: int)
    requires
        0 <= n,
    ensures
        count_below(s, 0, n) == 0,
        count_below(s, 256, n) == n,
    decreases n,
{
    if n > 0 {
        lemma_count_below_extremes(s, n - 1);
    }
}

/// If more values lie below `v + 1` than below `v`, one of them is `v`.
proof fn lemma_count_step_has_value(s: Seq<u8>, v: int, n: int)
    requires
        0 <= n <= s.len(),
        count_below(s, v + 1, n) > count_below(s, v, n),
    ensures
        exists|k: int| 0 <= k < n && s[k] as int == v,
    decreases n,
{
    if n > 0 {
        if s[n - 1] as int == v {
            assert(s[n - 1] as int == v);
        } else {
            lemma_count_step_has_value(s, v, n - 1);
            let k = choose|k: int| 0 <= k < n - 1 && s[k] as int == v;
            assert(0 <= k < n && s[k] as int == v);
        }
    }
}

/// Scanning candidate values upward from one with at most four values
/// below it reaches one of the nine values that is their median.
proof fn lemma_median_scan(s: Seq<u8>, v: int)
    requires
        s.len() == 9,
        0 <= v <= 255,
        count_below(s, v, 9) <= 4,
    ensures
        exists|q: int| 0 <= q < 9 && #[trigger] is_median9(s, s[q]),
    decreases 256 - v,
{
    if count_below(s, v + 1, 9) >= 5 {
        lemma_count_step_has_value(s, v, 9);
        let k = choose|k: int| 0 <= k < 9 && s[k] as int == v;
        assert(is_median9(s, s[k]));
    } else if v == 255 {
        lemma_count_below_extremes(s, 9);
    } else {
        lemma_median_scan(s, v + 1);
    }
}

/// Nine values have a median among them.
proof fn lemma_median_exists(s: Seq<u8>)
    requires
        s.len() == 9,
    ensures
        exists|q: int| 0 <= q < 9 && #[trigger] is_median9(s, s[q]),
{
    lemma_count_below_extremes(s, 9);
    lemma_median_scan(s, 0);
}

/// Nine values have at most one median.
pub proof fn lemma_median_unique(s: Seq<u8>, a: u8, b: u8)
    requires
        is_median9(s, a),
        is_median9(s, b),
    ensures
        a == b,
{
    if a < b {
        lemma_count_below_monotone(s, a as int + 1, b as int, 9);
    } else if b < a {
        lemma_count_below_monotone(s, b as int + 1, a as int, 9);
    }
}

/// Number of the nine values below `v`.
fn count_below_exec(vals: &[u8; 9], v: u16) -> (n: u32)
    ensures
        n == count_below(vals@, v as int, 9),
{
    let mut n: u32 = 0;
    let mut j: usize = 0;
    while j < 9
        invariant
            j <= 9,
            n == count_below(vals@, v as int, j as int),
            n <= j,
        decreases 9 - j,
    {
        if (vals[j] as u16) < v {
            n = n + 1;
        }
        j = j + 1;
    }
    n
}

/// The median (fifth smallest) of nine values.
pub fn median9(vals: [u8; 9]) -> (m: u8)
    ensures
        m == median9_of(vals@),
        is_median9(vals@, m),
{
    proof {
        lemma_median_exists(vals@);
    }
    let mut k: usize = 0;
    while k < 9
        invariant
            k <= 9,
            vals@.len() == 9,
            forall|q: int| 0 <= q < k ==> !#[trigger] is_median9(vals@, vals@[q]),
            exists|q: int| 0 <= q < 9 && #[trigger] is_median9(vals@, vals@[q]),
        decreases 9 - k,
    {
        let v = vals[k];
        let below = count_below_exec(&vals, v as u16);
        let at_or_below = count_below_exec(&vals, v as u16 + 1);
        if below <= 4 && at_or_below >= 5 {
            proof {
                assert(is_median9(vals@, v));
                let w = median9_of(vals@);
                assert(is_median9(vals@, w));
                lemma_median_unique(vals@, v, w);
            }
            return v;
        }
        assert(!is_median9(vals@, vals@[k as int]));
        k = k + 1;
    }
    proof {
        let q = choose|q: int| 0 <= q < 9 && #[trigger] is_median9(vals@, vals@[q]);
        assert(!is_median9(vals@, vals@[q]));
    }
    vals[4]
}

/// Whether every pixel of the declared dimensions is in the buffer (or
/// there are no channels to read).
pub open spec fn pixels_present(img: PalmImage) -> bool {
    img.channels == 0 || img.width * img.height * img.channels <= img.data@.len()
}

/// Whether buffer position `i` of a `w x h` image with `ch` channels
/// belongs to a border pixel: one without a full 3 x 3 neighbourhood.
pub open spec fn on_border(w: int, h: int, ch: int, i: int) -> bool {
    let p = i / ch;
    let x = p % w;
    let y = p / w;
    !(1 <= x < w - 1 && 1 <= y < h - 1)
}

/// `dest` with the border bytes of a `w x h` image with `ch` channels
/// taken from `src`.
pub open spec fn borders_copied(src: Seq<u8>, dest: Seq<u8>, w: int, h: int, ch: int) -> Seq<u8> {
    Seq::new(
        dest.len(),
        |i: int|
            if i < w * h * ch && on_border(w, h, ch, i) {
                src[i]
            } else {
                dest[i]
            },
    )
}

/// Channel `c` of pixel `(x, y)` of a buffer of width `w` with `ch`
/// channels.
pub open spec fn sample(d: Seq<u8>, w: int, ch: int, x: int, y: int, c: int) -> u8 {
    d[(y * w + x) * ch + c]
}

/// Channel `c` of the 3 x 3 neighbourhood of `(x, y)`, row by row.
pub open spec fn window9(d: Seq<u8>, w: int, ch: int, x: int, y: int, c: int) -> Seq<u8> {
    seq![
        sample(d, w, ch, x - 1, y - 1, c),
        sample(d, w, ch, x, y - 1, c),
        sample(d, w, ch, x + 1, y - 1, c),
        sample(d, w, ch, x - 1, y, c),
        sample(d, w, ch, x, y, c),
        sample(d, w, ch, x + 1, y, c),
        sample(d, w, ch, x - 1, y + 1, c),
        sample(d, w, ch, x, y + 1, c),
        sample(d, w, ch, x + 1, y + 1, c),
    ]
}

/// Byte `i` of the median-filtered buffer: the median of its channel's
/// 3 x 3 neighbourhood for an interior pixel, the byte itself for a border
/// pixel, and 0 past the declared dimensions.
pub open spec fn median_filtered_byte(d: Seq<u8>, w: int, h: int, ch: int, i: int) -> u8 {
    if i < w * h * ch {
        let c = i % ch;
        let p = i / ch;
        let x = p % w;
        let y = p / w;
        if 1 <= x < w - 1 && 1 <= y < h - 1 {
            median9_of(window9(d, w, ch, x, y, c))
        } else {
            d[i]
        }
    } else {
        0
    }
}

/// The median-filtered buffer, as long as the input buffer.
pub open spec fn median_filtered(d: Seq<u8>, w: int, h: int, ch: int) -> Seq<u8> {
    Seq::new(d.len(), |i: int| median_filtered_byte(d, w, h, ch, i))
}

/// A position inside the declared dimensions lies before their product,
/// and so do its partial sums.
proof fn lemma_sample_index(w: int, h: int, ch: int, x: int, y: int, c: int)
    requires
        0 <= x < w,
        0 <= y < h,
        0 <= c < ch,
    ensures
        0 <= y * w <= y * w + x <= (y * w + x) * ch <= (y * w + x) * ch + c < w * h * ch,
{
    assert(0 <= y * w) by (nonlinear_arith)
        requires
            0 <= y,
            0 <= w,
    ;
    assert(y * w + x <= w * h - 1) by (nonlinear_arith)
        requires
            0 <= x < w,
            0 <= y < h,
    ;
    assert(y * w + x <= (y * w + x) * ch) by (nonlinear_arith)
        requires
            0 <= y * w + x,
            1 <= ch,
    ;
    assert((y * w + x) * ch + c < w * h * ch) by (nonlinear_arith)
        requires
            y * w + x <= w * h - 1,
            0 <= c < ch,
    ;
}

/// A buffer position inside the declared dimensions splits into channel,
/// column and row.
proof fn lemma_flat_position(i: int, w: int, h: int, ch: int)
    requires
        w > 0,
        ch > 0,
        0 <= i < w * h * ch,
    ensures
        0 <= i % ch < ch,
        0 <= i / ch < w * h,
        0 <= (i / ch) % w < w,
        0 <= (i / ch) / w < h,
        i == (((i / ch) / w) * w + (i / ch) % w) * ch + i % ch,
{
    vstd::arithmetic::div_mod::lemma_fundamental_div_mod(i, ch);
    let p = i / ch;
    let r = i % ch;
    assert(0 <= p && p < w * h) by (nonlinear_arith)
        requires
            i == ch * p + r,
            0 <= r < ch,
            0 <= i < w * h * ch,
            ch > 0,
    ;
    vstd::arithmetic::div_mod::lemma_fundamental_div_mod(p, w);
    let y = p / w;
    let x = p % w;
    assert(0 <= y && y < h) by (nonlinear_arith)
        requires
            p == w * y + x,
            0 <= x < w,
            0 <= p < w * h,
            w > 0,
    ;
    assert(i == (y * w + x) * ch + r) by (nonlinear_arith)
        requires
            i == ch * p + r,
            p == w * y + x,
    ;
}

/// The declared size of an image, as a machine number.
fn declared_size(image: &PalmImage) -> (n: usize)
    requires
        positions_fit(*image),
    ensures
        n == image.width * image.height * image.channels,
        n > 0 ==> image.width > 0 && image.height > 0 && image.channels > 0,
{
    assert(image.width as u64 * image.height as u64 <= 0xffff_ffff * 0xffff_ffffu64) by (nonlinear_arith)
        requires
            image.width <= 0xffff_ffff,
            image.height <= 0xffff_ffff,
    ;
    assert(image.width * image.height * image.channels > 0 ==> image.width > 0 && image.height > 0
        && image.channels > 0) by (nonlinear_arith);
    let wh = image.width as u64 * image.height as u64;
    let n = wh * image.channels as u64;
    n as usize
}

/// Channel `c` of pixel `(x, y)`.
fn sample_exec(data: &Vec<u8>, w: usize, h: usize, ch: usize, x: usize, y: usize, c: usize) -> (v: u8)
    requires
        x < w,
        y < h,
        c < ch,
        w * h * ch <= data@.len(),
        w * h * ch <= u32::MAX,
    ensures
        v == sample(data@, w as int, ch as int, x as int, y as int, c as int),
{
    proof {
        lemma_sample_index(w as int, h as int, ch as int, x as int, y as int, c as int);
    }
    data[(y * w + x) * ch + c]
}

/// Copies the border pixels of `source` (those without a full 3 x 3
/// neighbourhood) into `dest` at the same positions. Fails, leaving `dest`
/// as it was, when the source buffer lacks a pixel of its dimensions.
pub fn copy_image_borders(source: &PalmImage, dest: &mut Vec<u8>) -> (r: Result<()>)
    requires
        positions_fit(*source),
        source.height >= 1,
        source.height >= 3 ==> source.width >= 1,
        old(dest)@.len() >= source.data@.len() || old(dest)@.len() >= source.width * source.height
            * source.channels,
    ensures
        r is Ok <==> pixels_present(*source),
        r is Ok ==> final(dest)@ == borders_copied(
            source.data@,
            old(dest)@,
            source.width as int,
            source.height as int,
            source.channels as int,
        ),
        r is Err ==> final(dest)@ == old(dest)@,
        r matches Err(e) ==> e matches SableError::CryptoError(m) && m@ == "Pixel data out of bounds"@,
{
    let n = declared_size(source);
    let w = source.width as usize;
    let h = source.height as usize;
    let ch = source.channels as usize;
    if ch > 0 && n > source.data.len() {
        return Err(crypto_error("Pixel data out of bounds"));
    }
    assert(ch == 0 ==> w * h * ch == 0) by (nonlinear_arith);
    let ghost d0 = dest@;
    let mut i: usize = 0;
    while i < n
        invariant
            n == w * h * ch,
            n > 0 ==> w > 0 && h > 0 && ch > 0,
            n <= source.data@.len(),
            n <= dest@.len(),
            dest@.len() == d0.len(),
            i <= n,
            forall|k: int|
                0 <= k < dest@.len() ==> #[trigger] dest@[k] == (if k < i && on_border(
                    w as int,
                    h as int,
                    ch as int,
                    k,
                ) {
                    source.data@[k]
                } else {
                    d0[k]
                }),
        decreases n - i,
    {
        let p = i / ch;
        let x = p % w;
        let y = p / w;
        if !(x >= 1 && x + 1 < w && y >= 1 && y + 1 < h) {
            dest.set(i, source.data[i]);
        }
        i = i + 1;
    }
    proof {
        assert(dest@ =~= borders_copied(source.data@, d0, w as int, h as int, ch as int));
    }
    Ok(())
}

/// 3 x 3 median filter: each channel of each interior pixel becomes the
/// median of that channel over its neighbourhood; border pixels are kept
/// and bytes past the declared dimensions become 0. Fails when the buffer
/// lacks a pixel of the declared dimensions.
pub fn apply_median_filter(image: PalmImage) -> (r: Result<PalmImage>)
    requires
        positions_fit(image),
        image.height >= 1,
        image.height >= 3 ==> image.width >= 1,
    ensures
        r is Ok <==> pixels_present(image),
        r matches Ok(o) ==> o.width == image.width && o.height == image.height && o.channels
            == image.channels && o.data@ == median_filtered(
            image.data@,
            image.width as int,
            image.height as int,
            image.channels as int,
        ) && o.preprocessing_steps@.len() == 0,
        r matches Err(e) ==> e matches SableError::CryptoError(m) && m@ == "Pixel data out of bounds"@,
{
    let n = declared_size(&image);
    let w = image.width as usize;
    let h = image.height as usize;
    let ch = image.channels as usize;
    let len = image.data.len();
    if ch > 0 && n > len {
        return Err(crypto_error("Pixel data out of bounds"));
    }
    assert(ch == 0 ==> w * h * ch == 0) by (nonlinear_arith);
    let ghost d = image.data@;
    let mut out: Vec<u8> = Vec::new();
    let mut i: usize = 0;
    while i < len
        invariant
            n == w * h * ch,
            n <= u32::MAX,
            n > 0 ==> w > 0 && h > 0 && ch > 0,
            n <= len,
            len == image.data@.len(),
            d == image.data@,
            w == image.width,
            h == image.height,
            ch == image.channels,
            i <= len,
            out@.len() == i,
            forall|k: int|
                0 <= k < i ==> #[trigger] out@[k] == median_filtered_byte(
                    d,
                    w as int,
                    h as int,
                    ch as int,
                    k,
                ),
        decreases len - i,
    {
        let v = if i < n {
            proof {
                lemma_flat_position(i as int, w as int, h as int, ch as int);
            }
            let c = i % ch;
            let p = i / ch;
            let x = p % w;
            let y = p / w;
            if x >= 1 && x + 1 < w && y >= 1 && y + 1 < h {
                let vals: [u8; 9] = [
                    sample_exec(&image.data, w, h, ch, x - 1, y - 1, c),
                    sample_exec(&image.data, w, h, ch, x, y - 1, c),
                    sample_exec(&image.data, w, h, ch, x + 1, y - 1, c),
                    sample_exec(&image.data, w, h, ch, x - 1, y, c),
                    sample_exec(&image.data, w, h, ch, x, y, c),
                    sample_exec(&image.data, w, h, ch, x + 1, y, c),
                    sample_exec(&image.data, w, h, ch, x - 1, y + 1, c),
                    sample_exec(&image.data, w, h, ch, x, y + 1, c),
                    sample_exec(&image.data, w, h, ch, x + 1, y + 1, c),
                ];
                proof {
                    assert(vals@ =~= window9(d, w as int, ch as int, x as int, y as int, c as int));
                }
                median9(vals)
            } else {
                image.data[i]
            }
        } else {
            0
        };
        out.push(v);
        i = i + 1;
    }
    proof {
        assert(out@ =~= median_filtered(d, w as int, h as int, ch as int));
    }
    Ok(PalmImage::new(image.width, image.height, image.channels, out))
}

} // verus!
