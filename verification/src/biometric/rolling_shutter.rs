//! Rolling-shutter temporal challenge: the nonce-to-waveform mapping and the
//! fixed-size evidence grammar. Capture and row-band decoding stay with the
//! platform, which knows its exposure and readout calibration.

use vstd::prelude::*;
use crate::attestation::x509::utf8;
use crate::codec::push_bytes;
use crate::error::{invalid_input, Result, SableError};
use crate::platform::{hkdf_sha256, spec_hkdf_sha256};
use vstd::string::StringExecFns;

verus! {

/// Number of symbols in one challenge waveform.
pub const TEMPORAL_SYMBOLS: usize = 12;

/// Number of frames in one temporal burst.
pub const TEMPORAL_FRAMES: usize = 3;

/// Number of row-band observations assigned to each frame.
pub const SYMBOLS_PER_FRAME: usize = TEMPORAL_SYMBOLS / TEMPORAL_FRAMES;

/// Number of inter-frame timing deltas.
pub const FRAME_DELTAS: usize = TEMPORAL_FRAMES - 1;

/// Length of the key-derivation output scanned for a waveform.
const HKDF_OUTPUT_LEN: usize = 4080;

/// Four display symbols, numbered 0 to 3 in declaration order.
#[derive(Debug, Clone, Copy, PartialEq, Eq, Structural)]
pub enum TemporalSymbol {
    /// Red display symbol (0).
    Red,
    /// Green display symbol (1).
    Green,
    /// Blue display symbol (2).
    Blue,
    /// White display symbol (3).
    White,
}

/// The number of a symbol.
pub open spec fn symbol_number(s: TemporalSymbol) -> u8 {
    match s {
        TemporalSymbol::Red => 0,
        TemporalSymbol::Green => 1,
        TemporalSymbol::Blue => 2,
        TemporalSymbol::White => 3,
    }
}

impl TemporalSymbol {
    /// The symbol numbered `value`; numbers above 3 are refused.
    pub fn try_from_u8(value: u8) -> (r: Result<Self>)
        ensures
            r is Ok <==> value <= 3,
            r matches Ok(s) ==> symbol_number(s) == value,
            r matches Err(e) ==> e is InvalidInput,
    {
        match value {
            0 => Ok(TemporalSymbol::Red),
            1 => Ok(TemporalSymbol::Green),
            2 => Ok(TemporalSymbol::Blue),
            3 => Ok(TemporalSymbol::White),
            _ => {
                let mut msg = String::from_str("temporal symbol ");
                msg.append(value.to_string().as_str());
                msg.append(" is outside 0..=3");
                Err(SableError::InvalidInput(msg))
            },
        }
    }

    /// The number of this symbol.
    pub fn to_u8(self) -> (v: u8)
        ensures
            v == symbol_number(self),
    {
        match self {
            TemporalSymbol::Red => 0,
            TemporalSymbol::Green => 1,
            TemporalSymbol::Blue => 2,
            TemporalSymbol::White => 3,
        }
    }

    /// RGB value used by display integrations.
    pub fn rgb(self) -> (c: [u8; 3])
        ensures
            c@ == match self {
                TemporalSymbol::Red => seq![204u8, 0u8, 0u8],
                TemporalSymbol::Green => seq![0u8, 255u8, 0u8],
                TemporalSymbol::Blue => seq![0u8, 0u8, 255u8],
                TemporalSymbol::White => seq![255u8, 255u8, 255u8],
            },
    {
        let c: [u8; 3] = match self {
            TemporalSymbol::Red => [204, 0, 0],
            TemporalSymbol::Green => [0, 255, 0],
            TemporalSymbol::Blue => [0, 0, 255],
            TemporalSymbol::White => [255, 255, 255],
        };
        assert(c@ =~= match self {
            TemporalSymbol::Red => seq![204u8, 0u8, 0u8],
            TemporalSymbol::Green => seq![0u8, 255u8, 0u8],
            TemporalSymbol::Blue => seq![0u8, 0u8, 255u8],
            TemporalSymbol::White => seq![255u8, 255u8, 255u8],
        });
        c
    }
}

/// The four symbols of the cyclic window starting at `a`.
pub open spec fn window(s: Seq<u8>, a: int) -> (u8, u8, u8, u8) {
    (s[a % 12], s[(a + 1) % 12], s[(a + 2) % 12], s[(a + 3) % 12])
}

/// Whether symbol `i` differs from its cyclic successor.
pub open spec fn differs_from_next(s: Seq<u8>, i: int) -> bool {
    s[i] != s[(i + 1) % 12]
}

/// Whether symbol `i` equals the symbol `shift` places after it, cyclically.
pub open spec fn agrees_with_rotation_at(s: Seq<u8>, i: int, shift: int) -> bool {
    s[i] == s[(i + shift) % 12]
}

/// Whether the waveform differs somewhere from its rotation by `shift`.
pub open spec fn differs_from_rotation(s: Seq<u8>, shift: int) -> bool {
    exists|i: int| 0 <= i < 12 && !#[trigger] agrees_with_rotation_at(s, i, shift)
}

/// The public waveform grammar: twelve symbols, each in `0..=3`, no symbol
/// equal to its cyclic successor, no non-trivial rotation equal to the
/// waveform itself, and all twelve cyclic windows of four symbols distinct.
pub open spec fn valid_waveform(s: Seq<u8>) -> bool {
    &&& s.len() == 12
    &&& forall|i: int| 0 <= i < 12 ==> #[trigger] s[i] <= 3
    &&& forall|i: int| 0 <= i < 12 ==> #[trigger] differs_from_next(s, i)
    &&& forall|shift: int| 1 <= shift < 12 ==> #[trigger] differs_from_rotation(s, shift)
    &&& forall|a: int, b: int| 0 <= a < b < 12 ==> #[trigger] window(s, a) != #[trigger] window(s, b)
}

/// Number packing the cyclic window at `a` two bits per symbol, first
/// symbol lowest.
pub open spec fn window_code(s: Seq<u8>, a: int) -> int {
    s[a % 12] as int + 4 * s[(a + 1) % 12] as int + 16 * s[(a + 2) % 12] as int + 64 * s[(a + 3)
        % 12] as int
}

/// Windows of symbols in `0..=3` have equal codes only if they are equal.
proof fn lemma_window_code_injective(s: Seq<u8>, a: int, b: int)
    requires
        s.len() == 12,
        forall|i: int| 0 <= i < 12 ==> #[trigger] s[i] <= 3,
        0 <= a < 12,
        0 <= b < 12,
        window_code(s, a) == window_code(s, b),
    ensures
        window(s, a) == window(s, b),
{
    let a0 = s[a % 12];
    let a1 = s[(a + 1) % 12];
    let a2 = s[(a + 2) % 12];
    let a3 = s[(a + 3) % 12];
    let b0 = s[b % 12];
    let b1 = s[(b + 1) % 12];
    let b2 = s[(b + 2) % 12];
    let b3 = s[(b + 3) % 12];
    assert(a0 <= 3 && a1 <= 3 && a2 <= 3 && a3 <= 3);
    assert(b0 <= 3 && b1 <= 3 && b2 <= 3 && b3 <= 3);
    assert(a0 == b0 && a1 == b1 && a2 == b2 && a3 == b3) by (nonlinear_arith)
        requires
            a0 <= 3,
            a1 <= 3,
            a2 <= 3,
            a3 <= 3,
            b0 <= 3,
            b1 <= 3,
            b2 <= 3,
            b3 <= 3,
            a0 as int + 4 * a1 as int + 16 * a2 as int + 64 * a3 as int == b0 as int + 4 * b1 as int
                + 16 * b2 as int + 64 * b3 as int,
    ;
}

/// Checks the public waveform grammar.
pub fn valid_temporal_sequence(symbols: &[u8; TEMPORAL_SYMBOLS]) -> (b: bool)
    ensures
        b == valid_waveform(symbols@),
{
    let ghost s = symbols@;
    let mut i: usize = 0;
    while i < TEMPORAL_SYMBOLS
        invariant
            s == symbols@,
            s.len() == 12,
            i <= 12,
            forall|j: int| 0 <= j < i ==> #[trigger] s[j] <= 3,
        decreases 12 - i,
    {
        if symbols[i] > 3 {
            return false;
        }
        i = i + 1;
    }
    let mut i: usize = 0;
    while i < TEMPORAL_SYMBOLS
        invariant
            s == symbols@,
            s.len() == 12,
            i <= 12,
            forall|j: int| 0 <= j < 12 ==> #[trigger] s[j] <= 3,
            forall|j: int| 0 <= j < i ==> #[trigger] differs_from_next(s, j),
        decreases 12 - i,
    {
        if symbols[i] == symbols[(i + 1) % TEMPORAL_SYMBOLS] {
            assert(!differs_from_next(s, i as int));
            return false;
        }
        i = i + 1;
    }
    let mut shift: usize = 1;
    while shift < TEMPORAL_SYMBOLS
        invariant
            s == symbols@,
            s.len() == 12,
            1 <= shift <= 12,
            forall|j: int| 0 <= j < 12 ==> #[trigger] s[j] <= 3,
            forall|j: int| 0 <= j < 12 ==> #[trigger] differs_from_next(s, j),
            forall|t: int| 1 <= t < shift ==> #[trigger] differs_from_rotation(s, t),
        decreases 12 - shift,
    {
        let mut j: usize = 0;
        let mut differs = false;
        while j < TEMPORAL_SYMBOLS
            invariant
                s == symbols@,
                s.len() == 12,
                1 <= shift < 12,
                j <= 12,
                differs ==> differs_from_rotation(s, shift as int),
                !differs ==> forall|k: int| 0 <= k < j ==> #[trigger] agrees_with_rotation_at(s, k, shift as int),
            decreases 12 - j,
        {
            if symbols[j] != symbols[(j + shift) % TEMPORAL_SYMBOLS] {
                assert(!agrees_with_rotation_at(s, j as int, shift as int));
                differs = true;
            }
            j = j + 1;
        }
        if !differs {
            assert(!differs_from_rotation(s, shift as int));
            return false;
        }
        shift = shift + 1;
    }
    let mut seen: [bool; 256] = [false; 256];
    let mut start: usize = 0;
    while start < TEMPORAL_SYMBOLS
        invariant
            s == symbols@,
            s.len() == 12,
            start <= 12,
            forall|j: int| 0 <= j < 12 ==> #[trigger] s[j] <= 3,
            forall|a: int| 0 <= a < start ==> #[trigger] seen[window_code(s, a)],
            forall|v: int|
                0 <= v < 256 && #[trigger] seen[v] ==> exists|a: int| 0 <= a < start && window_code(s, a) == v,
            forall|a: int, b: int| 0 <= a < b < start ==> #[trigger] window(s, a) != #[trigger] window(s, b),
        decreases 12 - start,
    {
        let w0 = symbols[start % TEMPORAL_SYMBOLS] as usize;
        let w1 = symbols[(start + 1) % TEMPORAL_SYMBOLS] as usize;
        let w2 = symbols[(start + 2) % TEMPORAL_SYMBOLS] as usize;
        let w3 = symbols[(start + 3) % TEMPORAL_SYMBOLS] as usize;
        assert(w0 <= 3 && w1 <= 3 && w2 <= 3 && w3 <= 3);
        let packed = w0 + 4 * w1 + 16 * w2 + 64 * w3;
        assert(packed == window_code(s, start as int));
        if seen[packed] {
            proof {
                let a = choose|a: int| 0 <= a < start && window_code(s, a) == packed;
                lemma_window_code_injective(s, a, start as int);
                assert(window(s, a) == window(s, start as int));
            }
            return false;
        }
        proof {
            assert forall|a: int| 0 <= a < start implies #[trigger] window(s, a) != window(s, start as int) by {
                if window(s, a) == window(s, start as int) {
                    assert(window_code(s, a) == window_code(s, start as int));
                    assert(seen[window_code(s, a)]);
                }
            }
        }
        seen[packed] = true;
        start = start + 1;
    }
    true
}

/// The first byte below 255 at or after `cursor`, reduced modulo 3, with
/// the position after it; bytes equal to 255 are skipped so that the
/// reduction is uniform.
pub open spec fn next_rank(okm: Seq<u8>, cursor: int) -> Option<(u8, int)>
    decreases okm.len() - cursor,
{
    if cursor < 0 || cursor >= okm.len() {
        None
    } else if okm[cursor] < 255 {
        Some(((okm[cursor] % 3) as u8, cursor + 1))
    } else {
        next_rank(okm, cursor + 1)
    }
}

/// The symbol of rank `rank` among the three symbols other than `previous`,
/// in ascending order.
pub open spec fn next_symbol(previous: u8, rank: u8) -> u8 {
    if rank >= previous {
        (rank + 1) as u8
    } else {
        rank
    }
}

/// Extends a candidate waveform to twelve symbols from the bytes at
/// `cursor` on, each symbol chosen by rank among those other than its
/// predecessor; `None` when the bytes run out first. Also gives the position
/// after the last byte used.
pub open spec fn extend_candidate(okm: Seq<u8>, cursor: int, cand: Seq<u8>) -> Option<(Seq<u8>, int)>
    decreases 12 - cand.len(),
{
    if cand.len() >= 12 {
        Some((cand, cursor))
    } else {
        match next_rank(okm, cursor) {
            None => None,
            Some((rank, next)) => extend_candidate(
                okm,
                next,
                cand.push(next_symbol(cand.last(), rank)),
            ),
        }
    }
}

/// `next_rank` moves forward.
pub proof fn lemma_next_rank_advances(okm: Seq<u8>, cursor: int)
    ensures
        next_rank(okm, cursor) matches Some((r, nx)) ==> cursor < nx <= okm.len() && r <= 2,
    decreases okm.len() - cursor,
{
    if 0 <= cursor < okm.len() && okm[cursor] >= 255 {
        lemma_next_rank_advances(okm, cursor + 1);
    }
}

/// `extend_candidate` moves forward.
pub proof fn lemma_extend_advances(okm: Seq<u8>, cursor: int, cand: Seq<u8>)
    ensures
        extend_candidate(okm, cursor, cand) matches Some((c, nx)) ==> nx >= cursor && (cursor
            <= okm.len() ==> nx <= okm.len()),
    decreases 12 - cand.len(),
{
    if cand.len() < 12 {
        lemma_next_rank_advances(okm, cursor);
        if let Some((rank, next)) = next_rank(okm, cursor) {
            lemma_extend_advances(okm, next, cand.push(next_symbol(cand.last(), rank)));
        }
    }
}

/// The first valid waveform found scanning candidates from `cursor` on: each
/// candidate starts with a byte reduced modulo 4 and is extended by rank;
/// an invalid candidate is dropped and the scan goes on after its bytes.
pub open spec fn scan_waveform(okm: Seq<u8>, cursor: int) -> Option<Seq<u8>>
    decreases okm.len() - cursor,
{
    if cursor < 0 || cursor >= okm.len() {
        None
    } else {
        match extend_candidate(okm, cursor + 1, seq![okm[cursor] % 4]) {
            None => None,
            Some((cand, next)) => {
                if valid_waveform(cand) {
                    Some(cand)
                } else {
                    proof {
                        lemma_extend_advances(okm, cursor + 1, seq![okm[cursor] % 4]);
                    }
                    scan_waveform(okm, next)
                }
            },
        }
    }
}

/// The waveform of a joint nonce pair: the first valid candidate in the
/// 4080-byte HKDF-SHA256 expansion of the client nonce followed by the server
/// nonce, under the fixed salt and info strings.
pub open spec fn waveform_of(client_nonce: Seq<u8>, server_nonce: Seq<u8>) -> Option<Seq<u8>> {
    scan_waveform(
        spec_hkdf_sha256(
            utf8("sable-rolling-shutter-v1"@),
            client_nonce + server_nonce,
            utf8("temporal-symbols"@),
            4080,
        ),
        0,
    )
}

/// Every waveform the scan returns is valid.
pub proof fn lemma_scan_gives_valid_waveform(okm: Seq<u8>, cursor: int)
    ensures
        scan_waveform(okm, cursor) matches Some(w) ==> valid_waveform(w),
    decreases okm.len() - cursor,
{
    if 0 <= cursor < okm.len() {
        if let Some((cand, next)) = extend_candidate(okm, cursor + 1, seq![okm[cursor] % 4]) {
            if !valid_waveform(cand) {
                lemma_extend_advances(okm, cursor + 1, seq![okm[cursor] % 4]);
                lemma_scan_gives_valid_waveform(okm, next);
            }
        }
    }
}

/// The next rank at or after `cursor`.
fn next_rank_at(okm: &[u8], cursor: usize) -> (r: Option<(u8, usize)>)
    ensures
        r matches Some((rank, nx)) ==> next_rank(okm@, cursor as int) == Some((rank, nx as int)),
        r is None ==> next_rank(okm@, cursor as int) is None,
{
    let mut c = cursor;
    while c < okm.len()
        invariant
            cursor <= c,
            next_rank(okm@, cursor as int) == next_rank(okm@, c as int),
        decreases okm.len() - c,
    {
        if okm[c] < 255 {
            return Some((okm[c] % 3, c + 1));
        }
        c = c + 1;
    }
    None
}

/// Builds the candidate starting at `cursor`, with the position after it.
fn build_candidate(okm: &[u8], cursor: usize) -> (r: Option<([u8; TEMPORAL_SYMBOLS], usize)>)
    requires
        cursor < okm@.len(),
    ensures
        r matches Some((cand, nx)) ==> extend_candidate(okm@, cursor + 1, seq![okm@[cursor as int] % 4])
            == Some((cand@, nx as int)),
        r is None ==> extend_candidate(okm@, cursor + 1, seq![okm@[cursor as int] % 4]) is None,
{
    let mut cand: [u8; TEMPORAL_SYMBOLS] = [0u8; TEMPORAL_SYMBOLS];
    cand[0] = okm[cursor] % 4;
    let mut cur = cursor + 1;
    let mut i: usize = 1;
    assert(cand@.subrange(0, 1) =~= seq![okm@[cursor as int] % 4]);
    while i < TEMPORAL_SYMBOLS
        invariant
            1 <= i <= 12,
            cur <= okm@.len(),
            forall|j: int| 0 <= j < i ==> #[trigger] cand@[j] <= 3,
            extend_candidate(okm@, cursor + 1, seq![okm@[cursor as int] % 4]) == extend_candidate(
                okm@,
                cur as int,
                cand@.subrange(0, i as int),
            ),
        decreases 12 - i,
    {
        let step = next_rank_at(okm, cur);
        proof {
            lemma_next_rank_advances(okm@, cur as int);
        }
        match step {
            None => {
                return None;
            },
            Some((rank, nx)) => {
                let previous = cand[i - 1];
                let sym = if rank >= previous { rank + 1 } else { rank };
                proof {
                    assert(cand@.subrange(0, i as int).last() == previous);
                }
                let ghost before = cand@.subrange(0, i as int);
                cand[i] = sym;
                assert(cand@.subrange(0, i + 1) =~= before.push(next_symbol(before.last(), rank)));
                cur = nx;
                i = i + 1;
            },
        }
    }
    assert(cand@.subrange(0, 12) =~= cand@);
    Some((cand, cur))
}

/// The first valid waveform in a key-derivation output, scanning candidates
/// from its start; refused when none is found.
pub fn select_temporal_symbols(okm: &[u8]) -> (r: Result<[u8; TEMPORAL_SYMBOLS]>)
    ensures
        r is Ok <==> scan_waveform(okm@, 0) is Some,
        r matches Ok(w) ==> scan_waveform(okm@, 0) == Some(w@) && valid_waveform(w@),
        r matches Err(e) ==> e is InvalidInput,
{
    proof {
        lemma_scan_gives_valid_waveform(okm@, 0);
    }
    let mut cursor: usize = 0;
    while cursor < okm.len()
        invariant
            scan_waveform(okm@, 0) == scan_waveform(okm@, cursor as int),
        decreases okm.len() - cursor,
    {
        let built = build_candidate(okm, cursor);
        proof {
            lemma_extend_advances(okm@, cursor + 1, seq![okm@[cursor as int] % 4]);
        }
        match built {
            None => {
                return Err(invalid_input("HKDF expansion contained no valid temporal waveform"));
            },
            Some((cand, next)) => {
                if valid_temporal_sequence(&cand) {
                    return Ok(cand);
                }
                cursor = next;
            },
        }
    }
    Err(invalid_input("HKDF expansion contained no valid temporal waveform"))
}

/// Derives the challenge waveform from the joint nonce: the first valid
/// candidate in the HKDF-SHA256 expansion of the two nonces.
pub fn derive_temporal_symbols(client_nonce: &[u8; 32], server_nonce: &[u8; 32]) -> (r: Result<
    [u8; TEMPORAL_SYMBOLS],
>)
    ensures
        r is Ok <==> waveform_of(client_nonce@, server_nonce@) is Some,
        r matches Ok(w) ==> waveform_of(client_nonce@, server_nonce@) == Some(w@) && valid_waveform(w@),
        r matches Err(e) ==> e is InvalidInput,
{
    let mut ikm: Vec<u8> = Vec::new();
    push_bytes(&mut ikm, client_nonce.as_slice());
    push_bytes(&mut ikm, server_nonce.as_slice());
    let okm = hkdf_sha256(
        "sable-rolling-shutter-v1".as_bytes(),
        ikm.as_slice(),
        "temporal-symbols".as_bytes(),
        HKDF_OUTPUT_LEN,
    );
    select_temporal_symbols(okm.as_slice())
}

/// Number of positions `i < j` at which the waveform differs from its
/// rotation by `shift`.
pub open spec fn rotation_mismatches(s: Seq<u8>, shift: int, j: nat) -> nat
    decreases j,
{
    if j == 0 {
        0
    } else {
        rotation_mismatches(s, shift, (j - 1) as nat) + if s[j - 1] != s[(j - 1 + shift) % 12] {
            1nat
        } else {
            0nat
        }
    }
}

/// Least Hamming distance between the waveform and its rotations by
/// `1..=k` positions.
pub open spec fn min_rotation_distance_upto(s: Seq<u8>, k: int) -> nat
    decreases k,
{
    if k <= 1 {
        rotation_mismatches(s, 1, 12)
    } else {
        let prev = min_rotation_distance_upto(s, k - 1);
        let d = rotation_mismatches(s, k, 12);
        if d < prev {
            d
        } else {
            prev
        }
    }
}

/// Least Hamming distance between the waveform and any non-trivial rotation.
pub open spec fn min_rotation_distance(s: Seq<u8>) -> nat {
    min_rotation_distance_upto(s, 11)
}

/// Mismatch counts never exceed the positions counted.
proof fn lemma_mismatches_bound(s: Seq<u8>, shift: int, j: nat)
    ensures
        rotation_mismatches(s, shift, j) <= j,
    decreases j,
{
    if j > 0 {
        lemma_mismatches_bound(s, shift, (j - 1) as nat);
    }
}

/// Number of positions at which the waveform differs from its rotation by
/// `shift`.
fn count_mismatches(symbols: &[u8; TEMPORAL_SYMBOLS], shift: usize) -> (c: u8)
    requires
        shift < 12,
    ensures
        c == rotation_mismatches(symbols@, shift as int, 12),
{
    let mut count: u8 = 0;
    let mut i: usize = 0;
    while i < TEMPORAL_SYMBOLS
        invariant
            shift < 12,
            i <= 12,
            count == rotation_mismatches(symbols@, shift as int, i as nat),
            count <= i,
        decreases 12 - i,
    {
        if symbols[i] != symbols[(i + shift) % TEMPORAL_SYMBOLS] {
            count = count + 1;
        }
        i = i + 1;
    }
    count
}

/// Minimum Hamming distance between two distinct cyclic rotations.
pub fn minimum_rotation_distance(symbols: &[u8; TEMPORAL_SYMBOLS]) -> (d: u8)
    ensures
        d == min_rotation_distance(symbols@),
        d <= 12,
{
    let mut best = count_mismatches(symbols, 1);
    proof {
        lemma_mismatches_bound(symbols@, 1, 12);
    }
    let mut shift: usize = 2;
    while shift < TEMPORAL_SYMBOLS
        invariant
            2 <= shift <= 12,
            best == min_rotation_distance_upto(symbols@, shift - 1),
            best <= 12,
        decreases 12 - shift,
    {
        let d = count_mismatches(symbols, shift);
        if d < best {
            best = d;
        }
        shift = shift + 1;
    }
    best
}

/// Largest error budget whose Hamming balls around the rotations stay
/// disjoint: twice the budget plus one fits within the minimum distance.
pub fn maximum_unambiguous_errors(symbols: &[u8; TEMPORAL_SYMBOLS]) -> (e: u8)
    ensures
        e == (if min_rotation_distance(symbols@) == 0 {
            0
        } else {
            (min_rotation_distance(symbols@) - 1) / 2
        }),
        min_rotation_distance(symbols@) > 0 ==> 2 * e + 1 <= min_rotation_distance(symbols@),
{
    let d = minimum_rotation_distance(symbols);
    let reduced = if d == 0 { 0 } else { d - 1 };
    reduced / 2
}

/// A differing position makes a mismatch count positive.
proof fn lemma_mismatch_positive(s: Seq<u8>, shift: int, i: int, j: nat)
    requires
        0 <= i < j,
        s[i] != s[(i + shift) % 12],
    ensures
        rotation_mismatches(s, shift, j) >= 1,
    decreases j,
{
    if i < j - 1 {
        lemma_mismatch_positive(s, shift, i, (j - 1) as nat);
    }
}

/// A valid waveform differs from each of its rotations, so the minimum
/// rotation distance is positive.
pub proof fn lemma_valid_waveform_rotation_distance(s: Seq<u8>)
    requires
        valid_waveform(s),
    ensures
        min_rotation_distance(s) >= 1,
{
    assert forall|k: int| 1 <= k <= 11 implies #[trigger] min_rotation_distance_upto(s, k) >= 1 by {
        lemma_upto_positive(s, k);
    }
}

/// Each prefix minimum of a valid waveform's rotation distances is positive.
proof fn lemma_upto_positive(s: Seq<u8>, k: int)
    requires
        valid_waveform(s),
        1 <= k <= 11,
    ensures
        min_rotation_distance_upto(s, k) >= 1,
    decreases k,
{
    assert(differs_from_rotation(s, k));
    let i = choose|i: int| 0 <= i < 12 && !#[trigger] agrees_with_rotation_at(s, i, k);
    lemma_mismatch_positive(s, k, i, 12);
    if k > 1 {
        lemma_upto_positive(s, k - 1);
    }
}

/// Private evidence produced by a calibrated capture integration.
#[derive(Debug, Clone, Copy, PartialEq, Eq)]
pub struct TemporalObservation {
    /// Four ordered row-band symbols from each of three frames.
    pub symbols: [u8; TEMPORAL_SYMBOLS],
    /// Rotation of the expected waveform at the first observed band.
    pub initial_phase: u8,
    /// Capture-start deltas in device-profile ticks between adjacent frames.
    pub frame_tick_deltas: [u16; FRAME_DELTAS],
}

impl TemporalObservation {
    /// Checks the fixed evidence grammar: every symbol in `0..=3` and the
    /// initial phase below 12.
    pub fn recognise(&self) -> (r: Result<()>)
        ensures
            r is Ok <==> (forall|i: int| 0 <= i < 12 ==> #[trigger] self.symbols@[i] <= 3)
                && self.initial_phase < 12,
            r matches Err(e) ==> e is InvalidInput,
    {
        let mut i: usize = 0;
        while i < TEMPORAL_SYMBOLS
            invariant
                i <= 12,
                forall|j: int| 0 <= j < i ==> #[trigger] self.symbols@[j] <= 3,
            decreases 12 - i,
        {
            if self.symbols[i] > 3 {
                let mut msg = String::from_str("observed temporal symbol ");
                msg.append(i.to_string().as_str());
                msg.append(" is outside 0..=3");
                return Err(SableError::InvalidInput(msg));
            }
            i = i + 1;
        }
        if self.initial_phase >= 12 {
            let mut msg = String::from_str("initial temporal phase ");
            msg.append(self.initial_phase.to_string().as_str());
            msg.append(" is outside 0..=11 ");
            return Err(SableError::InvalidInput(msg));
        }
        Ok(())
    }
}

} // verus!
