use sable_core::biometric::rolling_shutter::{
    derive_temporal_symbols, maximum_unambiguous_errors, minimum_rotation_distance,
    select_temporal_symbols, valid_temporal_sequence, TemporalObservation, TemporalSymbol,
    FRAME_DELTAS, SYMBOLS_PER_FRAME, TEMPORAL_FRAMES, TEMPORAL_SYMBOLS,
};

#[test]
fn test_160_rll_derivation_is_deterministic_and_no_repeat() {
    let client = [0x11; 32];
    let server = [0xA5; 32];
    let got = derive_temporal_symbols(&client, &server).unwrap();
    assert_eq!(got, [2, 1, 3, 0, 3, 2, 1, 3, 1, 2, 1, 0]);
    assert!(got.windows(2).all(|pair| pair[0] != pair[1]));
    assert!(got.iter().all(|&symbol| symbol <= 3));
    assert!(valid_temporal_sequence(&got));
    assert!(minimum_rotation_distance(&got) >= 3);
}

#[test]
fn test_161_observation_grammar_rejects_symbol_and_phase_overflow() {
    let valid = TemporalObservation {
        symbols: [0, 1, 2, 3, 0, 1, 2, 3, 0, 1, 2, 3],
        initial_phase: 11,
        frame_tick_deltas: [4, 4],
    };
    valid.recognise().unwrap();

    let mut bad_symbol = valid;
    bad_symbol.symbols[7] = 4;
    assert!(bad_symbol.recognise().is_err());

    let mut bad_phase = valid;
    bad_phase.initial_phase = 12;
    assert!(bad_phase.recognise().is_err());
}

#[test]
fn periodic_and_duplicate_window_sequences_are_rejected() {
    assert!(!valid_temporal_sequence(&[0, 1, 2, 3, 0, 1, 2, 3, 0, 1, 2, 3]));
    assert!(!valid_temporal_sequence(&[0, 1, 0, 1, 0, 1, 0, 1, 0, 1, 0, 2]));
}

#[test]
fn constants_are_consistent() {
    assert_eq!(TEMPORAL_SYMBOLS, 12);
    assert_eq!(TEMPORAL_FRAMES, 3);
    assert_eq!(SYMBOLS_PER_FRAME, 4);
    assert_eq!(FRAME_DELTAS, 2);
}

#[test]
fn symbols_convert_from_numbers_and_to_rgb() {
    assert_eq!(TemporalSymbol::try_from_u8(0).unwrap(), TemporalSymbol::Red);
    assert_eq!(TemporalSymbol::try_from_u8(3).unwrap(), TemporalSymbol::White);
    assert!(TemporalSymbol::try_from_u8(4).is_err());
    assert_eq!(TemporalSymbol::Blue.to_u8(), 2);
    assert_eq!(TemporalSymbol::Red.rgb(), [204, 0, 0]);
    assert_eq!(TemporalSymbol::White.rgb(), [255, 255, 255]);
}

#[test]
fn grammar_rejects_symbol_above_three_and_adjacent_repeat() {
    assert!(!valid_temporal_sequence(&[4, 1, 3, 0, 3, 2, 1, 3, 1, 2, 1, 0]));
    // cyclic repeat: last equals first
    assert!(!valid_temporal_sequence(&[2, 1, 3, 0, 3, 2, 1, 3, 1, 2, 1, 2]));
    assert!(valid_temporal_sequence(&[2, 1, 3, 0, 3, 2, 1, 3, 1, 2, 1, 0]));
}

#[test]
fn rotation_distance_and_error_budget() {
    let w = [2, 1, 3, 0, 3, 2, 1, 3, 1, 2, 1, 0];
    let d = minimum_rotation_distance(&w);
    let e = maximum_unambiguous_errors(&w);
    assert!(2 * e + 1 <= d);
    let periodic = [0, 1, 2, 3, 0, 1, 2, 3, 0, 1, 2, 3];
    assert_eq!(minimum_rotation_distance(&periodic), 0);
    assert_eq!(maximum_unambiguous_errors(&periodic), 0);
}

#[test]
fn selection_skips_bytes_of_255_and_invalid_candidates() {
    // Bytes are consumed as: first symbol byte % 4, then ranks byte % 3.
    // An output too short for a full candidate gives no waveform.
    assert!(select_temporal_symbols(&[0u8; 5]).is_err());
    assert!(select_temporal_symbols(&[]).is_err());
    // Build bytes that yield 2,1,3,0,3,2,1,3,1,2,1,0: the first byte 2,
    // then for each next symbol the rank among the other three.
    let target = [2u8, 1, 3, 0, 3, 2, 1, 3, 1, 2, 1, 0];
    let mut okm = vec![target[0]];
    for i in 1..12 {
        let prev = target[i - 1];
        let rank = if target[i] > prev { target[i] - 1 } else { target[i] };
        okm.push(255); // skipped
        okm.push(rank);
    }
    assert_eq!(select_temporal_symbols(&okm).unwrap(), target);
}

#[test]
fn derivation_depends_on_both_nonces() {
    let a = derive_temporal_symbols(&[0x11; 32], &[0xA5; 32]).unwrap();
    let b = derive_temporal_symbols(&[0x11; 32], &[0xA6; 32]).unwrap();
    let c = derive_temporal_symbols(&[0x12; 32], &[0xA5; 32]).unwrap();
    assert!(valid_temporal_sequence(&b) && valid_temporal_sequence(&c));
    assert!(a != b || a != c);
}
