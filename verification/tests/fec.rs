use ftdecode::fec::{
    self, crc14, crc_matches, encode, failed_checks, first_invalid, hybrid_from_bp,
    hybrid_from_osd, neighbor, no_evidence, observe, osd_attempts, payload, BpProgress, BpStep,
    DecodeMethod, HybridDecoded, InvalidLlr,
};
use ftdecode::hybrid::{check_hybrid, conclude_hybrid, distance_to, Propagation};
use ftdecode::message_encode;
use ftdecode::osd::{self, DecodeError, Search};
use ftdecode::reliability::indexx;
use ftdecode::sums::plus;
use ftdecode::symbols;
use ftdecode::tables;

fn bits(values: &[f32; 174]) -> [u32; 174] {
    std::array::from_fn(|i| values[i].to_bits())
}

fn likelihoods(word: &[bool; 174], strength: f32) -> [f32; 174] {
    std::array::from_fn(|i| if word[i] { strength } else { -strength })
}

fn sample() -> [bool; 77] {
    message_encode::encode("CQ K1ABC FN42").unwrap()
}

fn search(
    llr: &[f32; 174],
    mask: &[bool; 174],
    depth: u8,
) -> Result<Option<osd::Decoded>, DecodeError> {
    osd::decode_ap(&bits(llr), mask, depth)
}

/// A hybrid decode after a propagation that has failed and saved nothing else than
/// the channel likelihoods.
fn hybrid(
    llr: &[f32; 174],
    mask: &[bool; 174],
    max_osd: u8,
    depth: u8,
) -> Result<Option<HybridDecoded>, DecodeError> {
    check_hybrid(&bits(llr), max_osd, depth)?;
    let propagation = Propagation {
        decoded: None,
        last_iteration: 30,
        saved: [bits(llr); 3],
    };
    conclude_hybrid(&bits(llr), mask, max_osd, depth, propagation)
}

#[test]
fn nonfinite_likelihoods_are_errors_not_messages() {
    for value in [f32::NAN, f32::INFINITY, f32::NEG_INFINITY] {
        let mut llr = [-1.0; 174];
        llr[42] = value;
        assert_eq!(first_invalid(&bits(&llr)), Err(InvalidLlr { index: 42 }));
    }
    assert_eq!(first_invalid(&bits(&[-1.0; 174])), Ok(()));
    assert_eq!(
        InvalidLlr { index: 42 }.text(),
        "non-finite log likelihood at bit 42"
    );
}

#[test]
fn absent_information_does_not_create_a_message() {
    assert!(no_evidence(&bits(&[0.0; 174])));
    assert!(no_evidence(&bits(&[-0.0; 174])));
    let mut llr = [0.0; 174];
    llr[173] = f32::MIN_POSITIVE;
    assert!(!no_evidence(&bits(&llr)));
}

#[test]
fn zero_crc_payload_is_a_valid_codeword_when_evidence_exists() {
    let llr = bits(&[-6.0; 174]);
    assert!(!no_evidence(&llr));
    let step = BpProgress::new().judge(&llr, &[false; 174], 0, 0);
    let BpStep::Accepted(decoded) = step else {
        panic!("rejected")
    };
    assert_eq!(decoded.codeword, [false; 174]);
    assert_eq!(decoded.iterations, 0);
    assert_eq!(decoded.hard_errors, 0);
}

#[test]
fn settings_and_nonfinite_inputs_are_rejected() {
    let llr = [-1.0; 174];
    for depth in 3..=255 {
        assert_eq!(
            osd::decode(&bits(&llr), depth),
            Err(DecodeError::UnsupportedDepth(depth))
        );
        assert_eq!(
            hybrid(&llr, &[false; 174], 0, depth),
            Err(DecodeError::UnsupportedDepth(depth))
        );
    }
    for passes in 4..=255 {
        assert_eq!(
            hybrid(&llr, &[false; 174], passes, 2),
            Err(DecodeError::UnsupportedMaxOsd(passes))
        );
    }
    for value in [f32::NAN, f32::INFINITY, f32::NEG_INFINITY] {
        let mut llr = llr;
        llr[123] = value;
        assert_eq!(
            osd::decode(&bits(&llr), 2),
            Err(DecodeError::InvalidLlr(InvalidLlr { index: 123 }))
        );
        assert_eq!(
            hybrid(&llr, &[false; 174], 3, 2),
            Err(DecodeError::InvalidLlr(InvalidLlr { index: 123 }))
        );
    }
    assert!(osd::decode(&bits(&[f32::MAX; 174]), 2).is_err());
    assert!(hybrid(&[f32::MAX; 174], &[false; 174], 3, 2).is_err());
    assert_eq!(
        osd::validate(&bits(&[f32::MAX; 174]), 2),
        Err(DecodeError::LikelihoodOverflow)
    );
    assert_eq!(osd::validate(&bits(&[f32::MAX / 4096.0; 174]), 2), Ok(()));
}

#[test]
fn zero_input_and_bad_crc_are_not_payloads() {
    for depth in 0..=2 {
        assert!(osd::decode(&[0; 174], depth).unwrap().is_none());
        for passes in 0..=3 {
            assert!(hybrid(&[0.0; 174], &[false; 174], passes, depth)
                .unwrap()
                .is_none());
        }
    }
    // The sum of two codewords keeps the parities and loses the checksum.
    let a = encode(&sample());
    let b = encode(&message_encode::encode("K1ABC W9XYZ RRR").unwrap());
    let mut bad = a;
    for i in 0..174 {
        bad[i] = a[i] != b[i];
    }
    assert_eq!(failed_checks(&bad), 0);
    let bad_crc = !crc_matches(&bad);
    let mut flipped = [false; 91];
    flipped.copy_from_slice(&a[..91]);
    flipped[90] = !flipped[90];
    let parity_ok: [bool; 174] = std::array::from_fn(|i| {
        if i < 91 {
            flipped[i]
        } else {
            let row = tables::generator_row(i - 91);
            (0..91).fold(false, |p, k| p != (flipped[k] && row >> (90 - k) & 1 != 0))
        }
    });
    assert_eq!(failed_checks(&parity_ok), 0);
    assert!(!crc_matches(&parity_ok));
    assert!(!bad_crc || !crc_matches(&bad));
    let llr = likelihoods(&parity_ok, 4.0);
    assert!(search(&llr, &[false; 174], 0).unwrap().is_none());
    assert!(hybrid(&llr, &[false; 174], 3, 0).unwrap().is_none());
    assert_eq!(
        BpProgress::new().judge(&bits(&llr), &parity_ok, 0, 0),
        BpStep::Stopped
    );
}

#[test]
fn masked_decoders_reject_invalid_inputs_and_absent_evidence() {
    let mask = [true; 174];
    for depth in 0..=2 {
        assert!(search(&[0.0; 174], &mask, depth).unwrap().is_none());
        for max_osd in 0..=3 {
            assert!(hybrid(&[0.0; 174], &mask, max_osd, depth)
                .unwrap()
                .is_none());
        }
    }
    assert_eq!(
        search(&[1.0; 174], &mask, 3),
        Err(DecodeError::UnsupportedDepth(3))
    );
    assert_eq!(
        hybrid(&[1.0; 174], &mask, 4, 2),
        Err(DecodeError::UnsupportedMaxOsd(4))
    );
    for value in [f32::NAN, f32::INFINITY, f32::NEG_INFINITY] {
        let mut llr = [1.0; 174];
        llr[37] = value;
        let expected = DecodeError::InvalidLlr(InvalidLlr { index: 37 });
        assert_eq!(search(&llr, &mask, 2), Err(expected.clone()));
        assert_eq!(hybrid(&llr, &mask, 3, 2), Err(expected));
    }
    assert_eq!(
        search(&[f32::MAX; 174], &mask, 2),
        Err(DecodeError::LikelihoodOverflow)
    );
    assert_eq!(
        hybrid(&[f32::MAX; 174], &mask, 3, 2),
        Err(DecodeError::LikelihoodOverflow)
    );
}

#[test]
fn errors_are_told_in_words() {
    assert_eq!(
        DecodeError::InvalidLlr(InvalidLlr { index: 3 }).text(),
        "non-finite log likelihood at bit 3"
    );
    assert_eq!(
        DecodeError::UnsupportedDepth(7).text(),
        "unsupported OSD depth 7; supported: 0..=2"
    );
    assert_eq!(
        DecodeError::UnsupportedMaxOsd(9).text(),
        "unsupported max_osd 9; supported: 0..=3"
    );
    assert_eq!(
        DecodeError::LikelihoodOverflow.text(),
        "likelihood magnitudes exceed safe f32 accumulation range"
    );
}

#[test]
fn checksum_of_a_call() {
    assert_eq!(crc14(&sample()), 2862);
    assert_eq!(crc14(&[false; 77]), 0);
}

#[test]
fn codewords_become_the_transmitted_tones() {
    for (text, tones) in [
        (
            "CQ K1ABC FN42",
            "3140652000000001005476704606021533433140652736011047517007334745455133543140652",
        ),
        (
            "K1ABC W9XYZ EN37",
            "3140652032247523504061147005134325373140652464557561564770300376175462233140652",
        ),
    ] {
        let word = encode(&message_encode::encode(text).unwrap());
        let sent: String = symbols::ft8(&word)
            .iter()
            .map(|t| (b'0' + t) as char)
            .collect();
        assert_eq!(sent, tones);
    }
}

#[test]
fn ft4_symbols_hold_ramps_and_four_sync_groups() {
    let word = encode(&symbols::scramble_ft4(&sample()));
    let tones = symbols::ft4(&word);
    assert_eq!(tones.len(), 105);
    assert_eq!((tones[0], tones[104]), (0, 0));
    assert_eq!(tones[1..5], [0, 1, 3, 2]);
    assert_eq!(tones[34..38], [1, 0, 2, 3]);
    assert_eq!(tones[67..71], [2, 3, 1, 0]);
    assert_eq!(tones[100..104], [3, 2, 0, 1]);
    assert_eq!(
        symbols::scramble_ft4(&symbols::scramble_ft4(&sample())),
        sample()
    );
}

#[test]
fn encodings_pass_all_checks_and_a_flipped_bit_fails_three() {
    let word = encode(&sample());
    assert_eq!(failed_checks(&word), 0);
    assert!(crc_matches(&word));
    assert_eq!(payload(&word), sample());
    for i in 0..174 {
        let mut flipped = word;
        flipped[i] = !flipped[i];
        assert_eq!(failed_checks(&flipped), 3);
    }
}

#[test]
fn tables_describe_one_graph() {
    for m in 0..83 {
        for (edge, &bit) in tables::check_row(m).iter().enumerate() {
            if bit < 174 {
                let slot = neighbor(m, edge);
                assert_eq!(tables::bit_row(bit)[slot], m);
            }
        }
    }
}

#[test]
fn belief_propagation_stops_when_it_stagnates() {
    let llr = bits(&[1.0; 174]);
    let mut word = [false; 174];
    // Thirty failing checks, the same in every iteration.
    for i in 0..10 {
        word[i * 17] = true;
    }
    assert!(failed_checks(&word) > 15);
    let mut progress = BpProgress::new();
    for iteration in 0..10 {
        assert_eq!(
            progress.judge(&llr, &word, iteration, 30),
            BpStep::Continue,
            "{iteration}"
        );
    }
    assert_eq!(progress.stagnant, 9);
    assert_eq!(progress.judge(&llr, &word, 10, 30), BpStep::Stopped);
    assert_eq!(
        BpProgress::new().judge(&llr, &word, 0, 0),
        BpStep::Stopped
    );
}

#[test]
fn posteriors_are_summed_and_saved_for_the_first_iterations() {
    for (iteration, max, summed, saved) in [
        (0, 0, false, None),
        (0, 3, true, None),
        (1, 3, true, Some(0)),
        (3, 3, true, Some(2)),
        (4, 3, false, None),
        (2, 1, false, None),
    ] {
        let p = observe(iteration, max);
        assert_eq!((p.summed, p.saved), (summed, saved), "{iteration} {max}");
    }
    assert_eq!(osd_attempts(0), Ok(1));
    assert_eq!(osd_attempts(3), Ok(3));
}

#[test]
fn order_statistics_repair_unreliable_bits() {
    let word = encode(&sample());
    let mut llr: [f32; 174] = std::array::from_fn(|i| {
        let strength = 4.0 + (i * 37 % 101) as f32 / 16.0;
        if word[i] {
            strength
        } else {
            -strength
        }
    });
    for i in [3, 50, 88, 120, 170] {
        llr[i] = -llr[i].signum() * 0.5;
    }
    let decoded = search(&llr, &[false; 174], 2).unwrap().unwrap();
    assert_eq!(decoded.codeword, word);
    assert_eq!(decoded.message, sample());
    assert_eq!(decoded.hard_errors, 5);
    assert_eq!(f32::from_bits(decoded.distance), 2.5);
    let hybrid = hybrid_from_osd(decoded.clone(), 30, 1, decoded.distance).unwrap();
    assert_eq!(hybrid.osd_pass, Some(2));
    assert_eq!(hybrid.method, DecodeMethod::Osd);
    let mut exact = decoded;
    exact.hard_errors = 0;
    assert_eq!(hybrid_from_osd(exact, 30, 1, 0), None);
    let bp = hybrid_from_bp(
        fec::Decoded {
            message: sample(),
            codeword: word,
            iterations: 2,
            hard_errors: 1,
        },
        7,
    );
    assert_eq!((bp.method, bp.osd_pass, bp.distance), (DecodeMethod::Bp, None, 7));
}

#[test]
fn hybrid_decoding_takes_the_first_attempt_that_succeeds() {
    let word = encode(&sample());
    let mut llr = likelihoods(&word, 4.0);
    for i in [3, 50, 88] {
        llr[i] = -llr[i].signum() * 0.5;
    }
    let clean = likelihoods(&word, 1.0);
    let propagation = Propagation {
        decoded: None,
        last_iteration: 12,
        // The first input has no mismatch and is passed over.
        saved: [bits(&clean), bits(&llr), bits(&llr)],
    };
    let found = conclude_hybrid(&bits(&llr), &[false; 174], 3, 2, propagation.clone())
        .unwrap()
        .unwrap();
    assert_eq!(found.decoded.codeword, word);
    assert_eq!(found.osd_pass, Some(2));
    assert_eq!(found.decoded.iterations, 12);
    assert_eq!(found.decoded.hard_errors, 3);
    assert_eq!(f32::from_bits(found.distance), 1.5);
    assert_eq!(
        conclude_hybrid(&bits(&llr), &[false; 174], 1, 2, propagation.clone()),
        Ok(None)
    );
    let by_bp = Propagation {
        decoded: Some(fec::Decoded {
            message: sample(),
            codeword: word,
            iterations: 12,
            hard_errors: 3,
        }),
        ..propagation
    };
    let found = conclude_hybrid(&bits(&llr), &[false; 174], 3, 2, by_bp)
        .unwrap()
        .unwrap();
    assert_eq!(found.method, DecodeMethod::Bp);
    assert_eq!(f32::from_bits(found.distance), 1.5);
}

#[test]
fn sums_round_as_in_single_precision() {
    let mut state = 0x1234_5678_9abc_def1_u64;
    let mut next = || {
        state = state
            .wrapping_mul(6364136223846793005)
            .wrapping_add(1442695040888963407);
        (state >> 32) as u32
    };
    let mut rounded = 0;
    for round in 0..60_000 {
        let a = next() % 0x7e80_0000;
        let b = match round % 4 {
            0 => next() % 0x7e80_0000,
            1 => (a & 0x7f80_0000)
                .saturating_sub((next() % 28) << 23)
                .wrapping_add(next() % 0x80_0000),
            2 => next() % 0x100_0000,
            _ => (a & 0x7f80_0000).saturating_sub(24 << 23),
        };
        let sum = f32::from_bits(a) + f32::from_bits(b);
        assert_eq!(plus(a, b), sum.to_bits(), "{a:#x} {b:#x}");
        rounded += usize::from(f64::from(f32::from_bits(a)) + f64::from(f32::from_bits(b)) != f64::from(sum));
    }
    assert!(rounded > 10_000);
    assert_eq!(plus(3, 0), 3);
    assert_eq!(plus(0x007f_ffff, 1), 0x0080_0000);
}

#[test]
fn distances_are_summed_in_order() {
    let word = encode(&sample());
    let mut state = 99_u32;
    let llr: [f32; 174] = std::array::from_fn(|i| {
        state = state.wrapping_mul(1664525).wrapping_add(1013904223);
        let noise = (state >> 8) as f32 / 16_777_216.0 * 3.7 - 0.9;
        if word[i] {
            noise
        } else {
            -noise
        }
    });
    let mut expected = 0.0_f32;
    for i in 0..174 {
        if word[i] != (llr[i] >= 0.0) {
            expected += llr[i].abs();
        }
    }
    assert!(expected > 0.0);
    assert_eq!(f32::from_bits(distance_to(&bits(&llr), &word)), expected);
    for depth in 0..=2 {
        if let Some(found) = search(&llr, &[false; 174], depth).unwrap() {
            let search = Search::new(&bits(&llr));
            let errors = search.errors(&found.codeword);
            let sum: f32 = search
                .order()
                .iter()
                .filter(|&&i| errors[i])
                .map(|&i| llr[i].abs())
                .sum();
            assert!((f32::from_bits(found.distance) - sum).abs() < 1e-4);
        }
    }
}

#[test]
fn deeper_trials_flip_one_or_two_reliable_bits() {
    let word = encode(&sample());
    let mut llr: [f32; 174] = std::array::from_fn(|i| {
        let strength = 4.0 + (i * 37 % 101) as f32 / 16.0;
        if word[i] {
            strength
        } else {
            -strength
        }
    });
    let strongest = *Search::new(&bits(&llr)).order().first().unwrap();
    llr[strongest] = -llr[strongest];
    assert!(search(&llr, &[false; 174], 0)
        .unwrap()
        .is_none_or(|d| d.codeword != word));
    let decoded = search(&llr, &[false; 174], 1).unwrap().unwrap();
    assert_eq!(decoded.codeword, word);
    assert_eq!(decoded.hard_errors, 1);
    // A masked row is never added.
    let mut mask = [false; 174];
    mask[strongest] = true;
    assert!(search(&llr, &mask, 1)
        .unwrap()
        .is_none_or(|d| d.codeword != word));
}

#[test]
fn reliability_order_sorts_ascending() {
    let keys: [u32; 174] = std::array::from_fn(|i| ((i * 61 % 174) as f32).to_bits());
    let order = indexx(&keys);
    assert_eq!(order.len(), 174);
    for (rank, &i) in order.iter().enumerate() {
        assert_eq!(f32::from_bits(keys[i]), rank as f32);
    }
}

#[test]
fn the_code_is_linear_and_accepted_words_are_encodings() {
    let a = sample();
    let b = message_encode::encode("W9XYZ K1ABC -11").unwrap();
    let xor = |x: &[bool; 77], y: &[bool; 77]| std::array::from_fn(|i| x[i] != y[i]);
    // The checksum is linear too: no constant is added.
    let both: [bool; 77] = xor(&a, &b);
    let (wa, wb, wc) = (encode(&a), encode(&b), encode(&both));
    assert!((0..174).all(|i| wc[i] == (wa[i] != wb[i])));
    // A word that passes every check and the checksum is that of its payload.
    let word: [bool; 174] = std::array::from_fn(|i| wa[i] != wb[i]);
    assert_eq!(failed_checks(&word), 0);
    assert!(crc_matches(&word));
    assert_eq!(encode(&payload(&word)), word);
}
