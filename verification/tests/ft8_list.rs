use ftdecode::engine::{DecodeSettings, DecodedSignal};
use ftdecode::fec;
use ftdecode::ft8_list::{
    hypotheses, make_candidate, may_win, Ft8ListDecoder, MAX_HISTORY,
};
use ftdecode::ft8_list_search::{
    accepts_contact, check_residual, is_doubtful, is_usable_noise, may_be_contact, next, Task,
};
use ftdecode::list_choice::choose_hypothesis;
use ftdecode::message::MessageDecoder;
use ftdecode::message_encode;
use ftdecode::single::is_below_1_3_times;
use ftdecode::sums::wide_plus;
use ftdecode::symbols;

fn station(text: &str, frequency: f32) -> DecodedSignal {
    let bits = message_encode::encode("CQ K1ABC FN42").unwrap();
    let mut signal = DecodedSignal {
        source_bits: bits,
        message: MessageDecoder::default().unpack(&bits).unwrap(),
        frequency_hz: frequency.to_bits(),
        snr_db: -10,
        dt_seconds: 0.0_f32.to_bits(),
        assisted: false,
        diagnostics: None,
    };
    signal.message.text = text.to_string();
    signal
}

fn remember(decoder: &mut Ft8ListDecoder, text: &str, frequency: f32) {
    decoder.remember(&station(text, frequency));
}

#[test]
fn history_is_bounded_for_both_parities() {
    let mut decoder = Ft8ListDecoder::new();
    for slot in 0..4 {
        decoder.begin_slot(slot);
        for i in 0..250 {
            remember(&mut decoder, "CQ K1ABC FN42", 300.0 + i as f32 * 4.0);
        }
        assert_eq!(decoder.current().unwrap().len(), MAX_HISTORY);
    }
    assert!([&decoder.even, &decoder.odd]
        .iter()
        .all(|h| h.current.len() == MAX_HISTORY && h.previous.len() == MAX_HISTORY));
    decoder.reset();
    assert!([&decoder.even, &decoder.odd]
        .iter()
        .all(|h| h.current.is_empty() && h.previous.is_empty()));
}

#[test]
fn unknown_and_compound_calls_do_not_seed_a7() {
    let mut decoder = Ft8ListDecoder::new();
    decoder.begin_slot(0);
    for text in ["CQ <...> FN42", "CQ PJ4/K1ABC", "CQ DX K1ABC FN42"] {
        remember(&mut decoder, text, 1500.0);
    }
    assert!(decoder.even.current.is_empty());
}

#[test]
fn stations_heard_before_are_tried_until_heard_again() {
    let mut decoder = Ft8ListDecoder::new();
    assert!(decoder.previous().is_none());
    remember(&mut decoder, "CQ K1ABC FN42", 1500.0);
    decoder.begin_slot(0);
    assert!(!decoder.any_available());
    remember(&mut decoder, "CQ K1ABC FN42", 1500.0);
    remember(&mut decoder, "CQ K1ABC FN42", 1502.0);
    assert_eq!(decoder.even.current.len(), 1);
    assert!(decoder.heard_already("K1ABC"));
    assert!(!decoder.heard_already("W9XYZ"));
    decoder.begin_slot(1);
    assert!(!decoder.any_available());
    decoder.begin_slot(2);
    assert!(decoder.any_available());
    let entry = &decoder.previous().unwrap()[0];
    assert_eq!(entry.call1, "CQ");
    assert_eq!(entry.call2, "K1ABC");
    assert_eq!(entry.grid, "FN42");
    remember(&mut decoder, "W9XYZ K1ABC -11", 1503.25);
    assert!(decoder.any_available());
    remember(&mut decoder, "W9XYZ K1ABC -11", 1503.0);
    assert!(!decoder.any_available());
    assert_eq!(decoder.current().unwrap()[0].grid, "");
}

#[test]
fn signals_outside_the_band_or_window_are_not_remembered() {
    let mut decoder = Ft8ListDecoder::new();
    decoder.begin_slot(0);
    for frequency in [f32::NAN, f32::INFINITY, -1.0, 6000.5] {
        remember(&mut decoder, "CQ K1ABC FN42", frequency);
    }
    for dt in [f32::NAN, 15.5, -15.5] {
        let mut signal = station("CQ K1ABC FN42", 1500.0);
        signal.dt_seconds = dt.to_bits();
        decoder.remember(&signal);
    }
    assert!(decoder.even.current.is_empty());
    remember(&mut decoder, "CQ K1ABC FN42", 6000.0);
    assert_eq!(decoder.even.current.len(), 1);
}

#[test]
fn a_described_contact_is_wanted_without_history() {
    let decoder = Ft8ListDecoder::new();
    let mut settings = DecodeSettings::default();
    assert!(!decoder.is_wanted(&settings));
    settings.assistance = true;
    settings.ap.mode = ftdecode::assistance::ApMode::Auto;
    settings.depth = 3;
    settings.priority_hz = Some(1500.0_f32.to_bits());
    settings.ap.my_call = Some("K1ABC".into());
    settings.ap.dx_call = Some("W9XYZ".into());
    settings.ap.dx_grid = Some("EN37".into());
    assert!(decoder.is_wanted(&settings));
}

#[test]
fn hypotheses_cover_the_steps_of_a_contact() {
    let all = hypotheses("K1ABC", "W9XYZ", "EN37", true);
    assert_eq!(all.len(), 206);
    let texts: Vec<&str> = all.iter().map(|h| h.text.as_str()).collect();
    for text in [
        "K1ABC W9XYZ",
        "K1ABC W9XYZ RRR",
        "K1ABC W9XYZ RR73",
        "K1ABC W9XYZ 73",
        "CQ W9XYZ EN37",
        "K1ABC W9XYZ EN37",
        "K1ABC W9XYZ -10",
        "K1ABC W9XYZ R-10",
        "K1ABC W9XYZ +30",
    ] {
        assert!(texts.contains(&text), "{text}");
    }
    for h in &all {
        assert_eq!(h.codeword, fec::encode(&h.bits));
        assert_eq!(h.tones, symbols::ft8(&h.codeword));
    }
    assert_eq!(
        all[1].bits,
        message_encode::encode("K1ABC W9XYZ RRR").unwrap()
    );
}

#[test]
fn placeholders_and_bare_calls_never_win() {
    assert!(!may_win("QU1RK W9XYZ RRR", "EN37"));
    assert!(!may_win("CQ W9XYZ", ""));
    assert!(may_win("CQ W9XYZ EN37", "EN37"));
    assert!(may_win("K1ABC W9XYZ 73", ""));
}

#[test]
fn a_winning_hypothesis_becomes_an_assisted_signal() {
    let mut messages = MessageDecoder::default();
    let rr73 = hypotheses("K1ABC", "W9XYZ", "EN37", true)
        .into_iter()
        .find(|h| h.text == "K1ABC W9XYZ RR73")
        .unwrap();
    let tones = rr73.tones;
    let candidate = make_candidate(
        rr73,
        &mut messages,
        1500.0_f32.to_bits(),
        0.5_f32.to_bits(),
        -17,
        8,
        12,
        true,
    )
    .unwrap();
    assert_eq!(candidate.tones, tones);
    assert_eq!(candidate.signal.message.text, "K1ABC W9XYZ RR73");
    assert!(candidate.signal.assisted);
    let diagnostics = candidate.signal.diagnostics.unwrap();
    assert_eq!(diagnostics.method, fec::DecodeMethod::List);
    assert_eq!(diagnostics.ap_type, Some(8));
    assert_eq!(diagnostics.hard_errors, 12);
    assert!(diagnostics.questionable);
    assert_eq!(
        diagnostics.confidence.map(f32::from_bits),
        Some(0.16)
    );
}

#[test]
fn the_best_fitting_hypothesis_is_chosen_when_it_is_clear() {
    let all = hypotheses("K1ABC", "W9XYZ", "EN37", false);
    let sent = all.iter().position(|h| h.text == "K1ABC W9XYZ RR73").unwrap();
    let mut metric: [f32; 174] =
        std::array::from_fn(|i| if all[sent].codeword[i] { 2.0 } else { -2.0 });
    for i in [5, 60, 171] {
        metric[i] = -metric[i];
    }
    let noise = [0.25_f32.to_bits(); 174];
    let metrics = [noise, metric.map(f32::to_bits), noise, noise];
    assert_eq!(choose_hypothesis(&metrics, &all, "EN37"), Some((sent, 3)));
    // No evidence, and evidence for nothing.
    assert_eq!(choose_hypothesis(&[[0; 174]; 4], &all, "EN37"), None);
    assert_eq!(choose_hypothesis(&[noise; 4], &all, "EN37"), None);
    assert_eq!(choose_hypothesis(&metrics, &all[sent..=sent].to_vec(), "EN37"), None);
    // Too far from everything.
    let far = metric.map(|x| (x * 20.0).to_bits());
    assert_eq!(
        choose_hypothesis(&[far, far, far, far], &all, "EN37"),
        None
    );
    // A metric that is not finite is passed over, and so is one whose sum is not.
    let broken = [f32::NAN.to_bits(); 174];
    let huge = [(-f32::MAX).to_bits(); 174];
    assert_eq!(
        choose_hypothesis(&[broken, metrics[1], huge, noise], &all, "EN37"),
        Some((sent, 3))
    );
    assert_eq!(choose_hypothesis(&[broken, huge, broken, huge], &all, "EN37"), None);
    // A CQ without a locator never wins.
    let bare = hypotheses("K1ABC", "W9XYZ", "", false);
    let cq = bare.iter().position(|h| h.text == "CQ W9XYZ").unwrap();
    let metric: [u32; 174] = std::array::from_fn(|i| {
        if bare[cq].codeword[i] {
            2.0_f32.to_bits()
        } else {
            (-2.0_f32).to_bits()
        }
    });
    assert_eq!(choose_hypothesis(&[metric; 4], &bare, ""), None);
}

#[test]
fn products_with_1_3_round_as_in_single_precision() {
    let mut state = 7_u64;
    let mut next = || {
        state = state
            .wrapping_mul(6364136223846793005)
            .wrapping_add(1442695040888963407);
        (state >> 32) as u32
    };
    for round in 0..40_000 {
        let b = if round % 8 == 0 {
            next() % 0x0080_0000
        } else {
            next() % 0x7e00_0000
        };
        let product = 1.3 * f32::from_bits(b);
        let a = product
            .to_bits()
            .wrapping_add(next() % 5)
            .saturating_sub(2);
        assert_eq!(
            is_below_1_3_times(a, b),
            f32::from_bits(a) < product,
            "{a:#x} {b:#x}"
        );
    }
}

#[test]
fn unbounded_sums_round_as_in_single_precision() {
    let mut state = 5_u64;
    let mut next = || {
        state = state
            .wrapping_mul(6364136223846793005)
            .wrapping_add(1442695040888963407);
        (state >> 32) as u32
    };
    for round in 0..60_000 {
        let a = match round % 3 {
            0 => 0x7e00_0000 + next() % 0x0180_0000,
            1 => 0x6c00_0000 + next() % 0x1380_0000,
            _ => next() % 0x7f80_0001,
        };
        let b = match round % 5 {
            0 => 0x7e00_0000 + next() % 0x0180_0000,
            1 => 0x6c00_0000 + next() % 0x1380_0000,
            2 => 0x7f7f_ffff - next() % 4,
            _ => next() % 0x7f80_0001,
        };
        let sum = f32::from_bits(a) + f32::from_bits(b);
        assert_eq!(wide_plus(a, b), sum.to_bits(), "{a:#x} {b:#x}");
    }
    assert_eq!(wide_plus(0x7fc0_0000, 0), f32::INFINITY.to_bits());
}

#[test]
fn residuals_are_checked() {
    let text = "FT8 list decoding requires 180000 finite residual samples";
    assert_eq!(check_residual(&[0; 179_999]), Err(text.to_string()));
    let mut pcm = vec![0_u32; 180_000];
    pcm[17] = 0x8000_0000;
    assert_eq!(check_residual(&pcm), Ok(true));
    pcm[179_999] = (-1.0e12_f32).to_bits();
    assert_eq!(check_residual(&pcm), Ok(false));
    for bad in [1.1e12_f32, f32::NAN, f32::NEG_INFINITY] {
        pcm[5] = bad.to_bits();
        assert_eq!(check_residual(&pcm), Err(text.to_string()));
    }
}

#[test]
fn stations_are_tried_in_order_and_then_the_contact() {
    let mut list = Ft8ListDecoder::new();
    list.begin_slot(4);
    for (text, hz) in [
        ("CQ K1ABC FN42", 497.4),
        ("CQ W9XYZ EN37", 497.5),
        ("W9XYZ G4ABC IO91", 1000.0),
        ("CQ G4ABC IO91", 1001.0),
        ("CQ N0AAA EM12", 2502.5),
        ("CQ N0BBB EM12", 2502.6),
    ] {
        remember(&mut list, text, hz);
    }
    list.begin_slot(6);
    let mut settings = DecodeSettings::default();
    settings.low_hz = 500.0_f32.to_bits();
    settings.high_hz = 2500.0_f32.to_bits();
    let go = |list: &mut Ft8ListDecoder, task, settings: &DecodeSettings| {
        next(task, list, settings, false, false, None)
    };
    // Nothing without assistance, in silence, or when cancelled.
    assert_eq!(go(&mut list, Task::Begin, &settings), Task::Finish);
    settings.assistance = true;
    settings.ap.mode = ftdecode::assistance::ApMode::Auto;
    assert_eq!(
        next(Task::Begin, &mut list, &settings, true, false, None),
        Task::Finish
    );
    assert_eq!(
        next(Task::Begin, &mut list, &settings, false, true, None),
        Task::Finish
    );
    assert_eq!(go(&mut list, Task::Begin, &settings), Task::Prepare);
    // The first is too far below the band.
    assert_eq!(go(&mut list, Task::Prepare, &settings), Task::Recall(1));
    assert_eq!(go(&mut list, Task::Recall(1), &settings), Task::Recall(2));
    // What is found suppresses the later entry of its transmitter.
    let found = station("W9XYZ G4ABC IO91", 1000.5);
    assert_eq!(
        next(Task::Recall(2), &mut list, &settings, false, false, Some(&found)),
        Task::Recall(4)
    );
    assert!(!list.previous().unwrap()[3].available);
    // The last is too far above the band, and no contact is described.
    assert_eq!(go(&mut list, Task::Recall(4), &settings), Task::Finish);
    settings.priority_hz = Some(2505.0_f32.to_bits());
    settings.ap.my_call = Some("W9XYZ".to_string());
    settings.ap.dx_call = Some("K1ABC".to_string());
    settings.ap.dx_grid = Some("FN42".to_string());
    assert_eq!(go(&mut list, Task::Recall(4), &settings), Task::Contact);
    assert_eq!(go(&mut list, Task::Contact, &settings), Task::Finish);
    settings.priority_hz = Some(2505.1_f32.to_bits());
    assert_eq!(go(&mut list, Task::Recall(4), &settings), Task::Finish);
    // A contact that was heard in this slot is not tried.
    settings.priority_hz = Some(2505.0_f32.to_bits());
    settings.ap.dx_call = Some("G4ABC".to_string());
    assert_eq!(go(&mut list, Task::Recall(4), &settings), Task::Finish);
    // Its best hypothesis stays within 5 Hz and the band.
    let best = |text: &str, hz: f32| {
        may_be_contact(text, 2498.0_f32.to_bits(), hz.to_bits(), &settings)
    };
    assert!(best("CQ K1ABC FN42", 2493.0));
    assert!(!best("CQ K1ABC FN42", 2492.9));
    assert!(!best("CQ K1ABC FN42", 2500.1));
    assert!(!best("", 2498.0));
}

#[test]
fn contacts_pass_five_tests() {
    let accepts = |hard, plog: f32, biggest: f32, ratio: f32| {
        accepts_contact(hard, plog.to_bits(), biggest.to_bits(), ratio.to_bits())
    };
    assert!(accepts(54, -159.0, 1e-30, 0.71));
    assert!(!accepts(55, -159.0, 1.0, 0.71));
    assert!(!accepts(54, -159.1, 1.0, 0.71));
    assert!(!accepts(54, f32::NAN, 1.0, 0.71));
    assert!(!accepts(54, f32::INFINITY, 1.0, 0.71));
    assert!(!accepts(54, -100.0, 0.0, 0.71));
    assert!(!accepts(54, -100.0, -0.0, 0.71));
    assert!(!accepts(54, -100.0, 1.0, 0.7099999));
    assert!(is_doubtful((-147.1_f32).to_bits()));
    assert!(!is_doubtful((-147.0_f32).to_bits()));
    assert!(is_usable_noise(0.1_f32.to_bits()));
    for bad in [0.0, -0.0, -1.0, f32::NAN, f32::INFINITY] {
        assert!(!is_usable_noise(bad.to_bits()));
    }
}
