use ftdecode::assistance::Activity;
use ftdecode::engine::{
    DecodeDiagnostics, DecodeSettings, DecodeStats, DecodedSignal, Decoder, Mode,
};
use ftdecode::fec::{self, Decoded};
use ftdecode::message::MessageDecoder;
use ftdecode::message_encode::encode;
use ftdecode::search::{
    accept_ft4, accept_ft8, count_sync, count_sync_ft4, ends_early, ft4_attempt, ft4_correction,
    ft4_osd, ft8_correction, Correction,
    ft4_passes, ft4_position, ft4_quality_suffices, ft4_segment, ft4_sync_suffices, ft8_attempts,
    ft8_passes, in_band, is_spurious, met_before, note_ft4, note_ft8, partition, sync_quality_ft4,
    sync_suffices, AcquisitionStage, Ft4Word, Identity, Merge, WorkerResults,
};
use ftdecode::quantities::{HZ_2_5, HZ_5, HZ_6_25, SECONDS_0_08};
use ftdecode::ft8_candidate::{self, Ft8Candidate};
use ftdecode::ft4_search::{self as ft4, Ft4Search};
use ftdecode::ft8_search::Task::{Acquire, Finish, Load, Prepare};
use ftdecode::ft8_search::{self as ft8, Ft8Search};
use ftdecode::single;
use ftdecode::symbols;

fn decoded(bits: [bool; 77], hard_errors: usize) -> Decoded {
    Decoded {
        message: bits,
        codeword: fec::encode(&bits),
        iterations: 4,
        hard_errors,
    }
}

#[test]
fn words_are_accepted_by_type_and_activity() {
    let cq = encode("CQ K1ABC FN42").unwrap();
    let mut messages = MessageDecoder::default();
    let found = accept_ft8(&decoded(cq, 36), &mut messages, Activity::Normal).unwrap();
    assert_eq!(found.text, "CQ K1ABC FN42");
    assert!(accept_ft8(&decoded(cq, 37), &mut messages, Activity::Normal).is_none());
    assert!(accept_ft8(&decoded([false; 77], 0), &mut messages, Activity::Normal).is_none());
    let rover = encode("W9XYZ K1ABC/R R FN42").unwrap();
    assert!(accept_ft8(&decoded(rover, 0), &mut messages, Activity::Normal).is_none());
    assert!(accept_ft8(&decoded(rover, 0), &mut messages, Activity::FieldDay).is_some());
    let mut reserved = cq;
    reserved[74..].copy_from_slice(&[true, true, false]);
    assert!(accept_ft8(&decoded(reserved, 0), &mut messages, Activity::FieldDay).is_none());
}

#[test]
fn ft4_words_are_descrambled() {
    let cq = encode("CQ K1ABC FN42").unwrap();
    let mut messages = MessageDecoder::default();
    let word = decoded(symbols::scramble_ft4(&cq), 0);
    match accept_ft4(&word, &mut messages) {
        Ft4Word::Accepted(bits, message) => {
            assert_eq!(bits, cq);
            assert_eq!(message.text, "CQ K1ABC FN42");
        }
        other => panic!("{other:?}"),
    }
    assert!(matches!(
        accept_ft4(&decoded([false; 77], 0), &mut messages),
        Ft4Word::Blank
    ));
    assert!(matches!(
        accept_ft4(
            &decoded(symbols::scramble_ft4(&[false; 77]), 0),
            &mut messages
        ),
        Ft4Word::Abandoned
    ));
}

#[test]
fn schedules_follow_the_depth() {
    assert_eq!((ft8_passes(1), ft8_passes(2)), (2, 3));
    assert_eq!((ft4_passes(1), ft4_passes(3)), (1, 3));
    assert_eq!(ft4_segment(0), (108, 560));
    assert_eq!(ft4_segment(1), (560, 1012));
    assert_eq!(ft4_segment(2), (-344, 108));
}

#[test]
fn sync_symbols_are_counted() {
    let tones = symbols::ft8(&fec::encode(&encode("CQ K1ABC FN42").unwrap()));
    assert_eq!(count_sync(&tones), 21);
    let mut shifted = tones;
    shifted[36] = 0;
    shifted[20] = 7;
    assert_eq!(count_sync(&shifted), 20);
    assert!(!sync_suffices(8, 2, false));
    assert!(sync_suffices(9, 2, true));
    assert!(sync_suffices(7, 3, false));
    assert!(!sync_suffices(7, 3, true));
    assert!(is_spurious(10, true));
    assert!(!is_spurious(11, true));
    assert!(!is_spurious(10, false));
}

fn at(bits: [bool; 77], frequency: f32, time: f32) -> Identity {
    Identity {
        bits,
        frequency: frequency.to_bits(),
        time: time.to_bits(),
    }
}

/// Runs an FT8 search whose candidates turn out to be the given signals in every
/// pass, and tells its tasks.
fn ft8_tasks(search: &mut Ft8Search, signals: &[Option<Identity>], stop: usize) -> Vec<ft8::Task> {
    let mut tasks = Vec::new();
    let mut outcome = ft8::Outcome::Nothing;
    loop {
        let task = search.step(tasks.len() >= stop, outcome);
        tasks.push(task);
        outcome = match task {
            ft8::Task::Finish => return tasks,
            ft8::Task::Acquire => ft8::Outcome::Count(signals.len()),
            ft8::Task::Examine(i) => match signals[i] {
                Some(signal) => ft8::Outcome::Signal(signal),
                None => ft8::Outcome::Nothing,
            },
            _ => ft8::Outcome::Nothing,
        };
    }
}

#[test]
fn a_silent_window_is_searched_twice_in_each_stage() {
    let mut search = Ft8Search::new(3, false);
    assert_eq!(
        ft8_tasks(&mut search, &[], usize::MAX),
        [
            Load(AcquisitionStage::Early),
            Acquire,
            Prepare,
            Acquire,
            Prepare,
            Load(AcquisitionStage::Final),
            Acquire,
            Prepare,
            Acquire,
            Prepare,
            Load(AcquisitionStage::Full),
            Acquire,
            Prepare,
            Acquire,
            Prepare,
            Finish
        ]
    );
    assert_eq!(search.stats.passes, 6);
    let mut shallow = Ft8Search::new(1, false);
    assert_eq!(
        ft8_tasks(&mut shallow, &[], usize::MAX),
        [
            Load(AcquisitionStage::Full),
            Acquire,
            Prepare,
            Acquire,
            Prepare,
            Finish
        ]
    );
}

#[test]
fn signals_are_reported_once_over_all_stages() {
    let a = encode("CQ K1ABC FN42").unwrap();
    let signals = [
        Some(at(a, 1000.0, 0.5)),
        None,
        Some(at(a, 1003.5, 0.57)),
        Some(at(a, 1012.5, 0.5)),
    ];
    let mut search = Ft8Search::new(3, false);
    let tasks = ft8_tasks(&mut search, &signals, usize::MAX);
    let reports = tasks
        .iter()
        .filter(|t| matches!(t, ft8::Task::Report))
        .count();
    assert_eq!(reports, 2);
    assert_eq!(search.stats.decoded, 2);
    assert_eq!(search.stats.passes, 9);
    assert_eq!(search.stats.candidates, 36);
    let saved = tasks
        .iter()
        .filter(|t| matches!(t, ft8::Task::Subtract { save: true, .. }))
        .count();
    assert_eq!(saved, 2);
    // The full stage subtracts each signal once, with refined timing.
    let refined = tasks
        .iter()
        .filter(|t| matches!(t, ft8::Task::Subtract { refined: true, .. }))
        .count();
    assert_eq!(refined, 2);
    let met = vec![at(a, 1000.0, 0.5)];
    assert!(met_before(&met, &at(a, 1006.0, 0.5), HZ_6_25, SECONDS_0_08));
    assert!(!met_before(&met, &at(a, 1006.25, 0.5), HZ_6_25, SECONDS_0_08));
}

#[test]
fn a_cancelled_search_reports_what_it_has_found_and_ends() {
    let a = encode("CQ K1ABC FN42").unwrap();
    let signals = [Some(at(a, 1000.0, 0.5))];
    for (stop, last) in [(0, 0), (1, 0), (4, 1), (5, 1)] {
        let mut search = Ft8Search::new(3, true);
        let tasks = ft8_tasks(&mut search, &signals, stop);
        assert_eq!(tasks.last(), Some(&ft8::Task::Finish));
        assert!(tasks.len() <= stop + 2);
        assert_eq!(search.stats.decoded, last, "{tasks:?}");
        assert!(search.stats.cancelled);
    }
}

#[test]
fn list_results_follow_the_passes_of_the_longer_stages() {
    let a = encode("CQ K1ABC FN42").unwrap();
    let mut search = Ft8Search::new(2, true);
    let mut outcome = ft8::Outcome::Nothing;
    let (mut lists, mut reports) = (0, 0);
    loop {
        let task = search.step(false, outcome);
        outcome = match task {
            ft8::Task::Finish => break,
            ft8::Task::List => {
                lists += 1;
                ft8::Outcome::Count(2)
            }
            ft8::Task::Offer(i) => ft8::Outcome::Signal(at(a, 1000.0 + 100.0 * i as f32, 0.5)),
            ft8::Task::ReportListed => {
                reports += 1;
                ft8::Outcome::Nothing
            }
            _ => ft8::Outcome::Nothing,
        };
    }
    assert_eq!((lists, reports), (2, 2));
    assert_eq!(search.stats.decoded, 2);
}

/// Runs an FT4 search whose candidates sync at the given powers and decode at the
/// given attempt.
fn ft4_tasks(search: &mut Ft4Search, signals: &[(f32, usize, Identity)]) -> Vec<ft4::Task> {
    let mut tasks = Vec::new();
    let mut outcome = ft4::Outcome::Nothing;
    loop {
        let task = search.step(false, outcome);
        tasks.push(task);
        outcome = match task {
            ft4::Task::Finish => return tasks,
            ft4::Task::Acquire => ft4::Outcome::Count(signals.len()),
            ft4::Task::Synchronize(_) => ft4::Outcome::Sync {
                power: signals[search.index].0.to_bits(),
                frequency: signals[search.index].2.frequency,
            },
            ft4::Task::Align => ft4::Outcome::Count(1),
            ft4::Task::Attempt(k) if k == signals[search.index].1 => {
                let signal = signals[search.index].2;
                ft4::Outcome::Signal {
                    bits: signal.bits,
                    time: signal.time,
                }
            }
            _ => ft4::Outcome::Nothing,
        };
    }
}

#[test]
fn ft4_signals_are_reported_once() {
    let a = encode("CQ K1ABC FN42").unwrap();
    let low = 200.0_f32.to_bits();
    let high = 3000.0_f32.to_bits();
    let signals = [
        (1.3, 0, at(a, 1000.0, 0.1)),
        (1.3, 3, at(a, 1005.9, 0.2)),
        (1.3, 2, at(a, 1006.0, 0.1)),
        (1.1, 0, at(a, 1500.0, 0.1)),
        (1.3, 0, at(a, 3000.5, 0.1)),
        (1.3, 4, at(a, 2000.0, 0.1)),
    ];
    let mut search = Ft4Search::new(3, low, high);
    let tasks = ft4_tasks(&mut search, &signals);
    let count = |task: fn(&ft4::Task) -> bool| tasks.iter().filter(|t| task(t)).count();
    assert_eq!(count(|t| matches!(t, ft4::Task::Report)), 2);
    // Nothing new in the second pass, so there is no third.
    assert_eq!(search.stats.passes, 2);
    assert_eq!(search.stats.decoded, 2);
    assert_eq!(search.stats.candidates, 12);
    assert_eq!(count(|t| matches!(t, ft4::Task::Subtract)), 6);
    // Weak sync and frequencies outside of the band are tried in all segments.
    assert_eq!(count(|t| matches!(t, ft4::Task::Synchronize(_))), 24);
    assert_eq!(count(|t| matches!(t, ft4::Task::Align)), 12);
    // Each is accepted at the frequency of its sync, within the band.
    let accepted: Vec<f32> = search
        .accepted
        .iter()
        .map(|s| f32::from_bits(s.frequency))
        .collect();
    assert_eq!(accepted, [1000.0, 1006.0]);
    let mut shallow = Ft4Search::new(1, low, high);
    let tasks = ft4_tasks(&mut shallow, &signals);
    assert!(!tasks.contains(&ft4::Task::Subtract));
    assert_eq!(shallow.stats.passes, 1);
    assert_eq!(shallow.stats.decoded, 2);
}

#[test]
fn a_word_that_is_no_message_gives_up_its_segment() {
    let mut search = Ft4Search::new(2, 0, 5000.0_f32.to_bits());
    let mut outcome = ft4::Outcome::Nothing;
    let mut attempts = 0;
    loop {
        let task = search.step(false, outcome);
        outcome = match task {
            ft4::Task::Finish => break,
            ft4::Task::Acquire => ft4::Outcome::Count(1),
            ft4::Task::Synchronize(segment) => ft4::Outcome::Sync {
                // The second segment is weaker than the first.
                power: [2.0_f32, 1.9, 2.0][segment].to_bits(),
                frequency: 1000.0_f32.to_bits(),
            },
            ft4::Task::Align => ft4::Outcome::Count(2),
            ft4::Task::Attempt(k) => {
                attempts += 1;
                if search.segment == 0 && k == 1 {
                    ft4::Outcome::Abandoned
                } else {
                    ft4::Outcome::Nothing
                }
            }
            _ => ft4::Outcome::Nothing,
        };
    }
    assert_eq!(attempts, 2 + 5);
    assert_eq!(search.stats.passes, 1);
    let mut stopped = Ft4Search::new(3, 0, 0);
    assert_eq!(stopped.step(true, ft4::Outcome::Nothing), ft4::Task::Finish);
    assert!(stopped.stats.cancelled);
}

#[test]
fn attempts_follow_the_metrics_and_hypotheses() {
    let plan = ft8_attempts(true, 3, false, 2);
    assert_eq!(plan.len(), 14);
    assert_eq!(
        plan.iter().map(|a| a.metric).collect::<Vec<_>>(),
        [0, 1, 2, 3, 4, 0, 1, 2, 3, 4, 0, 2, 0, 2]
    );
    assert!(plan[..5].iter().all(|a| a.squared && a.hypothesis.is_none()));
    assert!(plan[5..10].iter().all(|a| !a.squared));
    assert_eq!(
        plan[10..].iter().map(|a| a.hypothesis).collect::<Vec<_>>(),
        [Some(0), Some(0), Some(1), Some(1)]
    );
    assert_eq!(ft8_attempts(true, 2, true, 2).len(), 5);
    assert_eq!(ft8_attempts(false, 3, false, 1).len(), 7);
    assert_eq!((ft4_attempt(1).metric, ft4_attempt(1).hypothesis), (1, None));
    assert_eq!(
        (ft4_attempt(4).metric, ft4_attempt(4).hypothesis),
        (2, Some(1))
    );
}

#[test]
fn ft4_sync_groups_are_counted() {
    let word = fec::encode(&encode("CQ K1ABC FN42").unwrap());
    let tones = symbols::ft4(&word);
    let mut peaks: [u8; 103] = std::array::from_fn(|i| tones[i + 1]);
    assert_eq!(count_sync_ft4(&peaks), 16);
    let gray = [0u8, 1, 3, 2];
    let mut bits: [bool; 206] = std::array::from_fn(|i| {
        let value = gray[usize::from(peaks[i / 2])];
        value >> (1 - i % 2) & 1 != 0
    });
    assert_eq!(sync_quality_ft4(&bits), 32);
    for i in 0..174 {
        assert_eq!(bits[ft4_position(i)], word[i], "{i}");
    }
    peaks[0] = 3;
    bits[66] = !bits[66];
    assert_eq!(count_sync_ft4(&peaks), 15);
    assert_eq!(sync_quality_ft4(&bits), 31);
    assert!(ft4_sync_suffices(8) && !ft4_sync_suffices(7));
    assert!(ft4_quality_suffices(20) && !ft4_quality_suffices(19));
    assert_eq!(ft4_osd(None, 1500.0_f32.to_bits()), 2);
    assert_eq!(
        ft4_osd(Some(1550.0_f32.to_bits()), 1500.0_f32.to_bits()),
        3
    );
    assert_eq!(
        ft4_osd(Some(1550.1_f32.to_bits()), 1500.0_f32.to_bits()),
        2
    );
}

#[test]
fn late_starts_wait_for_the_last_samples() {
    for start in [-2.0_f32, 0.0, 0.5, 0.89, 0.8959999, 0.896, 0.8960001, 2.0] {
        assert_eq!(
            ends_early(start.to_bits()),
            start - 0.5 < 0.396,
            "{start}"
        );
    }
    let settings = DecodeSettings::default();
    for hz in [199.9_f32, 200.0, 3000.0, 3000.1, f32::NAN] {
        assert_eq!(
            in_band(&settings, hz.to_bits()),
            (200.0..=3000.0).contains(&hz),
            "{hz}"
        );
    }
}

#[test]
fn every_frequency_belongs_to_one_band() {
    let edges: Vec<u32> = [200.0_f32, 1133.3333, 2066.6667, 3000.0]
        .iter()
        .map(|e| e.to_bits())
        .collect();
    let bands = partition(&edges);
    assert_eq!(bands.len(), 3);
    for hz in [200.0_f32, 500.0, 1133.3333, 2066.6665, 2066.6667, 3000.0] {
        let owners = bands.iter().filter(|b| b.owns(hz.to_bits())).count();
        assert_eq!(owners, 1, "{hz}");
    }
    for hz in [199.99_f32, 3000.1, f32::NAN] {
        assert!(!bands.iter().any(|b| b.owns(hz.to_bits())), "{hz}");
    }
}

fn signal(frequency: f32, dt: f32) -> DecodedSignal {
    let bits = encode("W9XYZ <PJ4/K1ABC> -11").unwrap();
    DecodedSignal {
        source_bits: bits,
        message: MessageDecoder::default().unpack(&bits).unwrap(),
        frequency_hz: frequency.to_bits(),
        snr_db: -10,
        dt_seconds: dt.to_bits(),
        assisted: false,
        diagnostics: None,
    }
}

#[test]
fn workers_keep_the_signals_of_their_band() {
    let edges = vec![200.0_f32.to_bits(), 1600.0_f32.to_bits(), 3000.0_f32.to_bits()];
    let bands = partition(&edges);
    let mut results = WorkerResults::new();
    results.take(bands[0], signal(1600.0, 0.0));
    results.take(bands[0], signal(1599.9, 0.0));
    assert_eq!(results.found.len(), 1);
    for _ in 0..9000 {
        results.take(bands[0], signal(1000.0, 0.0));
    }
    assert_eq!(results.found.len(), 9000);
    assert!(results.overflow);
}

#[test]
fn merged_signals_are_delivered_once_with_the_stream_history() {
    let mut merge = Merge::new();
    let most = DecodeStats {
        candidates: usize::MAX,
        ..DecodeStats::default()
    };
    assert!(merge.has_room(&most));
    merge.count(DecodeStats {
        candidates: 3,
        passes: 2,
        decoded: 1,
        cancelled: false,
    });
    assert!(!merge.has_room(&most));
    merge.count(DecodeStats {
        candidates: 4,
        passes: 5,
        decoded: 6,
        cancelled: true,
    });
    let mut messages = MessageDecoder::default();
    messages.remember_call("PJ4/K1ABC").unwrap();
    let found = signal(1000.0, 0.1);
    assert_eq!(found.message.text, "W9XYZ <...> -11");
    let delivered = merge.deliver(&mut messages, found).unwrap();
    assert_eq!(delivered.message.text, "W9XYZ <PJ4/K1ABC> -11");
    assert!(merge.deliver(&mut messages, signal(1006.0, 0.15)).is_none());
    assert!(merge.deliver(&mut messages, signal(1006.5, 0.1)).is_some());
    let s = merge.stats;
    assert_eq!((s.candidates, s.passes, s.decoded), (7, 7, 2));
    assert!(s.cancelled);
}

#[test]
fn doubtful_decodes_are_questionable() {
    let mut d = DecodeDiagnostics::bp(&decoded([true; 77], 3));
    assert_eq!((d.bp_iterations, d.hard_errors, d.pass), (4, 3, 1));
    note_ft8(&mut d, Some(2), Some(0.16_f32.to_bits()));
    assert!(d.questionable);
    note_ft8(&mut d, Some(2), Some(0.17_f32.to_bits()));
    assert!(!d.questionable);
    note_ft8(&mut d, None, None);
    assert!(!d.questionable);
    note_ft4(&mut d, None, 0.17_f32.to_bits(), 3);
    assert!(d.questionable);
    assert_eq!(d.pass, 3);
    note_ft4(&mut d, None, 0.18_f32.to_bits(), 3);
    assert!(!d.questionable);
}

#[test]
fn bit_patterns_compare_as_their_values() {
    let values = [
        f32::NEG_INFINITY,
        -3.5,
        -f32::MIN_POSITIVE,
        -0.0,
        0.0,
        1e-45,
        0.17,
        49.999996,
        50.0,
        3000.0,
        f32::MAX,
        f32::INFINITY,
        f32::NAN,
    ];
    for a in values {
        let x = a.to_bits();
        assert_eq!(single::is_finite(x), a.is_finite(), "{a}");
        assert_eq!(single::is_zero(x), a == 0.0, "{a}");
        assert_eq!(single::is_positive(x), a > 0.0, "{a}");
        assert_eq!(single::is_negative(x), a < 0.0, "{a}");
        assert_eq!(single::is_at_least_zero(x), a >= 0.0, "{a}");
        for b in values {
            let y = b.to_bits();
            assert_eq!(single::is_less(x, y), a < b, "{a} {b}");
            assert_eq!(single::is_at_most(x, y), a <= b, "{a} {b}");
        }
    }
    for (low, high) in [
        (200.0_f32, 250.0_f32),
        (200.0, 249.99998),
        (200.00002, 250.0),
        (0.0, 50.0),
        (1e-30, 50.0),
        (0.001, 50.0),
        (0.000001, 50.0),
        (4950.0, 5000.0),
        (4950.0005, 5000.0),
        (3000.0, 200.0),
    ] {
        assert_eq!(
            single::is_narrower_than_50(low.to_bits(), high.to_bits()),
            high - low < 50.0,
            "{low} {high}"
        );
    }
}

#[test]
fn rounded_distances_compare_as_in_single_precision() {
    let mut state = 0x9e37_79b9_7f4a_7c15_u64;
    let mut next = || {
        state = state
            .wrapping_mul(6364136223846793005)
            .wrapping_add(1442695040888963407);
        (state >> 32) as u32
    };
    let mut near_misses = 0;
    for round in 0..60_000 {
        let (a, b, w) = match round % 4 {
            0 => (next(), next(), next()),
            1 => {
                let a = f32::from_bits(0x4400_0000 + next() % 0x0200_0000);
                let w = [4.0_f32, 6.25, 0.08, 50.0, 3.0][next() as usize % 5];
                let b = a + w;
                let b = f32::from_bits(b.to_bits().wrapping_add(next() % 5).wrapping_sub(2));
                (a.to_bits(), b.to_bits(), w.to_bits())
            }
            2 => {
                let e = 0x3000_0000 + next() % 0x2000_0000;
                (e, e ^ (next() & 0x8000_0fff), next() % 0x7f80_0000)
            }
            _ => {
                let w = 0x3d00_0000 + next() % 0x0600_0000;
                let b = next() % 0x0900_0000 + 0x3a00_0000;
                let sum = f32::from_bits(w) + f32::from_bits(b);
                (sum.to_bits().wrapping_add(next() % 3).wrapping_sub(1), b, w)
            }
        };
        let (x, y, width) = (f32::from_bits(a), f32::from_bits(b), f32::from_bits(w));
        let expected = (x - y).abs() <= width;
        assert_eq!(single::is_within(a, b, w), expected, "{x:e} {y:e} {width:e}");
        if w > 0 && width.is_finite() && width > 0.0 {
            let closer = (x - y).abs() < width;
            assert_eq!(single::is_closer_than(a, b, w), closer, "{x:e} {y:e} {width:e}");
            near_misses += usize::from(expected != closer);
        }
    }
    assert!(near_misses > 100, "{near_misses}");
    for (x, y, width) in [
        (f32::INFINITY, f32::INFINITY, f32::INFINITY),
        (f32::INFINITY, f32::NEG_INFINITY, f32::INFINITY),
        (f32::INFINITY, 0.0, f32::MAX),
        (f32::MAX, -f32::MAX, f32::MAX),
        (f32::MAX, -f32::MAX, f32::INFINITY),
        (0.0, -0.0, -0.0),
        (1e-45, 0.0, 0.0),
        (1.0, 1.0, f32::NAN),
        (f32::NAN, 1.0, 1.0),
        (1.0, 1.0, -1.0),
    ] {
        assert_eq!(
            single::is_within(x.to_bits(), y.to_bits(), width.to_bits()),
            (x - y).abs() <= width,
            "{x:e} {y:e} {width:e}"
        );
    }
}

/// Runs a candidate whose attempts below `first` give no message, and whose messages are as
/// faint as told.
fn candidate_tasks(
    candidate: &mut Ft8Candidate,
    frequency: f32,
    matches: usize,
    first: usize,
    faint: &[bool],
) -> Vec<ft8_candidate::Task> {
    let mut tasks = Vec::new();
    let mut outcome = ft8_candidate::Outcome::Nothing;
    let mut weighed = 0;
    loop {
        let task = candidate.step(false, outcome);
        tasks.push(task);
        outcome = match task {
            ft8_candidate::Task::Accept | ft8_candidate::Task::GiveUp => return tasks,
            ft8_candidate::Task::Refine => {
                ft8_candidate::Outcome::Frequency(frequency.to_bits())
            }
            ft8_candidate::Task::Align => ft8_candidate::Outcome::Symbols {
                matches,
                hypotheses: 1,
            },
            ft8_candidate::Task::Attempt(_) if candidate.attempt >= first => {
                ft8_candidate::Outcome::Message
            }
            ft8_candidate::Task::Weigh => {
                weighed += 1;
                ft8_candidate::Outcome::Strength {
                    faint: faint[weighed - 1],
                }
            }
            _ => ft8_candidate::Outcome::Nothing,
        };
    }
}

#[test]
fn candidates_are_tried_in_order_until_one_attempt_holds() {
    let low = 200.0_f32.to_bits();
    let high = 3000.0_f32.to_bits();
    let new = |early| Ft8Candidate::new(3, low, high, true, early);
    let attempts = |tasks: &[ft8_candidate::Task]| {
        tasks
            .iter()
            .filter(|t| matches!(t, ft8_candidate::Task::Attempt(_)))
            .count()
    };
    // All fail: ten unassisted attempts and two under the hypothesis.
    let tasks = candidate_tasks(&mut new(false), 1500.0, 9, usize::MAX, &[]);
    assert_eq!(attempts(&tasks), 12);
    assert_eq!(tasks.last(), Some(&ft8_candidate::Task::GiveUp));
    // No hypotheses in the early stage.
    let tasks = candidate_tasks(&mut new(true), 1500.0, 9, usize::MAX, &[]);
    assert_eq!(attempts(&tasks), 10);
    // Too few sync symbols, and a frequency outside the band.
    let tasks = candidate_tasks(&mut new(false), 1500.0, 7, 0, &[]);
    assert_eq!(attempts(&tasks), 0);
    let tasks = candidate_tasks(&mut new(false), 3000.5, 9, 0, &[]);
    assert!(!tasks.contains(&ft8_candidate::Task::Align));
    // A faint message with few sync matches is passed over; the next one is accepted.
    let mut candidate = new(false);
    let tasks = candidate_tasks(&mut candidate, 1500.0, 10, 3, &[true, false]);
    assert_eq!(attempts(&tasks), 5);
    assert_eq!(tasks.last(), Some(&ft8_candidate::Task::Accept));
    assert_eq!(candidate.attempt, 4);
    assert_eq!(f32::from_bits(candidate.frequency), 1500.0);
    let tasks = candidate_tasks(&mut new(false), 1500.0, 11, 3, &[true]);
    assert_eq!(tasks.last(), Some(&ft8_candidate::Task::Accept));
    // Cancelled before its first attempt.
    let mut candidate = new(false);
    candidate.step(false, ft8_candidate::Outcome::Nothing);
    candidate.step(true, ft8_candidate::Outcome::Frequency(low));
    let symbols = ft8_candidate::Outcome::Symbols {
        matches: 21,
        hypotheses: 0,
    };
    assert_eq!(candidate.step(true, symbols), ft8_candidate::Task::GiveUp);
}

#[test]
fn widened_bands_round_as_in_single_precision() {
    let mut state = 11_u64;
    let mut next = || {
        state = state
            .wrapping_mul(6364136223846793005)
            .wrapping_add(1442695040888963407);
        (state >> 33) as u32
    };
    for round in 0..40_000 {
        let low = f32::from_bits(next() % 0x459c_4001);
        let high = if round % 3 == 0 {
            (next() % 5001) as f32
        } else {
            f32::from_bits(next() % 0x459c_4001)
        };
        let pattern = if round % 2 == 0 { HZ_2_5 } else { HZ_5 };
        let margin = f32::from_bits(pattern);
        let end = if round % 4 < 2 {
            high + margin
        } else {
            (low - margin).max(0.0)
        };
        let value = end.to_bits().wrapping_add(next() % 5).saturating_sub(2);
        assert_eq!(
            single::is_in_widened(low.to_bits(), high.to_bits(), pattern, value),
            (low - margin..=high + margin).contains(&f32::from_bits(value)),
            "{low} {high} {margin} {value:#x}"
        );
    }
}

#[test]
fn invalid_threads_and_audio_are_rejected_even_when_cancelled() {
    let settings = |threads: usize| DecodeSettings {
        threads,
        low_hz: 1450.0_f32.to_bits(),
        high_hz: 1550.0_f32.to_bits(),
        assistance: false,
        depth: 1,
        ..DecodeSettings::default()
    };
    let mut decoder = Decoder::new(Mode::Ft8);
    for threads in [0, 13, usize::MAX] {
        assert!(decoder
            .begin(&vec![0.0_f32.to_bits(); 180000], &settings(threads))
            .is_err());
    }
    for audio in [
        vec![0.0_f32; 179999],
        vec![f32::NAN; 180000],
        vec![32769.0; 180000],
    ] {
        let patterns: Vec<u32> = audio.iter().map(|x| x.to_bits()).collect();
        assert!(decoder.begin(&patterns, &settings(2)).is_err());
    }
    assert!(decoder
        .begin(&vec![0.0_f32.to_bits(); 180000], &settings(2))
        .is_ok());
}

#[test]
fn error_correction_goes_by_depth() {
    let propagation = Correction::Propagation { iterations: 30 };
    let hybrid = |max_osd| Correction::Hybrid { max_osd, depth: 2 };
    assert_eq!([1, 2, 3].map(ft8_correction), [propagation, hybrid(2), hybrid(2)]);
    let rx = Some(1000.0_f32.to_bits());
    let near = 1050.0_f32.to_bits();
    let far = 1050.1_f32.to_bits();
    assert_eq!(ft4_correction(1, rx, near), propagation);
    assert_eq!(ft4_correction(2, rx, near), propagation);
    assert_eq!(ft4_correction(3, rx, near), hybrid(3));
    assert_eq!(ft4_correction(3, rx, far), hybrid(2));
    assert_eq!(ft4_correction(3, None, near), hybrid(2));
}
