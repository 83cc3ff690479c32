use ftdecode::{
    assistance::{hypotheses, Activity, ApHypothesis, ApMode, ContactState},
    engine::{DecodeSettings, Mode},
    message_encode::encode,
    symbols::scramble_ft4,
};

#[test]
fn contact_ap_requires_explicit_target_and_ft4_uses_rx_only() {
    let mut s = DecodeSettings {
        assistance: true,
        ..Default::default()
    };
    s.ap.mode = ApMode::Auto;
    s.ap.my_call = Some("W9XYZ".into());
    s.ap.dx_call = Some("K1ABC".into());
    s.ap.state = ContactState::RogerReport;
    for mode in [Mode::Ft8, Mode::Ft4] {
        assert!(hypotheses(&s, mode, 1500.0_f32.to_bits()).is_empty());
    }
    s.ap.tx_hz = Some(1500.0_f32.to_bits());
    assert_eq!(hypotheses(&s, Mode::Ft8, 1550.0_f32.to_bits()).len(), 4);
    assert!(hypotheses(&s, Mode::Ft4, 1500.0_f32.to_bits()).is_empty());
    s.priority_hz = Some(1500.0_f32.to_bits());
    assert_eq!(hypotheses(&s, Mode::Ft4, 1550.0_f32.to_bits()).len(), 2);
    assert!(hypotheses(&s, Mode::Ft4, 1550.1_f32.to_bits()).is_empty());
    s.ap.mode = ApMode::Off;
    assert!(hypotheses(&s, Mode::Ft8, 1500.0_f32.to_bits()).is_empty());
    s.ap.activity = Activity::Hound;
    assert!(hypotheses(&s, Mode::Ft8, 900.0_f32.to_bits()).is_empty());
    s.ap.mode = ApMode::Auto;
    s.assistance = false;
    assert!(hypotheses(&s, Mode::Ft4, 1500.0_f32.to_bits()).is_empty());
}

#[test]
fn call_hints_accept_native_hash_width_and_reject_malformed_delimiters() {
    let mut s = DecodeSettings::default();
    s.ap.known_calls.push("PJ4/K1ABC1234".into());
    assert!(s.validate().is_ok());
    for call in [
        "<K1ABC",
        "K1ABC>",
        "<<K1ABC>>",
        "/K1ABC",
        "K1ABC/",
        "K1/AB/C",
    ] {
        let mut s = DecodeSettings::default();
        s.ap.my_call = Some(call.into());
        assert!(s.validate().is_err(), "{call}");
    }
}

/// The value that a hypothesis gives a bit, as its likelihoods show it.
fn assumed(h: &ApHypothesis, i: usize) -> Option<bool> {
    let received = [0.5_f32.to_bits(); 174];
    let applied = h.apply(&received, 10.0_f32.to_bits());
    match f32::from_bits(applied[i]) {
        x if x == 10.0 => Some(true),
        x if x == -10.0 => Some(false),
        x => {
            assert_eq!(x, 0.5);
            None
        }
    }
}

fn contact(state: ContactState) -> DecodeSettings {
    let mut s = DecodeSettings {
        assistance: true,
        priority_hz: Some(900.0_f32.to_bits()),
        ..Default::default()
    };
    s.ap.mode = ApMode::Auto;
    s.ap.my_call = Some("W9XYZ".into());
    s.ap.dx_call = Some("K1ABC".into());
    s.ap.state = state;
    s
}

#[test]
fn masks_freeze_the_assumed_payload_bits() {
    let s = contact(ContactState::RogerReport);
    let rr73 = encode("W9XYZ K1ABC RR73").unwrap();
    let found = hypotheses(&s, Mode::Ft8, 900.0_f32.to_bits());
    assert_eq!(
        found.iter().map(|h| h.ap_type).collect::<Vec<_>>(),
        [3, 4, 5, 6]
    );
    let last = &found[3];
    assert_eq!(last.mask.iter().filter(|m| **m).count(), 77);
    for i in 0..77 {
        assert_eq!(assumed(last, i), Some(rr73[i]), "{i}");
    }
    assert_eq!(assumed(last, 77), None);
    let calls = &found[0];
    for i in 0..58 {
        assert_eq!(assumed(calls, i), Some(rr73[i]), "{i}");
    }
    assert_eq!(assumed(calls, 60), None);
    assert_eq!(
        (74..77).map(|i| assumed(calls, i)).collect::<Vec<_>>(),
        [Some(false), Some(false), Some(true)]
    );
}

#[test]
fn ft4_assumptions_are_scrambled_payload_bits() {
    let s = contact(ContactState::RogerReport);
    let rrr = scramble_ft4(&encode("W9XYZ K1ABC RRR").unwrap());
    let found = hypotheses(&s, Mode::Ft4, 900.0_f32.to_bits());
    let h = found.iter().find(|h| h.ap_type == 4);
    if let Some(h) = h {
        for i in 0..77 {
            assert_eq!(assumed(h, i), Some(rrr[i]), "{i}");
        }
    }
    assert_eq!(found.len(), 2);
}

#[test]
fn names_and_numbers_of_activities() {
    for (activity, name, native) in [
        (Activity::Normal, "normal", 0),
        (Activity::NaVhf, "na-vhf", 1),
        (Activity::EuVhf, "eu-vhf", 2),
        (Activity::FieldDay, "field-day", 3),
        (Activity::Rtty, "rtty", 4),
        (Activity::WwDigi, "ww-digi", 5),
        (Activity::Fox, "fox", 6),
        (Activity::Hound, "hound", 7),
        (Activity::ArrlDigi, "arrl-digi", 8),
    ] {
        assert_eq!(activity.name(), name);
        assert_eq!(activity.native(), native);
        assert_eq!(Activity::parse(name), Ok(activity));
    }
    assert!(Activity::parse("contest").is_err());
}

#[test]
fn settings_out_of_range_are_refused() {
    let good = DecodeSettings::default();
    assert!(good.validate().is_ok());
    let mut s = DecodeSettings::default();
    s.depth = 4;
    assert!(s.validate().is_err());
    let mut s = DecodeSettings::default();
    s.threads = 0;
    assert!(s.validate().is_err());
    let mut s = DecodeSettings::default();
    s.low_hz = 2960.0_f32.to_bits();
    assert!(s.validate().is_err());
    let mut s = DecodeSettings::default();
    s.high_hz = 5000.5_f32.to_bits();
    assert!(s.validate().is_err());
    let mut s = DecodeSettings::default();
    s.ap.tx_hz = Some(5001.0_f32.to_bits());
    assert!(s.validate().is_err());
    let mut s = DecodeSettings::default();
    s.ap.known_calls = vec!["K1ABC".to_string(); 401];
    assert!(s.validate().is_err());
}

#[test]
fn assumed_bits_take_the_magnitude_with_either_sign() {
    let settings = contact(ContactState::Report);
    let all = hypotheses(&settings, Mode::Ft8, 900.0_f32.to_bits());
    let received = [0.5_f32.to_bits(); 174];
    for h in &all {
        let plus = h.apply(&received, 10.0_f32.to_bits());
        let minus = h.apply(&received, (-10.0_f32).to_bits());
        for i in 0..174 {
            let (p, m) = (f32::from_bits(plus[i]), f32::from_bits(minus[i]));
            assert_eq!(m, if p == 0.5 { p } else { -p });
        }
    }
    assert!(!all.is_empty());
}
