use ftdecode::{
    assistance::{hypotheses, Activity, ApMode, ContactState},
    engine::{DecodeSettings, Mode},
    output::OutputFormat,
};

/// Whether a message of both stations is assumed.
fn contact(settings: &DecodeSettings, mode: Mode, frequency: f32) -> bool {
    hypotheses(settings, mode, frequency.to_bits())
        .iter()
        .any(|h| h.ap_type >= 3)
}

#[test]
fn rx_is_optional_and_does_not_change_search_band() {
    let mut settings = DecodeSettings {
        priority_hz: Some(1500.0_f32.to_bits()),
        ..DecodeSettings::default()
    };
    settings.ap.my_call = Some("K1ABC".into());
    settings.ap.dx_call = Some("W9XYZ".into());
    settings.ap.state = ContactState::Report;
    settings.validate().unwrap();
    assert_eq!((settings.low_hz, settings.high_hz), (200.0_f32.to_bits(), 3000.0_f32.to_bits()));
    assert!(settings.ap.targeted(1500.0_f32.to_bits(), settings.priority_hz));
    assert!(!settings.ap.targeted(1700.0_f32.to_bits(), settings.priority_hz));
    assert!(!settings.ap.targeted(1500.0_f32.to_bits(), None));
    settings.assistance = true;
    settings.ap.mode = ApMode::Auto;
    for mode in [Mode::Ft8, Mode::Ft4] {
        assert!(contact(&settings, mode, 1500.0));
        assert!(!contact(&settings, mode, 1700.0));
    }
    settings.priority_hz = None;
    assert!(!contact(&settings, Mode::Ft8, 1500.0));
}

#[test]
fn context_validation_rejects_bad_hints_and_width() {
    for call in ["", "has spaces", "K1ABC!", "abcdefghijklmn"] {
        let mut settings = DecodeSettings::default();
        settings.ap.my_call = Some(call.into());
        assert!(settings.validate().is_err(), "{call}");
    }
    let mut settings = DecodeSettings::default();
    settings.ap.dx_grid = Some("ZZ99".into());
    assert!(settings.validate().is_err());
    settings.ap.dx_grid = None;
    settings.ap.width_hz = f32::NAN.to_bits();
    assert!(settings.validate().is_err());
}

#[test]
fn ap_modes_and_contact_states_are_explicit() {
    assert_eq!(ApMode::default(), ApMode::Off);
    assert_eq!(DecodeSettings::default().ap.mode, ApMode::Off);
    assert!(!DecodeSettings::default().assistance);
    assert_eq!(DecodeSettings::default().ap_mode(), ApMode::Off);
    assert_eq!("auto".parse::<ApMode>().unwrap(), ApMode::Auto);
    assert_eq!("off".parse::<ApMode>().unwrap(), ApMode::Off);
    assert!("yes".parse::<ApMode>().is_err());
    assert_eq!(
        "roger-report".parse::<ContactState>().unwrap(),
        ContactState::RogerReport
    );
    assert!("unknown".parse::<ContactState>().is_err());
    let settings = DecodeSettings {
        assistance: false,
        ..DecodeSettings::default()
    };
    assert_eq!(settings.ap_mode(), ApMode::Off);
}

#[test]
fn brackets_on_supplied_calls_do_not_disable_contact_hypotheses() {
    for mode in [Mode::Ft8, Mode::Ft4] {
        let mut settings = DecodeSettings {
            assistance: true,
            priority_hz: Some(1500.0_f32.to_bits()),
            ..DecodeSettings::default()
        };
        settings.ap.mode = ApMode::Auto;
        settings.ap.my_call = Some("KA1ABC".into());
        settings.ap.dx_call = Some("W9XYZ".into());
        settings.ap.state = ContactState::Report;
        let expected = hypotheses(&settings, mode, 1500.0_f32.to_bits());
        assert!(!expected.is_empty());
        settings.ap.my_call = Some("<KA1ABC>".into());
        settings.ap.dx_call = Some("<W9XYZ>".into());
        settings.validate().unwrap();
        let actual = hypotheses(&settings, mode, 1500.0_f32.to_bits());
        assert_eq!(actual.len(), expected.len());
        for (actual, expected) in actual.iter().zip(&expected) {
            assert_eq!(actual.ap_type, expected.ap_type);
            assert_eq!(actual.bits, expected.bits);
            assert_eq!(actual.mask, expected.mask);
        }
    }
}

#[test]
fn names_that_are_none_are_told() {
    assert_eq!("yes".parse::<ApMode>(), Err("invalid ApMode: yes".to_string()));
    assert_eq!(
        "unknown".parse::<ContactState>(),
        Err("invalid ContactState: unknown".to_string())
    );
    assert_eq!("".parse::<Activity>(), Err("invalid Activity: ".to_string()));
    assert_eq!("field-day".parse::<Activity>(), Ok(Activity::FieldDay));
    assert_eq!(
        "csv".parse::<OutputFormat>(),
        Err("output format must be text or jsonl".to_string())
    );
}
