use ftdecode::{
    message::{MessageDecoder, MessageError},
    message_encode::encode,
};

#[test]
fn rejects_unsupported_fields_and_out_of_range_inputs() {
    for text in [
        "",
        "HELLO WORLD",
        "0123456789ABC",
        "K1ABC FN42 37",
        "CQ <PJ4/K1ABC> FN42",
        "CQ K1ABC R FN42",
        "CQ K1ABC RR73",
        "K1ABC W9XYZ -51",
        "K1ABC W9XYZ +51",
        "K1ABC W9XYZ R",
        "K1ABC W9XYZ RRR EXTRA",
        "K1ABC W9XYZ FN42AA",
        "K1ABC W9XYZ 0A WI",
        "K1ABC W9XYZ 33A WI",
        "K1ABC W9XYZ 1I WI",
        "K1ABC W9XYZ 599 8000",
        "<PA9XYZ> <G4ABC/P> 592048 RR99XX",
        "<...> W9XYZ RRR",
        "<ABCDEFGHIJKL> W9XYZ RRR",
        "CQ ABCDEFGHIJKL",
        "K1ABC W9XYZ/R/P FN42",
        "CQ K1ABC ☃",
        "K1ABC\0 W9XYZ RRR",
        "K1ABC W9XYZ +1,2",
        "<K1ABC W9XYZ RRR",
    ] {
        assert!(encode(text).is_err(), "accepted {text:?}");
    }
    assert!(encode(&"A".repeat(1_000_000)).is_err());
}

#[test]
fn dxpedition_reports_preserve_native_two_db_resolution() {
    let mut decoder = MessageDecoder::default();
    decoder.remember_call("KH1/KH7Z").unwrap();
    for (input, expected) in [
        ("-30", "-30"),
        ("-29", "-30"),
        ("-12", "-12"),
        ("-11", "-12"),
        ("-01", "-02"),
        ("+00", "+00"),
        ("+01", "+00"),
        ("+11", "+10"),
        ("+31", "+30"),
        ("+32", "+32"),
    ] {
        let text = format!("K1ABC RR73; W9XYZ <KH1/KH7Z> {input}");
        let bits = encode(&text).unwrap();
        assert_eq!(
            decoder.unpack(&bits).unwrap().text,
            format!("K1ABC RR73; W9XYZ <KH1/KH7Z> {expected}"),
            "{text}",
        );
    }
    for report in ["-31", "+33"] {
        assert!(encode(&format!("K1ABC RR73; W9XYZ <KH1/KH7Z> {report}")).is_err());
    }
}

#[test]
fn each_error_has_its_inputs() {
    assert_eq!(encode("K1ABC\tW9XYZ RRR"), Err(MessageError::InvalidField));
    assert_eq!(encode("K1ABC"), Err(MessageError::UnsupportedType));
    assert_eq!(
        encode("K1ABC ABCDEFGHIJKLMN"),
        Err(MessageError::UnsupportedType)
    );
    assert_eq!(
        encode("K1 RR73; W9XYZ <K1ABC> -10"),
        Err(MessageError::InvalidCallsign)
    );
    assert_eq!(
        encode("CQ TOOLONG K1ABC FN42"),
        Err(MessageError::InvalidField)
    );
}

#[test]
fn case_and_repeated_spaces_are_normalized() {
    assert_eq!(encode("  cq   k1abc  fn42 "), encode("CQ K1ABC FN42"));
}

#[test]
fn fields_stand_at_their_bits() {
    let text: String = encode("CQ K1ABC FN42")
        .unwrap()
        .iter()
        .map(|&b| if b { '1' } else { '0' })
        .collect();
    assert_eq!(
        text,
        "00000000000000000000000000100000010011011110111100011010100010100001100110001"
    );
}

#[test]
fn neither_case_nor_spacing_changes_a_payload() {
    for text in [
        "  cq   k1abc fn42 ",
        "w9xyz  <pj4/k1abc>   -11",
        "cq  TEST  K1abc fn42",
        "K1ABC rr73; w9xyz <kh1/kh7z>  -08",
        "not   a Message",
    ] {
        let tidy = text
            .to_uppercase()
            .split_whitespace()
            .collect::<Vec<_>>()
            .join(" ");
        assert_eq!(encode(text), encode(&tidy), "{text}");
    }
    let long = format!("CQ K1ABC{}FN42", " ".repeat(26));
    assert_eq!(long.len(), 38);
    assert_eq!(encode(&long), Err(MessageError::InvalidField));
    assert_eq!(encode("CQ K1ABC\tFN42"), Err(MessageError::InvalidField));
}
