use ftdecode::message::{MessageDecoder, MessageError, MessageKind};
use ftdecode::message_encode::encode;

fn set(bits: &mut [bool; 77], start: usize, width: usize, value: u128) {
    for i in 0..width {
        bits[start + i] = value >> (width - 1 - i) & 1 != 0;
    }
}

fn named(text: &str) -> [bool; 77] {
    encode(text).unwrap()
}

fn free_text(text: &str) -> [bool; 77] {
    let alphabet = b" 0123456789ABCDEFGHIJKLMNOPQRSTUVWXYZ+-./?";
    let padded = format!("{text:<13}");
    let packed = padded.bytes().fold(0_u128, |n, c| {
        n * 42 + alphabet.iter().position(|x| *x == c).unwrap() as u128
    });
    let mut bits = [false; 77];
    set(&mut bits, 0, 71, packed);
    bits
}

fn call_field(call: &str) -> u128 {
    let bits = named(&format!("{call} W9XYZ RRR"));
    bits[..28].iter().fold(0, |n, b| n * 2 + *b as u128)
}

#[test]
fn rr73_is_an_acknowledgement_not_a_grid() {
    let mut decoder = MessageDecoder::default();
    let grid = decoder.unpack(&named("CQ K1ABC FN42")).unwrap();
    assert_eq!(grid.grid.as_deref(), Some("FN42"));
    let rr73 = decoder.unpack(&named("K1ABC W9XYZ RR73")).unwrap();
    assert_eq!(rr73.kind, MessageKind::Standard);
    assert_eq!(rr73.grid, None);
    // Both the grid-shaped value and the explicit acknowledgement value occur.
    let mut explicit = named("K1ABC W9XYZ RR73");
    for i in 0..15 {
        explicit[59 + i] = 32403 & (1 << (14 - i)) != 0;
    }
    let decoded = decoder.unpack(&explicit).unwrap();
    assert_eq!(decoded.text, "K1ABC W9XYZ RR73");
    assert_eq!(decoded.grid, None);
}

#[test]
fn cq_nonstandard_call_does_not_claim_an_unused_hash() {
    let message = MessageDecoder::default()
        .unpack(&named("CQ KH1/KH7Z"))
        .unwrap();
    assert!(message.hashes.is_empty());
}

#[test]
fn oldest_22_bit_hash_is_evicted_when_history_is_full() {
    let mut decoder = MessageDecoder::default();
    let old = decoder.remember_call("PJ4/K1ABC").unwrap()[2];
    let mut seen = std::collections::HashSet::from([old]);
    let mut probe = MessageDecoder::default();
    for n in 0..2000 {
        let call = format!(
            "K1{}{}{}",
            (b'A' + (n / 676) as u8) as char,
            (b'A' + (n / 26 % 26) as u8) as char,
            (b'A' + (n % 26) as u8) as char
        );
        let hash = probe.remember_call(&call).unwrap()[2];
        if seen.insert(hash) {
            decoder.remember_call(&call).unwrap();
        }
        if seen.len() == 1001 {
            break;
        }
    }
    assert_eq!(seen.len(), 1001);
    let message = decoder.unpack(&named("W9XYZ <PJ4/K1ABC> -11")).unwrap();
    assert_eq!(message.hashes[0].resolved, None);
}

#[test]
fn malformed_calls_and_reserved_token_values_are_rejected() {
    let mut decoder = MessageDecoder::default();
    for call in [
        "",
        "A",
        "<...>",
        "K1 ABC",
        "K1éBC",
        "ABCDEFGHIJKLMN",
        "<K1ABC",
    ] {
        assert!(decoder.remember_call(call).is_err(), "{call}");
    }
    let mut wire = named("CQ K1ABC FN42");
    for (i, bit) in wire[..28].iter_mut().enumerate() {
        *bit = 532444 & (1 << (27 - i)) != 0;
    }
    assert!(decoder.unpack(&wire).is_err());
}

#[test]
fn malformed_bit_patterns_do_not_panic() {
    let mut decoder = MessageDecoder::default();
    let mut state = 0x1234_5678_u64;
    for _ in 0..4096 {
        let payload = std::array::from_fn(|_| {
            state = state.wrapping_mul(6364136223846793005).wrapping_add(1);
            state >> 63 != 0
        });
        let _ = decoder.unpack(&payload);
    }
}

#[test]
fn unresolved_hashes_keep_numeric_identity_and_reset_clears_history() {
    let mut decoder = MessageDecoder::default();
    let wire = named("W9XYZ <PJ4/K1ABC> -11");
    let unresolved = decoder.unpack(&wire).unwrap();
    assert_eq!(unresolved.hashes.len(), 1);
    assert_eq!(unresolved.hashes[0].width, 22);
    assert_eq!(unresolved.hashes[0].resolved, None);
    let values = decoder.remember_call("PJ4/K1ABC").unwrap();
    assert_eq!(unresolved.hashes[0].value, values[2]);
    assert_eq!(
        decoder.unpack(&wire).unwrap().hashes[0].resolved.as_deref(),
        Some("PJ4/K1ABC")
    );
    decoder.reset();
    assert_eq!(decoder.unpack(&wire).unwrap().hashes[0].resolved, None);
}

#[test]
fn invalid_message_does_not_teach_a_callsign() {
    let mut decoder = MessageDecoder::default();
    // The first value behind the locators is no exchange.
    let mut boundary = named("CQ K1ABC FN42");
    set(&mut boundary, 59, 15, 32400);
    assert!(decoder.unpack(&boundary).is_err());
    let mut target = named("W9XYZ <PJ4/K1ABC> -11");
    let hash = MessageDecoder::default().remember_call("K1ABC").unwrap()[2];
    let field = 2_063_592 + hash;
    for i in 0..28 {
        target[29 + i] = field & (1 << (27 - i)) != 0;
    }
    assert_eq!(decoder.unpack(&target).unwrap().hashes[0].resolved, None);
}

#[test]
fn hashes_of_a_call_are_prefixes_of_each_other() {
    let mut decoder = MessageDecoder::default();
    let [a, b, c] = decoder.remember_call(" <pj4/k1abc> ").unwrap();
    assert_eq!((a, b, c), (346, 1387, 1420834));
    assert_eq!(a, b / 4);
    assert_eq!(b, c / 1024);
    assert_eq!(
        decoder.remember_call("K1 ABC"),
        Err(MessageError::InvalidCallsign)
    );
}

#[test]
fn free_text_and_telemetry_are_read_from_their_71_bits() {
    let mut decoder = MessageDecoder::default();
    let free = decoder.unpack(&free_text("TNX BOB 73 GL")).unwrap();
    assert_eq!(free.text, "TNX BOB 73 GL");
    assert_eq!(free.kind, MessageKind::FreeText);
    assert_eq!(
        decoder.unpack(&[false; 77]),
        Err(MessageError::InvalidField)
    );
    let mut telemetry = [false; 77];
    set(&mut telemetry, 0, 71, 0x12_3456_789a_bcde_f012);
    set(&mut telemetry, 71, 3, 5);
    let message = decoder.unpack(&telemetry).unwrap();
    assert_eq!(message.text, "123456789ABCDEF012");
    assert_eq!(message.kind, MessageKind::Telemetry);
}

#[test]
fn wspr_beacons_are_read_in_three_forms() {
    let mut decoder = MessageDecoder::default();
    let call = call_field("K1ABC");
    let mut plain = [false; 77];
    set(&mut plain, 0, 28, call);
    set(&mut plain, 28, 15, 10342);
    set(&mut plain, 43, 5, 11);
    set(&mut plain, 71, 3, 6);
    let message = decoder.unpack(&plain).unwrap();
    assert_eq!(message.text, "K1ABC FN42 37");
    assert_eq!(message.kind, MessageKind::Wspr);
    assert_eq!(message.grid.as_deref(), Some("FN42"));
    let mut compound = [false; 77];
    set(&mut compound, 0, 28, call);
    set(&mut compound, 28, 16, (25 * 36 + 19) * 36 + 4);
    set(&mut compound, 44, 5, 11);
    set(&mut compound, 49, 1, 1);
    set(&mut compound, 71, 3, 6);
    assert_eq!(decoder.unpack(&compound).unwrap().text, "PJ4/K1ABC 37");
    let mut hashed = [false; 77];
    let hash = MessageDecoder::default()
        .remember_call("PJ4/K1ABC")
        .unwrap()[2];
    set(&mut hashed, 0, 22, hash as u128);
    set(&mut hashed, 22, 25, 10342 * 625 + 26);
    set(&mut hashed, 48, 1, 1);
    set(&mut hashed, 71, 3, 6);
    // The compound call was just learned.
    assert_eq!(decoder.unpack(&hashed).unwrap().text, "<PJ4/K1ABC> FN42BB");
    set(&mut hashed, 47, 1, 1);
    assert_eq!(decoder.unpack(&hashed), Err(MessageError::InvalidField));
}

#[test]
fn unknown_types_and_bad_calls_are_told_apart() {
    let mut decoder = MessageDecoder::default();
    let mut reserved = [false; 77];
    set(&mut reserved, 74, 3, 6);
    assert_eq!(
        decoder.unpack(&reserved),
        Err(MessageError::UnsupportedType)
    );
    // The value right behind the hashes spells no call.
    let mut bad = named("K1ABC W9XYZ RRR");
    set(&mut bad, 0, 28, 2_063_592 + 4_194_304);
    assert_eq!(decoder.unpack(&bad), Err(MessageError::InvalidCallsign));
    // A CQ to a hashed call is refused.
    let mut cq = named("<PJ4/K1ABC> W9XYZ RRR");
    set(&mut cq, 0, 28, 2);
    set(&mut cq, 29, 28, 2_063_592 + 5);
    set(&mut cq, 59, 15, 32401);
    assert_eq!(decoder.unpack(&cq), Err(MessageError::InvalidField));
}

#[test]
fn encoded_messages_are_read_back() {
    for text in [
        "CQ K1ABC FN42",
        "CQ FD K1ABC FN42",
        "CQ 123 K1ABC FN42",
        "CQ DX K1ABC FN42",
        "QRZ K1ABC AA00",
        "DE K1ABC FN42",
        "K1ABC W9XYZ",
        "K1ABC W9XYZ EN37",
        "K1ABC W9XYZ R EN37",
        "W9XYZ K1ABC/R R FN42",
        "CQ G4ABC/P IO91",
        "K1ABC W9XYZ -50",
        "K1ABC W9XYZ R+49",
        "K1ABC W9XYZ RRR",
        "K1ABC W9XYZ RR73",
        "K1ABC W9XYZ 73",
        "W9XYZ K1ABC R 17B EMA",
        "W9XYZ K1ABC 1A WI",
        "TU; KA0DEF K1ABC R 569 MA",
        "KA0DEF K1ABC 599 0123",
        "CQ PJ4/K1ABC",
    ] {
        let mut decoder = MessageDecoder::default();
        let message = decoder.unpack(&named(text)).unwrap();
        assert_eq!(message.text, text);
    }
    for text in [
        "W9XYZ <PJ4/K1ABC> -11",
        "<PJ4/K1ABC> W9XYZ R-09",
        "<PJ4/K1ABC> <G4ABC/P> 570123 IO91NP",
        "<G4ABC/P> <PJ4/K1ABC> R 590001 AA00AA",
        "<G4ABC/P> PJ4/K1ABC RR73",
        "PJ4/K1ABC <G4ABC/P> 73",
        "K1ABC RR73; W9XYZ <PJ4/K1ABC> -08",
    ] {
        let mut decoder = MessageDecoder::default();
        decoder.remember_call("PJ4/K1ABC").unwrap();
        decoder.remember_call("G4ABC/P").unwrap();
        assert_eq!(decoder.unpack(&named(text)).unwrap().text, text);
    }
    // One call in Q is packed although it is not accepted back.
    assert_eq!(
        MessageDecoder::default().unpack(&named("QU1RK W9XYZ RRR")),
        Err(MessageError::InvalidCallsign)
    );
}

#[test]
fn plain_texts_come_back_with_their_fields() {
    for (text, grid, report) in [
        ("K1ABC W9XYZ", None, None),
        ("DE W9XYZ EN37", Some("EN37"), None),
        ("QRZ W9XYZ RRR", None, None),
        ("CQ W9XYZ EN37", Some("EN37"), None),
        ("K1ABC W9XYZ 73", None, None),
        ("K1ABC W9XYZ RR73", None, None),
        ("K1ABC W9XYZ AA00", Some("AA00"), None),
        ("K1ABC W9XYZ RR99", Some("RR99"), None),
        ("K1ABC W9XYZ -50", None, Some(-50)),
        ("K1ABC W9XYZ R-31", None, Some(-31)),
        ("K1ABC W9XYZ +00", None, Some(0)),
        ("K1ABC W9XYZ R+50", None, Some(50)),
    ] {
        let found = MessageDecoder::default().unpack(&encode(text).unwrap()).unwrap();
        assert_eq!(found.text, text);
        assert_eq!(found.kind, MessageKind::Standard);
        assert_eq!(found.grid.as_deref(), grid, "{text}");
        assert_eq!(found.fields.report_db, report, "{text}");
        assert!(found.hashes.is_empty());
    }
}

#[test]
fn a_received_sender_is_known_from_then_on() {
    for (text, call) in [
        ("W9XYZ K1ABC FN42", "K1ABC"),
        ("W9XYZ K1ABC/P R FN42", "K1ABC/P"),
        ("CQ G4ABC IO91", "G4ABC"),
    ] {
        let mut decoder = MessageDecoder::default();
        let first = decoder.unpack(&encode(text).unwrap()).unwrap();
        let sender = first.fields.sender.unwrap();
        assert_eq!(sender.call.as_deref(), Some(call));
        assert!(sender.hash.is_none());
        let later = format!("W9XYZ <{call}> -11");
        let found = decoder.unpack(&encode(&later).unwrap()).unwrap();
        assert_eq!(found.text, later);
        assert_eq!(found.hashes.len(), 1);
        assert_eq!(found.hashes[0].width, 22);
        assert_eq!(found.hashes[0].resolved.as_deref(), Some(call));
        // The station is what its hash resolves to, and its hash is in the list.
        let station = found.fields.sender.unwrap();
        assert_eq!(station.call, found.hashes[0].resolved);
        assert_eq!(station.hash.as_ref(), Some(&found.hashes[0]));
    }
}

#[test]
fn received_messages_are_plain_text_with_sound_hashes() {
    let mut state = 3_u64;
    let mut next = || {
        state = state
            .wrapping_mul(6364136223846793005)
            .wrapping_add(1442695040888963407);
        state >> 63 == 1
    };
    let mut decoder = MessageDecoder::default();
    let mut seen = 0;
    for _ in 0..20_000 {
        let mut bits: [bool; 77] = std::array::from_fn(|_| next());
        bits[74] = bits[74] && bits[75];
        let Ok(found) = decoder.unpack(&bits) else {
            continue;
        };
        seen += 1;
        assert!(found.text.len() <= 37 && found.text.bytes().all(|b| (32..127).contains(&b)));
        assert!(!found.text.starts_with("CQ <"));
        for hash in &found.hashes {
            assert!([10, 12, 22].contains(&hash.width));
            assert!(hash.value < 1 << hash.width);
        }
        for station in [&found.fields.sender, &found.fields.recipient] {
            let Some(station) = station else { continue };
            match &station.hash {
                Some(hash) => {
                    assert!(found.hashes.contains(hash));
                    assert_eq!(station.call, hash.resolved);
                }
                None => assert!(station.call.is_some()),
            }
            assert!(!station.call.as_deref().unwrap_or("").contains(['<', '>']));
        }
        let free = matches!(found.kind, MessageKind::FreeText | MessageKind::Telemetry);
        if free {
            assert!(found.grid.is_none() && found.hashes.is_empty());
            assert!(found.fields.sender.is_none() && found.fields.recipient.is_none());
        }
        if found.fields.report_db.is_some() || found.fields.cq_modifier.is_some() {
            assert_eq!(found.kind, MessageKind::Standard);
        }
        if found.fields.exchange_type.is_some() {
            assert!(matches!(
                found.kind,
                MessageKind::Standard | MessageKind::Nonstandard
            ));
        }
    }
    assert!(seen > 1000);
}

#[test]
fn contest_texts_come_back_with_their_hashes() {
    let mut decoder = MessageDecoder::default();
    decoder.remember_call("PJ4/K1ABC").unwrap();
    let read = |decoder: &mut MessageDecoder, text: &str| {
        decoder.unpack(&encode(text).unwrap()).unwrap()
    };
    let vhf = read(&mut decoder, "<PJ4/K1ABC> <W9XYZ> R 570007 JO22DB");
    assert_eq!(vhf.text, "<PJ4/K1ABC> <...> R 570007 JO22DB");
    assert_eq!(vhf.grid.as_deref(), Some("JO22DB"));
    assert_eq!((vhf.hashes[0].width, vhf.hashes[1].width), (12, 22));
    let dx = read(&mut decoder, "K1ABC RR73; W9XYZ <PJ4/K1ABC> -11");
    assert_eq!(dx.text, "K1ABC RR73; W9XYZ <PJ4/K1ABC> -12");
    assert_eq!(dx.hashes.len(), 1);
    assert_eq!(dx.hashes[0].width, 10);
    let day = read(&mut decoder, "W9XYZ K1ABC R 17B EMA");
    assert_eq!(day.text, "W9XYZ K1ABC R 17B EMA");
    assert!(day.hashes.is_empty() && day.grid.is_none());
    let rtty = read(&mut decoder, "TU; W9XYZ K1ABC R 579 MA");
    assert_eq!(rtty.text, "TU; W9XYZ K1ABC R 579 MA");
    assert!(rtty.hashes.is_empty());
    let long = read(&mut decoder, "<W9XYZ> PJ4/K1ABC RR73");
    assert_eq!(long.text, "<...> PJ4/K1ABC RR73");
    assert_eq!(long.hashes[0].width, 12);
}

#[test]
fn a_thousand_calls_stay_known() {
    let mut decoder = MessageDecoder::default();
    let mut known = std::collections::BTreeMap::new();
    let mut n = 0;
    while known.len() < 1001 {
        let letter = |k: usize| (b'A' + (k % 26) as u8) as char;
        let call = format!("K1{}{}{}", letter(n / 676), letter(n / 26), letter(n));
        n += 1;
        let hash = MessageDecoder::default().remember_call(&call).unwrap()[2];
        if !known.contains_key(&hash) {
            decoder.remember_call(&call).unwrap();
            known.insert(hash, (known.len(), call));
        }
    }
    for (place, call) in known.values() {
        let found = decoder
            .unpack(&encode(&format!("W9XYZ <{call}> -11")).unwrap())
            .unwrap();
        let expected = if *place == 0 { None } else { Some(call.clone()) };
        assert_eq!(found.hashes[0].resolved, expected);
    }
}
