use ftdecode::protocol::{check_header, frame, header_length, prefixed, read_header};
use ftdecode::wav_cli::{FrameAssembler, JsonLines, Progress};
use serde_json::Value;

/// The headers of a run of frames that is handed over in pieces.
fn collect(bytes: &[u8], piece: usize) -> Vec<Value> {
    let mut assembler = FrameAssembler::new();
    let mut headers = Vec::new();
    for part in bytes.chunks(piece) {
        let (found, sound) = assembler.take_in(part);
        assert!(sound);
        headers.extend(found.iter().map(|h| serde_json::from_slice::<Value>(h).unwrap()));
    }
    assert!(assembler.pending.is_empty() && assembler.header_len.is_none());
    headers
}

#[test]
fn fragmented_and_coalesced_frames() {
    let mut bytes = frame(br#"{"type":"finish"}"#).unwrap();
    bytes.extend(frame(br#"{"type":"reset","slot_offset_samples":"0"}"#).unwrap());
    for piece in [1, 7, bytes.len()] {
        let headers = collect(&bytes, piece);
        assert_eq!(headers.len(), 2);
        assert_eq!(headers[0]["type"], "finish");
        assert_eq!(headers[1]["type"], "reset");
    }
}

#[test]
fn reject_lengths_before_reading_payload() {
    for length in [0u32, 8193, u32::MAX] {
        assert!(header_length(&length.to_le_bytes()).is_err());
    }
    for header in [
        r#"{"type":"audio","payload_bytes":24002}"#,
        r#"{"type":"audio","payload_bytes":3}"#,
        r#"{"type":"finish","payload_bytes":2}"#,
        r#"{"type":"audio","payload_bytes":-1}"#,
        r#"{"type":"audio","payload_bytes":1.5}"#,
    ] {
        assert!(read_header(header.as_bytes()).is_err(), "{header}");
    }
}

#[test]
fn headers_name_their_payload() {
    assert_eq!(header_length(&[0, 0x20, 0, 0]), Ok(8192));
    assert_eq!(
        read_header(br#"{"type":"audio","payload_bytes":24000}"#),
        Ok(24000)
    );
    assert_eq!(
        read_header(br#"{"type":"finish"}"#),
        Err("payload_bytes must be a nonnegative integer".to_string())
    );
    assert_eq!(
        read_header(br#"{"type":"finish","payload_bytes":0}"#),
        Ok(0)
    );
    assert!(read_header(br#"{"type":7}"#).is_err());
    assert!(read_header(br#"{"kind":"finish"}"#).is_err());
    assert!(read_header(b"{").is_err());
    assert_eq!(
        check_header(Ok((Some("audio".to_string()), Some(6)))),
        Ok(6)
    );
    assert!(check_header(Ok((None, Some(6)))).is_err());
}

#[test]
fn frames_carry_their_length() {
    assert_eq!(frame(b"{}"), Ok(vec![2, 0, 0, 0, b'{', b'}']));
    assert!(frame(&[b' '; 8193]).is_err());
    assert!(frame(&[b' '; 8192]).is_ok());
    let mut assembler = FrameAssembler::new();
    assert!(matches!(
        assembler.push(&[0, 0, 0, 0]).1,
        Progress::BadLength
    ));
}

#[test]
fn output_lines_note_errors() {
    let mut lines = JsonLines::new();
    lines.line(br#"{"type":"ready","payload_bytes":0}"#).unwrap();
    assert!(!lines.error_flag());
    lines.line(br#"{"type":"done","status":"failed","payload_bytes":0}"#).unwrap();
    assert!(lines.error_flag());
    lines.line(br#"{"type":"done","status":"complete","payload_bytes":0}"#).unwrap();
    assert!(lines.error_flag());
    assert!(JsonLines::new().line(b"[").is_err());
    assert_eq!(
        lines.line(br#"{"type":"audio","payload_bytes":2}"#),
        Err("unexpected binary result".to_string())
    );
    let mut lines = JsonLines::new();
    lines
        .line(br#"{"type":"error","payload_bytes":0}"#)
        .unwrap();
    assert!(lines.error_flag());
}

#[test]
fn a_long_header_is_prefixed_but_not_framed() {
    let header = vec![b' '; 0x01_0203];
    let bytes = prefixed(&header);
    assert_eq!(bytes[..4], [3, 2, 1, 0]);
    assert_eq!(bytes[4..], header);
    assert!(frame(&header).is_err());
    assert_eq!(frame(b"{}").unwrap(), prefixed(b"{}"));
}

#[test]
fn headers_before_a_bad_length_are_handed_out() {
    let mut bytes = frame(b"{}").unwrap();
    bytes.extend(frame(b"[1]").unwrap());
    bytes.extend([1, 0x20, 0, 0]);
    bytes.extend(frame(b"[2]").unwrap());
    let mut assembler = FrameAssembler::new();
    let (headers, sound) = assembler.take_in(&bytes);
    assert_eq!(headers, [b"{}".to_vec(), b"[1]".to_vec()]);
    assert!(!sound);
}
