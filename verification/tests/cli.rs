use ftdecode::assistance::ApMode;
use ftdecode::audio_input::Channel;
use ftdecode::cli::{decode_request, slot_origin, DecodeRequest, Origin};
use ftdecode::commands::{command, serve_request, Command};
use ftdecode::engine::Mode;
use ftdecode::ingress::Ingress;
use ftdecode::json::{Json, Number};
use ftdecode::output::OutputFormat;
use ftdecode::protocol;
use ftdecode::record::Field;
use ftdecode::session::{Action, Session};
use ftdecode::start::{input_json, shows_input, start_json};
use ftdecode::wav::{SampleEncoding, WavFormat};
use ftdecode::wav_cli::{seconds_offset, source_offset};
use serde_json::Value;

fn strings(args: &[&str]) -> Vec<String> {
    args.iter().map(|a| a.to_string()).collect()
}

fn request(args: &[&str]) -> Result<DecodeRequest, String> {
    let args = strings(args);
    let singles = args
        .iter()
        .map(|a| a.parse::<f32>().ok().map(f32::to_bits))
        .collect();
    decode_request(&args, &singles)
}

fn value(field: &Field) -> Value {
    match field {
        Field::Null => Value::Null,
        Field::Flag(flag) => Value::from(*flag),
        Field::Integer(n) => Value::from(*n),
        Field::Count(n) => Value::from(*n),
        Field::Single(bits) => Value::from(f32::from_bits(*bits)),
        Field::Milliseconds(nanoseconds) => Value::from(*nanoseconds as f64 / 1e6),
        Field::Text(text) => Value::from(text.as_str()),
        Field::List(items) => Value::Array(items.iter().map(value).collect()),
        Field::Record(entries) => Value::Object(
            entries
                .iter()
                .map(|(name, field)| (name.to_string(), value(field)))
                .collect(),
        ),
    }
}

fn document(value: &Value) -> Json {
    match value {
        Value::Null => Json::Null,
        Value::Bool(flag) => Json::Bool(*flag),
        Value::Number(n) => Json::Number(Number {
            unsigned: n.as_u64(),
            single: (n.as_f64().unwrap() as f32).to_bits(),
        }),
        Value::String(text) => Json::Text(text.clone()),
        Value::Array(items) => Json::Array(items.iter().map(document).collect()),
        Value::Object(entries) => Json::Object(
            entries
                .iter()
                .map(|(k, v)| (k.clone(), document(v)))
                .collect(),
        ),
    }
}

#[test]
fn options_make_a_request() {
    let r = request(&[
        "a.wav",
        "--mode",
        "ft4",
        "--min-hz",
        "250.5",
        "--max-hz",
        "2500",
        "--rx-freq",
        "1500",
        "--ap",
        "auto",
        "--my-call",
        " k1abc ",
        "--dx-grid",
        "en37",
        "--known-call",
        "w9xyz",
        "--depth",
        "2",
        "--channel",
        "mix",
        "--output",
        "jsonl",
        "-v",
        "--stats",
        "--slot-offset-samples",
        "7",
    ])
    .unwrap();
    assert_eq!(r.path, "a.wav");
    assert_eq!(r.mode, Mode::Ft4);
    assert_eq!(f32::from_bits(r.settings.low_hz), 250.5);
    assert_eq!(r.settings.priority_hz.map(f32::from_bits), Some(1500.0));
    assert_eq!(r.settings.ap.mode, ApMode::Auto);
    assert!(r.settings.assistance);
    assert_eq!(r.settings.ap.my_call.as_deref(), Some("K1ABC"));
    assert_eq!(r.settings.ap.dx_grid.as_deref(), Some("EN37"));
    assert_eq!(r.settings.ap.known_calls, ["W9XYZ"]);
    assert_eq!(r.settings.depth, 2);
    assert!(matches!(r.channel, Channel::Mix));
    assert_eq!(r.output.format, OutputFormat::Jsonl);
    assert_eq!(r.output.verbosity, 1);
    assert!(r.output.stats);
    assert_eq!(r.relative, Some(7));
}

#[test]
fn options_are_checked_in_order() {
    for (args, error) in [
        (vec![], "decode requires a WAV path"),
        (vec!["--mode"], "decode requires a WAV path"),
        (vec!["a", "--mode"], "missing option value"),
        (vec!["a", "--mode", "ft9"], "mode must be ft8 or ft4"),
        (vec!["a", "--min-hz", "x"], "invalid minimum frequency: x"),
        (vec!["a", "--depth", "300"], "invalid depth: 300"),
        (vec!["a", "--loud"], "unknown decode option: --loud"),
        (
            vec!["a", "--start-utc-ns", "1", "--start-utc-ns", "2"],
            "UTC specified twice",
        ),
        (
            vec!["a", "--start-utc-ns", "1", "--slot-offset-samples", "2"],
            "choose exactly one of --start-utc-ns, --slot-offset-samples, or --slot-offset-seconds",
        ),
        (vec!["a", "--channel", "top"], "channel must be left, right, or mix"),
        (vec!["a", "--output", "csv"], "output must be text or jsonl"),
    ] {
        assert_eq!(request(&args).unwrap_err(), error);
    }
    let mut args = vec!["a"];
    for _ in 0..400 {
        args.extend(["--known-call", "K1ABC"]);
    }
    assert!(request(&args).is_ok());
    args.extend(["--known-call", "K1ABC"]);
    assert_eq!(request(&args).unwrap_err(), "at most 400 known calls");
}

#[test]
fn maximum_known_calls_fit_the_wav_start_frame() {
    let mut args = vec!["a", "--ap", "off", "--quiet"];
    for _ in 0..400 {
        args.extend(["--known-call", " <K1ABCDEFGHIJK> "]);
    }
    let r = request(&args).unwrap();
    let header = serde_json::to_vec(&value(&start_json(
        r.mode,
        &r.settings,
        Origin::Offset(u64::MAX),
    )))
    .unwrap();
    assert!(protocol::frame(&header).is_ok(), "{}", header.len());
    assert_eq!(protocol::read_header(&header), Ok(0));
    args.extend(["--known-call", "K1ABC"]);
    assert!(request(&args).unwrap_err().contains("400"));
}

#[test]
fn slots_start_where_the_request_says() {
    let short = request(&["a"]).unwrap();
    assert_eq!(slot_origin(&short, 180_000, 12_000), Ok(Origin::Offset(0)));
    assert_eq!(slot_origin(&short, 720_000, 48_000), Ok(Origin::Offset(0)));
    assert!(slot_origin(&short, 180_001, 12_000).is_err());
    let utc = request(&["a", "--start-utc-ns", "5"]).unwrap();
    assert_eq!(slot_origin(&utc, 900_000, 12_000), Ok(Origin::Utc(5)));
    let frames = request(&["a", "--slot-offset-samples", "5"]).unwrap();
    assert_eq!(slot_origin(&frames, 900_000, 48_000), Ok(Origin::Offset(2)));
    let seconds = request(&["a", "--slot-offset-seconds", "0.25"]).unwrap();
    assert_eq!(
        slot_origin(&seconds, 900_000, 48_000),
        Ok(Origin::Offset(3000))
    );
    let far = request(&["a", "--slot-offset-samples", "18446744073709551615"]).unwrap();
    assert_eq!(
        slot_origin(&far, 1, 11_999),
        Err("slot offset exceeds decoder sample range".to_string())
    );
}

#[test]
fn offsets_round_up_to_whole_samples() {
    assert_eq!(source_offset(0, 44_100), Ok(0));
    assert_eq!(source_offset(1, 44_100), Ok(1));
    assert_eq!(source_offset(44_100, 44_100), Ok(12_000));
    assert_eq!(source_offset(44_101, 44_100), Ok(12_001));
    assert!(source_offset(1, 0).is_err());
    assert!(source_offset(u64::MAX, 11_999).is_err());
    assert_eq!(seconds_offset("1"), Ok(12_000));
    assert_eq!(seconds_offset("0.000083333"), Ok(1));
    assert_eq!(seconds_offset("0.000083334"), Ok(2));
    for bad in ["", ".", "-1", "+1", "1e3", "1.0000000000", "1.2.3", " 1"] {
        assert!(seconds_offset(bad).is_err(), "{bad}");
    }
    assert!(seconds_offset("18446744073709551616").is_err());
    assert!(seconds_offset("18446744073709551615").is_err());
}

#[test]
fn start_commands_open_a_session_with_the_same_settings() {
    let r = request(&[
        "a",
        "--min-hz",
        "250.1",
        "--rx-freq",
        "1500.7",
        "--ap",
        "cq",
        "--my-call",
        "k1abc",
        "--dx-grid",
        "fn42",
        "--known-call",
        " pj4/k1abc ",
        "--activity",
        "hound",
        "--qso-state",
        "signoff",
        "--threads",
        "3",
        "--start-utc-ns",
        "7499999999",
    ])
    .unwrap();
    let origin = slot_origin(&r, 900_000, 12_000).unwrap();
    let written = value(&start_json(r.mode, &r.settings, origin));
    let bytes = serde_json::to_vec(&written).unwrap();
    let read: Value = serde_json::from_slice(&bytes).unwrap();
    let session = Session::new(&document(&read), None).unwrap();
    assert_eq!(
        format!("{:?}", session.settings),
        format!("{:?}", r.settings)
    );
    assert_eq!(session.utc, Some(7_499_999_999));
    assert_eq!(session.next, 90_001);
    assert!(!session.live);
    let mut ingress = Ingress::new(true);
    let handled = ingress.command(&document(&read), &[]);
    assert!(matches!(
        handled.actions[0],
        Action::Reset {
            mode: Mode::Ft8,
            command: "start",
            utc: Some(7_499_999_999),
            live: false
        }
    ));
}

#[test]
fn files_are_described() {
    let format = WavFormat {
        sample_rate: 48_000,
        channels: 2,
        encoding: SampleEncoding::PcmInteger,
        bits_per_sample: 24,
        valid_bits_per_sample: 20,
    };
    let v = value(&input_json(format, Channel::Mix, 480_000, 120_000));
    assert_eq!(v["type"], "input");
    assert_eq!(v["source_rate"], 48_000);
    assert_eq!(v["valid_bits_per_sample"], 20);
    assert_eq!(v["sample_format"], "PCM");
    assert_eq!(v["channel"], "mix");
    assert_eq!(v["output_frames"], "120000");
    let mono = WavFormat {
        channels: 1,
        encoding: SampleEncoding::Float,
        ..format
    };
    let v = value(&input_json(mono, Channel::Mix, 1, 0));
    assert_eq!(v["channel"], "mono");
    assert_eq!(v["sample_format"], "float");
    assert!(shows_input(&request(&["a"]).unwrap().output));
    assert!(!shows_input(&request(&["a", "--output", "jsonl"]).unwrap().output));
}

#[test]
fn commands_are_told_apart() {
    for (args, expected) in [
        (vec![], Command::Help),
        (vec!["-h"], Command::Help),
        (vec!["--version"], Command::Version),
        (vec!["decode", "a"], Command::Decode),
        (vec!["serve"], Command::Serve),
        (vec!["stdio"], Command::Stdio),
        (
            vec!["stdio", "x"],
            Command::Unknown("unknown command or options: stdio; use --help".to_string()),
        ),
    ] {
        assert_eq!(command(&strings(&args)), expected);
    }
}

#[test]
fn servers_stay_on_the_loopback() {
    let ask = |args: &[&str]| {
        let loopback = args
            .iter()
            .map(|a| match *a {
                "127.0.0.1:0" => Some(true),
                "0.0.0.0:7373" => Some(false),
                _ => None,
            })
            .collect();
        serve_request(&strings(args), &loopback)
    };
    let r = ask(&["--bind", "127.0.0.1:0", "--once"]).unwrap();
    assert_eq!((r.address, r.once), (Some(1), true));
    assert_eq!(
        ask(&["--bind", "0.0.0.0:7373"]),
        Err("only localhost loopback addresses are supported".to_string())
    );
    assert_eq!(
        ask(&["--bind", "here"]),
        Err("invalid listen address: here".to_string())
    );
    assert_eq!(ask(&["--bind"]), Err("missing option value".to_string()));
    assert_eq!(
        ask(&["--public"]),
        Err("unknown serve option: --public".to_string())
    );
}
