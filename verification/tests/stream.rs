use ftdecode::assistance::ApMode;
use ftdecode::engine::{DecodeSettings, DecodeStats, DecodedSignal, Mode};
use ftdecode::ingress::{replace_waiting, when_crowded, Crowded, Ingress};
use ftdecode::json::{Json, Number};
use ftdecode::message::{CallsignHash, Message, MessageFields, MessageKind};
use ftdecode::protocol::{self, Split};
use ftdecode::record::{server_header, Field};
use ftdecode::session::{Action, Window};
use ftdecode::worker::{
    detailed_signal_json, done, done_json, error_json, ok_json, warning_json, Event, Offer, Step,
    WavOptions, Worker,
};
use serde_json::Value;

type Publish<'a> = &'a mut dyn FnMut(DecodedSignal);
type Backend<'a> =
    &'a mut dyn FnMut(Mode, &[f32], &DecodeSettings, Publish) -> Result<DecodeStats, String>;
type Calls = Vec<(Mode, usize, u8, f32)>;

fn json(text: &str) -> Value {
    serde_json::from_str(text).unwrap()
}

fn command(value: &Value) -> Json {
    match value {
        Value::Null => Json::Null,
        Value::Bool(flag) => Json::Bool(*flag),
        Value::Number(n) => Json::Number(Number {
            unsigned: n.as_u64(),
            single: (n.as_f64().unwrap() as f32).to_bits(),
        }),
        Value::String(text) => Json::Text(text.clone()),
        Value::Array(items) => Json::Array(items.iter().map(command).collect()),
        Value::Object(entries) => Json::Object(
            entries
                .iter()
                .map(|(k, v)| (k.clone(), command(v)))
                .collect(),
        ),
    }
}

fn value(field: &Field) -> Value {
    match field {
        Field::Null => Value::Null,
        Field::Flag(flag) => Value::from(*flag),
        Field::Integer(n) => Value::from(*n),
        Field::Count(n) => Value::from(*n),
        Field::Single(bits) => Value::from(f32::from_bits(*bits)),
        Field::Milliseconds(nanoseconds) => Value::from(*nanoseconds as f64 / 1e6),
        Field::Text(text) => Value::from(text.as_str()),
        Field::List(items) => Value::Array(items.iter().map(value).collect()),
        Field::Record(entries) => Value::Object(
            entries
                .iter()
                .map(|(name, field)| (name.to_string(), value(field)))
                .collect(),
        ),
    }
}

/// A server whose worker keeps up with its input.
struct Server {
    ingress: Ingress,
    worker: Worker,
    mode: Mode,
    float_pcm: bool,
    events: Vec<Value>,
    finished: bool,
}

impl Server {
    fn new(float_pcm: bool, options: WavOptions) -> Self {
        Server {
            ingress: Ingress::new(float_pcm),
            worker: Worker::new(float_pcm, options),
            mode: Mode::Ft8,
            float_pcm,
            events: Vec::new(),
            finished: false,
        }
    }

    fn send(&mut self, field: Field) {
        self.events.push(value(&server_header(field).unwrap()));
    }

    fn window(&mut self, window: Window, backend: Backend) {
        let mut events = Vec::new();
        let step = self.worker.begin(&window, false, &mut events);
        for event in events {
            match event {
                Event::Overload { first, end } => {
                    self.send(warning_json("overload", first, end))
                }
                Event::Done(event) => self.send(done_json(&event)),
            }
        }
        match step {
            Step::Passed => return,
            Step::Stop => panic!("stopped"),
            Step::Decode(_) => {}
        }
        let mut pcm: Vec<f32> = window
            .pcm
            .iter()
            .map(|&word| {
                if self.float_pcm {
                    f32::from_bits(word)
                } else {
                    f32::from(word as u16 as i16)
                }
            })
            .collect();
        pcm.resize(window.mode.input_samples(), 0.0);
        let worker = &mut self.worker;
        let events = &mut self.events;
        let diagnostics = worker.options.diagnostics;
        let mut publish = |signal: DecodedSignal| {
            match worker.offer(&signal) {
                Offer::Duplicate => {}
                Offer::Excess => panic!("too many signals"),
                Offer::Send => {
                    events.push(value(&detailed_signal_json(
                        &signal,
                        window.mode,
                        window.start,
                        window.utc,
                        diagnostics,
                    )));
                    worker.publish(signal);
                }
            }
        };
        let result = backend(self.mode, &pcm, &window.settings, &mut publish);
        if let Some(event) = self
            .worker
            .attempt(window.final_pass, result, false, 1_500_000)
            .unwrap()
        {
            self.send(done_json(&event));
        }
    }

    fn act(&mut self, action: Action, backend: Backend) {
        match action {
            Action::Cancel(_) | Action::CancelAll => {}
            Action::Gap { first, end } => self.send(warning_json("input_gap", first, end)),
            Action::Done {
                start,
                status,
                reason,
            } => {
                let event = self
                    .worker
                    .terminal(done(start, status, 0, Some(reason.to_string())))
                    .unwrap();
                self.send(done_json(&event));
            }
            Action::Submit(window) => self.window(window, backend),
            Action::Reset {
                mode, command, utc, ..
            } => {
                self.worker.reset(mode, utc);
                self.mode = mode;
                self.send(ok_json(command));
            }
            Action::Acknowledge(command) => self.send(ok_json(command)),
            Action::Refuse { command, message } => self.send(error_json(&command, &message)),
            Action::Finish => self.send(ok_json("finish")),
        }
    }

    fn serve(&mut self, frames: &[(Value, Vec<u8>)], backend: Backend) {
        for (header, payload) in frames {
            let handled = self.ingress.command(&command(header), payload);
            for action in handled.actions {
                self.act(action, backend);
            }
            if handled.finished {
                self.finished = true;
                return;
            }
        }
    }
}

type Frames = Vec<(Value, Vec<u8>)>;

fn frame(frames: &mut Frames, mut v: Value, payload: &[u8]) {
    v["payload_bytes"] = Value::from(payload.len());
    let header = serde_json::to_vec(&v).unwrap();
    assert_eq!(protocol::read_header(&header), Ok(payload.len()));
    frames.push((v, payload.to_vec()));
}
fn start(frames: &mut Frames, mode: &str) {
    start_operation(frames, mode, "offline");
}
fn start_operation(frames: &mut Frames, mode: &str, operation: &str) {
    let mut v = json(r#"{"type":"start","version":1,"slot_offset_samples":"0"}"#);
    v["mode"] = Value::from(mode);
    v["operation"] = Value::from(operation);
    frame(frames, v, &[]);
}
fn start_settings(frames: &mut Frames, mode: &str, operation: &str, settings: Value) {
    let mut v = json(r#"{"type":"start","version":1,"slot_offset_samples":"0"}"#);
    v["mode"] = Value::from(mode);
    v["operation"] = Value::from(operation);
    v["settings"] = settings;
    frame(frames, v, &[]);
}
fn configure(frames: &mut Frames, settings: Value) {
    let mut v = json(r#"{"type":"configure"}"#);
    v["settings"] = settings;
    frame(frames, v, &[]);
}
fn block(frames: &mut Frames, first: u64, count: usize, payload: &[u8]) {
    let mut v = json(r#"{"type":"audio"}"#);
    v["first_sample"] = Value::from(first.to_string());
    v["sample_count"] = Value::from(count);
    frame(frames, v, payload);
}
fn audio(frames: &mut Frames, mut first: u64, mut count: usize) {
    while count > 0 {
        let n = count.min(12000);
        let payload: Vec<_> = (0..n).flat_map(|_| 123i16.to_le_bytes()).collect();
        block(frames, first, n, &payload);
        first += n as u64;
        count -= n;
    }
}
fn finish(frames: &mut Frames) {
    frame(frames, json(r#"{"type":"finish"}"#), &[]);
}
fn run(frames: Frames) -> (Vec<Value>, Calls) {
    let mut calls = Calls::new();
    let mut server = Server::new(false, WavOptions::default());
    server.serve(&frames, &mut |mode, pcm, settings, _| {
        calls.push((mode, pcm.len(), settings.depth, pcm[0]));
        Ok(DecodeStats::default())
    });
    assert!(server.finished);
    (server.events, calls)
}

#[test]
fn stream_ap_is_off_unless_explicitly_enabled() {
    for (settings, expected) in [
        (json("{}"), ApMode::Off),
        (
            json(r#"{"my_call":"W9XYZ","dx_call":"K1ABC","rx_hz":1500}"#),
            ApMode::Off,
        ),
        (json(r#"{"ap":"auto"}"#), ApMode::Auto),
        (json(r#"{"ap":"cq"}"#), ApMode::Cq),
        (json(r#"{"assistance":true}"#), ApMode::Auto),
        (json(r#"{"assistance":false}"#), ApMode::Off),
    ] {
        let mut input = Vec::new();
        start_settings(&mut input, "ft4", "offline", settings.clone());
        audio(&mut input, 0, 90000);
        finish(&mut input);
        let mut seen = Vec::new();
        Server::new(false, WavOptions::default()).serve(&input, &mut |_, _, settings, _| {
            seen.push(settings.ap_mode());
            Ok(DecodeStats::default())
        });
        assert_eq!(seen, [expected], "{settings}");
    }
}

#[test]
fn offline_ft8_decodes_each_full_slot_once_and_skips_incomplete_tail() {
    for depth in [1, 2, 3] {
        let mut input = Vec::new();
        start(&mut input, "ft8");
        frame(
            &mut input,
            json(&format!(r#"{{"type":"configure","settings":{{"depth":{depth}}}}}"#)),
            &[],
        );
        audio(&mut input, 0, 360000 + 162432);
        finish(&mut input);
        let (events, calls) = run(input);
        assert_eq!(
            calls,
            vec![(Mode::Ft8, 180000, depth, 123.0); 2],
            "offline depth {depth} must decode only complete slots"
        );
        let terminals: Vec<_> = events.iter().filter(|e| e["type"] == "done").collect();
        assert_eq!(terminals.len(), 3);
        for (terminal, boundary) in terminals[..2].iter().zip(["0", "180000"]) {
            assert_eq!(terminal["status"], "completed");
            assert_eq!(terminal["window_start_sample"], boundary);
        }
        assert_eq!(terminals[2]["window_start_sample"], "360000");
        assert_eq!(terminals[2]["status"], "skipped");
        assert_eq!(terminals[2]["reason"], "incomplete tail");
        assert_eq!(terminals[2]["message_count"], 0);
    }
}

#[test]
fn ft4_decodes_early_and_retains_period_boundaries() {
    let mut input = Vec::new();
    start(&mut input, "ft4");
    audio(&mut input, 0, 180000);
    finish(&mut input);
    let (events, calls) = run(input);
    assert_eq!(
        calls,
        vec![(Mode::Ft4, 72576, 3, 123.0); 2]
    );
    let starts: Vec<_> = events
        .iter()
        .filter(|e| e["type"] == "done")
        .map(|e| e["window_start_sample"].clone())
        .collect();
    assert_eq!(starts, vec![Value::from("0"), Value::from("90000")]);
    assert_eq!(events.last().unwrap()["command"], "finish");
}

#[test]
fn configure_preserves_open_window_and_finish_reports_tail() {
    let mut input = Vec::new();
    start(&mut input, "ft8");
    audio(&mut input, 0, 600);
    frame(
        &mut input,
        json(r#"{"type":"configure","settings":{"depth":1}}"#),
        &[],
    );
    audio(&mut input, 600, 360000);
    finish(&mut input);
    let (events, calls) = run(input);
    assert_eq!(calls.len(), 2);
    assert_eq!(calls[0].2, 3);
    assert_eq!(calls[1].2, 1);
    assert!(
        events
            .iter()
            .any(|e| e["reason"] == "incomplete tail" && e["window_start_sample"] == "360000")
    );
}

#[test]
fn gap_discards_window_and_overlap_is_rejected() {
    let mut input = Vec::new();
    start(&mut input, "ft4");
    audio(&mut input, 0, 12000);
    audio(&mut input, 13000, 12000);
    audio(&mut input, 24000, 10);
    audio(&mut input, 90000, 72576);
    finish(&mut input);
    let (events, calls) = run(input);
    assert_eq!(calls.len(), 1);
    assert!(
        events
            .iter()
            .any(|e| e["reason"] == "input_gap" && e["first_sample"] == "12000")
    );
    assert!(
        events
            .iter()
            .any(|e| e["type"] == "error" && e["command"] == "audio")
    );
    assert!(
        events
            .iter()
            .any(|e| e["status"] == "completed" && e["window_start_sample"] == "90000")
    );
}

#[test]
fn utc_boundary_uses_exact_integer_ceiling() {
    let mut input = Vec::new();
    frame(
        &mut input,
        json(r#"{"type":"start","version":1,"mode":"ft4","operation":"offline","start_utc_ns":"7499999999"}"#),
        &[],
    );
    audio(&mut input, 0, 72577);
    finish(&mut input);
    let (events, calls) = run(input);
    assert_eq!(calls.len(), 1);
    assert!(
        events
            .iter()
            .any(|e| e["status"] == "completed" && e["window_start_sample"] == "1")
    );
}

#[test]
fn settings_and_timing_are_strict() {
    let mut input = Vec::new();
    start(&mut input, "ft8");
    for settings in [
        json(r#"{"threads":0}"#),
        json(r#"{"assistance":"yes"}"#),
        json(r#"{"typo":1}"#),
        json(r#"{"depth":1.5}"#),
    ] {
        configure(&mut input, settings);
    }
    frame(
        &mut input,
        json(r#"{"type":"reset","start_utc_ns":"1","slot_offset_samples":"0"}"#),
        &[],
    );
    finish(&mut input);
    let (events, _) = run(input);
    assert_eq!(events.iter().filter(|e| e["type"] == "error").count(), 5);
}

#[test]
fn ft4_thread_settings_are_rejected_before_session_changes() {
    for command in ["start", "reset", "configure"] {
        let mut input = Vec::new();
        let (mode, samples) = if command == "reset" {
            frame(
                &mut input,
                json(r#"{"type":"start","version":1,"mode":"ft8", "operation":"offline","slot_offset_samples":"0","settings":{"threads":2}}"#),
                &[],
            );
            frame(
                &mut input,
                json(r#"{"type":"reset","mode":"ft4","slot_offset_samples":"0"}"#),
                &[],
            );
            (Mode::Ft8, 180000)
        } else {
            if command == "start" {
                frame(
                    &mut input,
                    json(r#"{"type":"start","version":1,"mode":"ft4", "operation":"offline","slot_offset_samples":"0","settings":{"threads":2}}"#),
                    &[],
                );
            }
            start(&mut input, "ft4");
            if command == "configure" {
                frame(
                    &mut input,
                    json(r#"{"type":"configure","settings":{"threads":2,"depth":1}}"#),
                    &[],
                );
            }
            (Mode::Ft4, 72576)
        };
        audio(&mut input, 0, samples);
        finish(&mut input);
        let (events, calls) = run(input);
        let errors: Vec<_> = events.iter().filter(|e| e["type"] == "error").collect();
        assert_eq!(errors.len(), 1, "{command}: {events:?}");
        assert_eq!(errors[0]["command"], command, "{events:?}");
        assert_eq!(errors[0]["message"], "FT4 supports threads=1", "{events:?}");
        assert_eq!(
            calls,
            vec![(mode, samples, 3, 123.0)],
            "{command}"
        );
    }
}

#[test]
fn reset_ack_is_an_output_barrier() {
    let mut input = Vec::new();
    start(&mut input, "ft8");
    audio(&mut input, 0, 180000);
    frame(
        &mut input,
        json(r#"{"type":"reset","mode":"ft4","slot_offset_samples":"0"}"#),
        &[],
    );
    audio(&mut input, 0, 72576);
    finish(&mut input);
    let (events, calls) = run(input);
    let ack = events
        .iter()
        .position(|e| e["type"] == "ok" && e["command"] == "reset")
        .unwrap();
    assert_eq!(events[ack + 1]["type"], "done");
    assert_eq!(events[ack + 1]["status"], "completed");
    assert_eq!(events[ack + 2]["command"], "finish");
    assert_eq!(calls.last().unwrap().0, Mode::Ft4);
}

fn signal(text: &str, resolved: Option<&str>, frequency: f32) -> DecodedSignal {
    DecodedSignal {
        // Stable recovered bits; learned history changes only display.
        source_bits: std::array::from_fn(|i| i < 22 && ((123_u32 >> i) & 1) != 0),
        message: Message {
            text: text.to_string(),
            kind: MessageKind::Standard,
            grid: None,
            fields: MessageFields::default(),
            hashes: vec![CallsignHash {
                width: 22,
                value: 123,
                resolved: resolved.map(str::to_string),
            }],
        },
        frequency_hz: frequency.to_bits(),
        snr_db: -10,
        dt_seconds: 0.0_f32.to_bits(),
        assisted: false,
        diagnostics: None,
    }
}

fn progressive(tail: &str) -> Vec<Value> {
    let mut input = Vec::new();
    start_operation(&mut input, "ft8", "live");
    audio(&mut input, 0, 162432);
    match tail {
        "final" => {
            configure(&mut input, json(r#"{"depth":1}"#));
            audio(&mut input, 162432, 17568);
        }
        "gap" => audio(&mut input, 163432, 1000),
        "reset" => frame(
            &mut input,
            json(r#"{"type":"reset","slot_offset_samples":"0"}"#),
            &[],
        ),
        "finish" => {}
        _ => unreachable!(),
    }
    finish(&mut input);
    let mut server = Server::new(false, WavOptions::default());
    server.serve(&input, &mut |_, pcm, settings, publish| {
        assert_eq!(pcm.len(), 180000);
        assert_eq!(
            settings.depth, 3,
            "configuration changed an already opened window"
        );
        if pcm[170000] == 0.0 {
            publish(signal("CQ <...>", None, 1000.0));
        } else {
            publish(signal("CQ <K1ABC>", Some("K1ABC"), 1000.0));
            publish(signal("CQ <K1ABC>", Some("K1ABC"), 1500.0));
        }
        Ok(DecodeStats::default())
    });
    server.events
}

#[test]
fn ft8_progressive_pass_publishes_early_and_final_deduplicates() {
    let events = progressive("final");
    let decodes: Vec<_> = events.iter().filter(|e| e["type"] == "decode").collect();
    assert_eq!(decodes.len(), 2);
    assert_eq!(decodes[0]["frequency_hz"], 1000.0);
    assert_eq!(decodes[1]["frequency_hz"], 1500.0);
    let terminals: Vec<_> = events.iter().filter(|e| e["type"] == "done").collect();
    assert_eq!(terminals.len(), 1);
    assert_eq!(terminals[0]["message_count"], 2);
    assert_eq!(terminals[0]["status"], "completed");
}

#[test]
fn progressive_hash_resolution_does_not_republish_the_same_signal() {
    let events = progressive("final");
    let same_frequency: Vec<_> = events
        .iter()
        .filter(|e| e["type"] == "decode" && e["frequency_hz"] == 1000.0)
        .collect();
    assert_eq!(same_frequency.len(), 1);
    assert_eq!(same_frequency[0]["message"], "CQ <...>");
    assert!(same_frequency[0]["hashes"][0]["resolved"].is_null());
    let separate_frequency = events
        .iter()
        .find(|e| e["type"] == "decode" && e["frequency_hz"] == 1500.0)
        .unwrap();
    assert_eq!(separate_frequency["message"], "CQ <K1ABC>");
    assert_eq!(separate_frequency["hashes"][0]["resolved"], "K1ABC");
}

#[test]
fn progressive_partial_window_terminates_on_gap_reset_or_finish() {
    for tail in ["gap", "reset", "finish"] {
        let events = progressive(tail);
        let terminals: Vec<_> = events.iter().filter(|e| e["type"] == "done").collect();
        assert_eq!(terminals.len(), 1, "{tail}: {events:?}");
        assert_eq!(terminals[0]["message_count"], 1);
        assert_eq!(
            terminals[0]["status"],
            if tail == "reset" {
                "cancelled"
            } else {
                "skipped"
            }
        );
    }
}

#[test]
fn known_call_settings_are_bounded_normalized_and_updated_atomically() {
    let mut input = Vec::new();
    start(&mut input, "ft4");
    for count in [400, 401] {
        let mut settings = json("{}");
        settings["known_calls"] = Value::from(vec!["  k1abc  "; count]);
        configure_unframed(&mut input, settings);
    }
    audio(&mut input, 0, 72576);
    finish(&mut input);
    let mut seen = Vec::new();
    let mut server = Server::new(false, WavOptions::default());
    server.serve(&input, &mut |_, _, settings, _| {
        seen.push(settings.copied());
        Ok(DecodeStats::default())
    });
    assert_eq!(seen.len(), 1);
    assert_eq!(seen[0].ap.known_calls.len(), 400);
    assert!(seen[0].ap.known_calls.iter().all(|call| call == "K1ABC"));
    let errors: Vec<_> = server
        .events
        .iter()
        .filter(|e| e["type"] == "error")
        .collect();
    assert_eq!(errors.len(), 1, "{errors:?}");
    assert_eq!(errors[0]["command"], "configure");
}

fn configure_unframed(frames: &mut Frames, settings: Value) {
    let mut v = json(r#"{"type":"configure","payload_bytes":0}"#);
    v["settings"] = settings;
    frames.push((v, Vec::new()));
}

#[test]
fn publishes_before_finish_and_reset_cancels_active_decode() {
    let mut input = Vec::new();
    start(&mut input, "ft4");
    audio(&mut input, 0, 72576);
    let mut ingress = Ingress::new(false);
    let mut worker = Worker::new(false, WavOptions::default());
    let mut windows = Vec::new();
    for (header, payload) in &input {
        for action in ingress.command(&command(header), payload).actions {
            match action {
                Action::Submit(window) => windows.push(window),
                Action::Reset { mode, utc, .. } => worker.reset(mode, utc),
                other => panic!("{other:?}"),
            }
        }
    }
    assert_eq!(windows.len(), 1);
    let mut window = windows.remove(0);
    let step = worker.begin(&window, false, &mut Vec::new());
    assert!(matches!(step, Step::Decode(0)));
    let found = signal("CQ TEST", None, 1000.0);
    assert_eq!(worker.offer(&found), Offer::Send);
    worker.publish(found.clone());
    assert_eq!(worker.offer(&found), Offer::Duplicate);
    let mut apart = found.clone();
    apart.frequency_hz = 1004.0_f32.to_bits();
    assert_eq!(worker.offer(&apart), Offer::Send);
    apart.frequency_hz = 1003.9999_f32.to_bits();
    assert_eq!(worker.offer(&apart), Offer::Duplicate);
    apart.dt_seconds = 0.08_f32.to_bits();
    assert_eq!(worker.offer(&apart), Offer::Send);
    // The reset arrives while the decoder is at work.
    let reset = json(r#"{"type":"reset","slot_offset_samples":"0"}"#);
    let actions = ingress.command(&command(&reset), &[]).actions;
    assert!(actions
        .iter()
        .any(|a| matches!(a, Action::Cancel(epoch) if *epoch == window.epoch)
            || matches!(a, Action::CancelAll)));
    let stats = DecodeStats {
        cancelled: true,
        ..DecodeStats::default()
    };
    // An early window that finds the queue full is dropped, a final one is not.
    assert_eq!(when_crowded(&window), Crowded::Replace);
    window.final_pass = false;
    assert_eq!(when_crowded(&window), Crowded::Drop);
    window.final_pass = true;
    assert!(worker.can_account(&Ok(stats), u64::MAX));
    assert!(!Worker::new(false, WavOptions::default()).can_account(&Ok(stats), 0));
    let event = worker
        .attempt(window.final_pass, Ok(stats), true, 0)
        .unwrap()
        .unwrap();
    let event = value(&done_json(&event));
    assert_eq!(event["status"], "cancelled");
    assert_eq!(event["message_count"], 1);
    assert!(actions.iter().any(|a| matches!(
        a,
        Action::Reset {
            command: "reset",
            ..
        }
    )));
}

#[test]
fn live_overload_keeps_latest_pending_window_and_reports_every_skip() {
    let mut input = Vec::new();
    start_operation(&mut input, "ft4", "live");
    audio(&mut input, 0, 900000);
    finish(&mut input);
    let mut server = Server::new(false, WavOptions::default());
    let mut active: Option<Window> = None;
    let mut waiting: Option<Window> = None;
    let mut decode = |_: Mode, _: &[f32], _: &DecodeSettings, _: Publish| Ok(DecodeStats::default());
    for (header, payload) in &input {
        for action in server.ingress.command(&command(header), payload).actions {
            match action {
                Action::Submit(window) => {
                    if active.is_none() {
                        active = Some(window);
                    } else if let Some(old) = &mut waiting {
                        let mode = old.mode;
                        assert!(replace_waiting(old, window, mode).is_none());
                    } else {
                        waiting = Some(window);
                    }
                }
                Action::Finish => {
                    server.act(Action::Submit(active.take().unwrap()), &mut decode);
                    server.act(Action::Submit(waiting.take().unwrap()), &mut decode);
                }
                other => server.act(other, &mut decode),
            }
        }
    }
    let mut completed = Vec::new();
    let mut skipped = Vec::new();
    for event in server.events.iter().filter(|e| e["type"] == "done") {
        let start: u64 = event["window_start_sample"]
            .as_str()
            .unwrap()
            .parse()
            .unwrap();
        if event["status"] == "completed" {
            completed.push(start)
        } else {
            skipped.push(start)
        }
    }
    assert_eq!(completed.last(), Some(&810000));
    assert!(!skipped.is_empty());
    completed.extend(skipped);
    completed.sort_unstable();
    assert_eq!(completed, (0..10).map(|n| n * 90000).collect::<Vec<u64>>());
}

/// Reads frames out of bytes as a stream is read: by what is missing. Tells the frames and
/// how the stream ends: whole, in the middle of a frame, or refused.
fn read_frames(bytes: &[u8]) -> (Frames, Result<(), Option<String>>) {
    let mut frames = Frames::new();
    let mut at = 0;
    while at < bytes.len() {
        let mut end = at;
        loop {
            match protocol::split_frame(&bytes[at..end]) {
                Err(error) => return (frames, Err(Some(error))),
                Ok(Split::More(count)) if end + count > bytes.len() => return (frames, Err(None)),
                Ok(Split::More(count)) => end += count,
                Ok(Split::Frame { header, payload }) => {
                    frames.push((serde_json::from_slice(&header).unwrap(), payload));
                    break;
                }
            }
        }
        at = end;
    }
    (frames, Ok(()))
}

fn framed(value: &Value) -> Vec<u8> {
    protocol::frame(&serde_json::to_vec(value).unwrap()).unwrap()
}

#[test]
fn fatal_framing_delivers_error_and_returns_failure() {
    for (bad_frame, truncated) in [
        (vec![0, 0, 0, 0], false),
        (vec![1, 0], true),
        (vec![1, 0, 0, 0, b'{'], false),
    ] {
        let mut input = Vec::new();
        start(&mut input, "ft8");
        let mut bytes = framed(&input[0].0);
        bytes.extend(bad_frame);
        let (frames, end) = read_frames(&bytes);
        assert_eq!(frames, input);
        let error = end.unwrap_err();
        assert_eq!(error.is_none(), truncated);
        let mut server = Server::new(false, WavOptions::default());
        server.serve(&frames, &mut |_, _, _, _| Ok(DecodeStats::default()));
        let message = error.unwrap_or("failed to fill whole buffer".to_string());
        server.send(error_json("frame", &message));
        // What the server has sent is read back.
        let sent: Vec<u8> = server.events.iter().flat_map(framed).collect();
        let (answers, end) = read_frames(&sent);
        assert_eq!(end, Ok(()));
        assert_eq!(answers.len(), 2);
        assert_eq!(answers[0].0["command"], "start");
        let error = &answers[1].0;
        assert_eq!(error["type"], "error");
        assert_eq!(error["command"], "frame");
        assert!(!error["message"].as_str().unwrap().is_empty());
    }
}

#[test]
fn frames_are_split_by_what_is_missing() {
    let audio = br#"{"type":"audio","payload_bytes":4}"#;
    let mut bytes = protocol::frame(audio).unwrap();
    bytes.extend([1, 2, 3, 4]);
    bytes.extend(protocol::frame(br#"{"type":"finish","payload_bytes":0}"#).unwrap());
    let whole = 4 + audio.len() + 4;
    for (n, missing) in [(0, 4), (3, 1), (4, audio.len()), (whole - 4, 4), (whole - 1, 1)] {
        assert_eq!(protocol::split_frame(&bytes[..n]), Ok(Split::More(missing)));
    }
    for n in [whole, whole + 2, bytes.len()] {
        assert_eq!(
            protocol::split_frame(&bytes[..n]),
            Ok(Split::Frame {
                header: audio.to_vec(),
                payload: vec![1, 2, 3, 4],
            })
        );
    }
    assert!(protocol::split_frame(&[1, 0x20, 0, 0]).is_err());
    let (frames, end) = read_frames(&bytes);
    assert_eq!((frames.len(), end), (2, Ok(())));
    assert_eq!(read_frames(&bytes[..whole + 1]).1, Err(None));
}

#[test]
fn server_headers_have_no_payload() {
    let header = server_header(ok_json("finish")).unwrap();
    let sent = value(&header);
    assert_eq!(sent["payload_bytes"], 0);
    assert_eq!(sent["type"], "ok");
    assert_eq!(sent["command"], "finish");
    let other = Field::Record(vec![
        ("type", Field::Text("audio".to_string())),
        ("payload_bytes", Field::Count(8)),
        ("first", Field::Integer(-3)),
    ]);
    let sent = value(&server_header(other).unwrap());
    assert_eq!(sent, json(r#"{"type":"audio","payload_bytes":0,"first":-3}"#));
    assert_eq!(
        server_header(Field::Flag(true)).unwrap_err(),
        "output header must be an object"
    );
}

#[test]
fn converted_wav_preserves_float_pcm_and_reports_operation_specific_attempts() {
    for (operation, count, candidates, passes, status) in [
        ("offline", 180000, 3, 2, "completed"),
        ("offline", 162432, 0, 0, "skipped"),
        ("live", 180000, 6, 4, "completed"),
        ("live", 162432, 3, 2, "skipped"),
    ] {
        let mut input = Vec::new();
        start_operation(&mut input, "ft8", operation);
        let mut first = 0;
        while first < count {
            let end = if first < 162432 {
                count.min(162432)
            } else {
                count
            };
            let n = (end - first).min(6000);
            let mut values = vec![0.125f32; n];
            if first == 0 {
                values[1] = 40000.0;
            }
            let payload: Vec<u8> = values.iter().flat_map(|v| v.to_le_bytes()).collect();
            block(&mut input, first as u64, n, &payload);
            first += n;
        }
        finish(&mut input);
        let options = WavOptions {
            diagnostics: 2,
            stats: true,
        };
        let mut server = Server::new(true, options);
        server.serve(&input, &mut |_, pcm, _, _| {
            assert_eq!(pcm[0], 0.125);
            assert_eq!(pcm[1], 40000.0, "filter overshoot must not be clipped");
            Ok(DecodeStats {
                candidates: 3,
                passes: 2,
                ..DecodeStats::default()
            })
        });
        let terminals: Vec<_> = server
            .events
            .iter()
            .filter(|e| e["type"] == "done")
            .collect();
        assert_eq!(terminals.len(), 1, "duplicate terminal event");
        let done = terminals[0];
        assert_eq!(done["status"], status, "{operation}, {count}");
        assert_eq!(
            done["stats"]["candidates"], candidates,
            "{operation}, {count}"
        );
        assert_eq!(done["stats"]["passes"], passes, "{operation}, {count}");
        assert_eq!(done["message_count"], 0);
        assert_eq!(done["stats"]["decode_ms"], passes as f64 / 2.0 * 1.5);
    }
}

#[test]
fn decoder_errors_survive_final_input_and_live_incomplete_finish() {
    for (operation, count, status, reason) in [
        (
            "live",
            162432,
            "failed",
            "injected progressive decoder failure",
        ),
        (
            "live",
            180000,
            "failed",
            "injected progressive decoder failure",
        ),
        (
            "offline",
            180000,
            "failed",
            "injected progressive decoder failure",
        ),
        ("offline", 162432, "skipped", "incomplete tail"),
    ] {
        let mut input = Vec::new();
        start_operation(&mut input, "ft8", operation);
        audio(&mut input, 0, count);
        finish(&mut input);
        let mut server = Server::new(false, WavOptions::default());
        server.serve(&input, &mut |_, _, _, _| {
            Err("injected progressive decoder failure".to_string())
        });
        let done: Vec<_> = server
            .events
            .iter()
            .filter(|e| e["type"] == "done")
            .collect();
        assert_eq!(done.len(), 1);
        assert_eq!(done[0]["status"], status, "{operation}, {count}: {done:?}");
        assert_eq!(done[0]["reason"], reason);
    }
}

#[test]
fn converted_ingress_rejects_invalid_floats_and_accepts_filter_headroom_boundary() {
    for value in [f32::NAN, f32::INFINITY, 131073.0, 131072.0] {
        let mut input = Vec::new();
        start(&mut input, "ft4");
        for first in (0..72576usize).step_by(6000) {
            let count = (72576 - first).min(6000);
            let payload: Vec<_> = (0..count).flat_map(|_| value.to_le_bytes()).collect();
            block(&mut input, first as u64, count, &payload);
        }
        finish(&mut input);
        let mut calls = Vec::new();
        let mut server = Server::new(true, WavOptions::default());
        server.serve(&input, &mut |_, pcm, _, _| {
            calls.push(pcm[0]);
            Ok(DecodeStats::default())
        });
        let errors = server
            .events
            .iter()
            .filter(|e| e["type"] == "error")
            .count();
        if value == 131072.0 {
            assert_eq!(errors, 0);
            assert_eq!(calls, [value]);
        } else {
            assert!(errors > 0);
            assert!(calls.is_empty());
        }
    }
}
