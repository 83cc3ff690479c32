//! That the documents that are sent tell what they are about.
use vstd::prelude::*;
use crate::engine::{DecodeDiagnostics, DecodedSignal, Mode};
use crate::fec::DecodeMethod;
use crate::message::{ExchangeType, MessageKind};
use crate::record::{names, nth, Field};
use crate::session::Status;
use crate::text::{decimal_value, numerals_are_read_back};
use crate::wav_cli::tells_failure;
use crate::worker::{
    done_names, payload_text, places, signal_names, status_name, tells_diagnostics, tells_report,
    tells_signal, was_assisted, DoneModel, WindowReport,
};

verus! {

/// A record has this field.
pub open spec fn has(r: Field, name: Seq<char>, value: Field) -> bool {
    exists|i: int| 0 <= i < names(r).len() && #[trigger] names(r)[i] == name && nth(r, i) == value
}

/// A record has this text.
pub open spec fn says(r: Field, name: Seq<char>, text: Seq<char>) -> bool {
    exists|i: int|
        0 <= i < names(r).len() && #[trigger] names(r)[i] == name && nth(r, i) is Text && nth(
            r,
            i,
        )->Text_0@ == text
}

/// A record has this text, or null without one.
pub open spec fn says_or_null(r: Field, name: Seq<char>, text: Option<Seq<char>>) -> bool {
    match text {
        Some(known) => says(r, name, known),
        None => has(r, name, Field::Null),
    }
}

/// A record has this number as a text of its digits.
pub open spec fn numbers(r: Field, name: Seq<char>, n: int) -> bool {
    exists|i: int|
        0 <= i < names(r).len() && #[trigger] names(r)[i] == name && nth(r, i) is Text
            && decimal_value(nth(r, i)->Text_0@) == n
}

/// A record has no such field.
pub open spec fn lacks(r: Field, name: Seq<char>) -> bool {
    forall|i: int| 0 <= i < names(r).len() ==> #[trigger] names(r)[i] != name
}

/// The names of the fields that every document on a signal has.
pub open spec fn common_names() -> Seq<Seq<char>> {
    seq![
        "type"@,
        "message"@,
        "message_type"@,
        "exchange_type"@,
        "sender"@,
        "recipient"@,
        "sender_hash"@,
        "recipient_hash"@,
        "cq_modifier"@,
        "grid"@,
        "report_db"@,
        "hashes"@,
        "mode"@,
        "frequency_hz"@,
        "snr_db"@,
        "dt_seconds"@,
        "window_start_sample"@,
        "assisted"@,
    ]
}

/// The fields that a document may lack have names of their own.
proof fn lemma_names_differ()
    ensures
        forall|i: int|
            0 <= i < 18 ==> #[trigger] common_names()[i] != "window_start_utc_ns"@
                && common_names()[i] != "ap_type"@,
        "ap_type"@ != "window_start_utc_ns"@,
        "confidence"@ != "window_start_utc_ns"@,
        "questionable"@ != "window_start_utc_ns"@,
{
    reveal_strlit("type");
    reveal_strlit("message");
    reveal_strlit("message_type");
    reveal_strlit("exchange_type");
    reveal_strlit("sender");
    reveal_strlit("recipient");
    reveal_strlit("sender_hash");
    reveal_strlit("recipient_hash");
    reveal_strlit("cq_modifier");
    reveal_strlit("grid");
    reveal_strlit("report_db");
    reveal_strlit("hashes");
    reveal_strlit("mode");
    reveal_strlit("frequency_hz");
    reveal_strlit("snr_db");
    reveal_strlit("dt_seconds");
    reveal_strlit("window_start_sample");
    reveal_strlit("assisted");
    reveal_strlit("ap_type");
    reveal_strlit("confidence");
    reveal_strlit("questionable");
    reveal_strlit("window_start_utc_ns");
    assert("window_start_sample"@[13] != "window_start_utc_ns"@[13]);
    assert("message"@[0] != "ap_type"@[0]);
    assert("ap_type"@.len() == 7 && "confidence"@.len() == 10 && "questionable"@.len() == 12
        && "window_start_utc_ns"@.len() == 19);
    assert forall|i: int| 0 <= i < 18 implies #[trigger] common_names()[i]
        != "window_start_utc_ns"@ && common_names()[i] != "ap_type"@ by {
        let name = common_names()[i];
        assert(i == 16 || name.len() != 19);
        assert(i == 1 || name.len() != 7);
    }
}

/// A document on a signal tells who sent it to whom, and what.
pub proof fn signals_tell_their_message(
    r: Field,
    signal: DecodedSignal,
    mode: Mode,
    start: u64,
    utc: Option<u64>,
)
    requires
        names(r).len() >= 18,
        names(r).take(18) == signal_names(signal, utc).take(18),
        tells_signal(r, signal, mode, start, utc),
    ensures
        ({
            let message = signal.message.deep_view();
            let fields = message.fields;
            &&& says(r, "type"@, "decode"@)
            &&& says(r, "message"@, message.text)
            &&& fields.sender matches Some(station) ==> says_or_null(r, "sender"@, station.call)
            &&& fields.sender is None ==> has(r, "sender"@, Field::Null)
            &&& fields.recipient matches Some(station) ==> says_or_null(
                r,
                "recipient"@,
                station.call,
            )
            &&& fields.recipient is None ==> has(r, "recipient"@, Field::Null)
            &&& says_or_null(r, "cq_modifier"@, fields.cq_modifier)
            &&& says_or_null(r, "grid"@, message.grid)
            &&& fields.report_db matches Some(db) ==> has(
                r,
                "report_db"@,
                Field::Integer(db as i64),
            )
            &&& fields.report_db is None ==> has(r, "report_db"@, Field::Null)
        }),
{
    lemma_places(r, signal, utc);
    assert(names(r)[0] == "type"@ && names(r)[1] == "message"@ && names(r)[4] == "sender"@
        && names(r)[5] == "recipient"@ && names(r)[8] == "cq_modifier"@ && names(r)[9] == "grid"@
        && names(r)[10] == "report_db"@);
}

proof fn lemma_places(r: Field, signal: DecodedSignal, utc: Option<u64>)
    requires
        names(r).len() >= 18,
        names(r).take(18) == signal_names(signal, utc).take(18),
    ensures
        forall|i: int|
            0 <= i < 18 ==> #[trigger] names(r)[i] == common_names()[i],
{
    assert forall|i: int| 0 <= i < 18 implies #[trigger] names(r)[i] == signal_names(
        signal,
        utc,
    )[i] by {
        assert(names(r).take(18)[i] == names(r)[i]);
        assert(signal_names(signal, utc).take(18)[i] == signal_names(signal, utc)[i]);
    }
}

/// A document on a signal tells where it was heard, and how strong.
pub proof fn signals_tell_their_place(
    r: Field,
    signal: DecodedSignal,
    mode: Mode,
    start: u64,
    utc: Option<u64>,
)
    requires
        names(r).len() >= 18,
        names(r).take(18) == signal_names(signal, utc).take(18),
        tells_signal(r, signal, mode, start, utc),
    ensures
        mode == Mode::Ft8 ==> says(r, "mode"@, "ft8"@),
        mode == Mode::Ft4 ==> says(r, "mode"@, "ft4"@),
        has(r, "frequency_hz"@, Field::Single(signal.frequency_hz)),
        has(r, "snr_db"@, Field::Integer(signal.snr_db as i64)),
        has(r, "dt_seconds"@, Field::Single(signal.dt_seconds)),
        numbers(r, "window_start_sample"@, start as int),
        has(r, "assisted"@, Field::Flag(signal.assisted)),
{
    lemma_places(r, signal, utc);
    numerals_are_read_back(start as nat);
    assert(names(r)[12] == "mode"@ && names(r)[13] == "frequency_hz"@ && names(r)[14] == "snr_db"@
        && names(r)[15] == "dt_seconds"@ && names(r)[16] == "window_start_sample"@ && names(r)[17]
        == "assisted"@);
}

/// A document on a signal tells what kind of message and of exchange it is, by name.
pub proof fn signals_tell_their_kind(
    r: Field,
    signal: DecodedSignal,
    mode: Mode,
    start: u64,
    utc: Option<u64>,
)
    requires
        names(r).len() >= 18,
        names(r).take(18) == signal_names(signal, utc).take(18),
        tells_signal(r, signal, mode, start, utc),
    ensures
        says(
            r,
            "message_type"@,
            match signal.message.kind {
                MessageKind::FreeText => "free_text"@,
                MessageKind::Standard => "standard"@,
                MessageKind::Dxpedition => "dxpedition"@,
                MessageKind::FieldDay => "field_day"@,
                MessageKind::Telemetry => "telemetry"@,
                MessageKind::Rtty => "rtty"@,
                MessageKind::Nonstandard => "nonstandard"@,
                MessageKind::Vhf => "vhf"@,
                MessageKind::Wspr => "wspr"@,
            },
        ),
        says_or_null(
            r,
            "exchange_type"@,
            match signal.message.fields.exchange_type {
                None => None,
                Some(ExchangeType::Cq) => Some("cq"@),
                Some(ExchangeType::Qrz) => Some("qrz"@),
                Some(ExchangeType::De) => Some("de"@),
                Some(ExchangeType::Calls) => Some("calls"@),
                Some(ExchangeType::Grid) => Some("grid"@),
                Some(ExchangeType::RogerGrid) => Some("roger_grid"@),
                Some(ExchangeType::Report) => Some("report"@),
                Some(ExchangeType::RogerReport) => Some("roger_report"@),
                Some(ExchangeType::Rrr) => Some("rrr"@),
                Some(ExchangeType::Rr73) => Some("rr73"@),
                Some(ExchangeType::Signoff) => Some("73"@),
            },
        ),
{
    lemma_places(r, signal, utc);
    assert(names(r)[2] == "message_type"@ && names(r)[3] == "exchange_type"@);
}

/// A document on a signal tells the time of its window where that is known, and what
/// was assumed of it where something was.
pub proof fn signals_tell_their_time(
    r: Field,
    signal: DecodedSignal,
    mode: Mode,
    start: u64,
    utc: Option<u64>,
)
    requires
        names(r) == signal_names(signal, utc),
        tells_signal(r, signal, mode, start, utc),
    ensures
        utc matches Some(time) ==> numbers(r, "window_start_utc_ns"@, time as int),
        utc is None ==> lacks(r, "window_start_utc_ns"@),
        was_assisted(signal) ==> has(
            r,
            "ap_type"@,
            Field::Integer(signal.diagnostics->0.ap_type->0 as i64),
        ) && has(r, "questionable"@, Field::Flag(signal.diagnostics->0.questionable)),
        was_assisted(signal) && signal.diagnostics->0.confidence is Some ==> has(
            r,
            "confidence"@,
            Field::Single(signal.diagnostics->0.confidence->0),
        ),
        !was_assisted(signal) ==> lacks(r, "ap_type"@),
{
    lemma_names_differ();
    assert(names(r).take(18) =~= signal_names(signal, utc).take(18));
    lemma_places(r, signal, utc);
    if let Some(time) = utc {
        numerals_are_read_back(time as nat);
        let tail: int = if was_assisted(signal) {
            21
        } else {
            18
        };
        assert(names(r)[tail] == "window_start_utc_ns"@);
    }
    if was_assisted(signal) {
        assert(names(r)[18] == "ap_type"@ && names(r)[19] == "confidence"@ && names(r)[20]
            == "questionable"@);
    }
}

/// Every bit of a payload is told, in order.
pub proof fn payloads_are_told(bits: Seq<bool>, i: int)
    requires
        0 <= i < bits.len(),
    ensures
        payload_text(bits).len() == bits.len(),
        payload_text(bits)[i] == '1' <==> bits[i],
        payload_text(bits)[i] == '0' <==> !bits[i],
{
}

/// The work on a window is told by name.
pub proof fn reports_tell_their_counts(r: Field, report: WindowReport)
    requires
        tells_report(r, report),
    ensures
        has(r, "candidates"@, Field::Count(report.candidates)),
        has(r, "passes"@, Field::Count(report.passes)),
        has(r, "internal_decodes"@, Field::Count(report.internal_decodes)),
        has(r, "bp_decodes"@, Field::Count(report.bp_decodes)),
        has(r, "osd_decodes"@, Field::Count(report.osd_decodes)),
        has(r, "decode_ms"@, Field::Milliseconds(report.elapsed_ns)),
{
    assert(names(r)[0] == "candidates"@ && names(r)[1] == "passes"@ && names(r)[2]
        == "internal_decodes"@ && names(r)[3] == "bp_decodes"@ && names(r)[4] == "osd_decodes"@
        && names(r)[5] == "decode_ms"@);
}

/// How a signal was decoded is told by name.
pub proof fn diagnostics_tell_their_method(r: Field, d: DecodeDiagnostics)
    requires
        tells_diagnostics(r, Some(d)),
    ensures
        d.method == DecodeMethod::Bp ==> says(r, "fec"@, "BP"@),
        d.method == DecodeMethod::Osd ==> says(r, "fec"@, "OSD"@),
        d.method == DecodeMethod::List ==> says(r, "fec"@, "list"@),
        has(r, "bp_iterations"@, Field::Integer(d.bp_iterations as i64)),
        d.osd_pass matches Some(pass) ==> has(r, "osd_pass"@, Field::Integer(pass as i64)),
        d.osd_pass is None ==> has(r, "osd_pass"@, Field::Null),
        has(r, "hard_errors"@, Field::Count(d.hard_errors)),
        has(r, "pass"@, Field::Count(d.pass)),
{
    assert(names(r)[0] == "fec"@ && names(r)[1] == "bp_iterations"@ && names(r)[2] == "osd_pass"@
        && names(r)[3] == "hard_errors"@ && names(r)[4] == "pass"@);
}

/// The document of a window's end has its start, its status and its count at the front, and
/// behind them what is known besides.
pub proof fn ends_have_their_fields(e: DoneModel)
    ensures
        ({
            let n = done_names(e);
            let more = (if e.reason is Some {
                1int
            } else {
                0
            }) + (if e.mode is Some {
                1int
            } else {
                0
            }) + (if e.utc is Some {
                1int
            } else {
                0
            }) + (if e.report is Some {
                1int
            } else {
                0
            });
            &&& n.len() == 4 + more
            &&& n[0] == "type"@ && n[1] == "window_start_sample"@ && n[2] == "status"@ && n[3]
                == "message_count"@
            &&& e.reason is Some ==> n[4] == "reason"@
            &&& e.reason is Some ==> places(e).0 == 4
            &&& e.mode is Some ==> n[places(e).1] == "mode"@
            &&& e.utc is Some ==> n[places(e).2] == "window_start_utc_ns"@
            &&& e.report is Some ==> n[places(e).3] == "stats"@
        }),
{
}

/// Each status has its name.
pub proof fn statuses_have_names(status: Status)
    ensures
        status_name(status) == (match status {
            Status::Completed => "completed"@,
            Status::Skipped => "skipped"@,
            Status::Cancelled => "cancelled"@,
            Status::Failed => "failed"@,
        }),
{
}

/// An outgoing document tells of a failure exactly where it is an error or the end of a
/// window that failed.
pub proof fn failures_are_recognized(kind: Seq<char>, status: Option<Seq<char>>)
    ensures
        tells_failure(Some(kind), status) <==> kind == "error"@ || (kind == "done"@ && status
            == Some("failed"@)),
        !tells_failure(None, status),
{
}

} // verus!
