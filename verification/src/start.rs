//! The documents that open the decoding of a file.
use vstd::prelude::*;
use crate::assistance::{
    activity_names_are_read_back, mode_names_are_read_back, state_names_are_read_back, ApMode,
};
use crate::audio_input::Channel;
use crate::cli::{
    contact_change, decode_change, flag_change, frequency_change, initial_request, repeated,
    request_from, requested, single_change, takes_value, value_change, Change, Origin, RequestModel,
};
use crate::engine::{initial_settings, DecodeSettings, Mode, SettingsModel};
use crate::json::{find_entry, first_unlisted, listed, member, text_of, Json};
use crate::output_options::{OutputFormat, OutputOptions};
use crate::record::{
    is_integer, is_text, is_text_or_null, names, nth, number_text, optional_text, text_field, Field,
};
use crate::session::{
    decimal_member, opened_session, samples_to_boundary, session_live, session_mode, SessionModel,
    START_NAMES,
};
use crate::stream_settings::{
    calls_complaint, calls_of, contact_complaint, mode_complaint, numbers_complaint, replaced,
    update_complaint, SETTING_NAMES,
};
use crate::text::{decimal, normal_text_is_stable, numerals_are_read_back, trim, uppercase};
use crate::wav::{SampleEncoding, WavFormat};

verus! {

// ---------------------------------------------------------------------------
// Settings
// ---------------------------------------------------------------------------

/// A single precision value, or null without one.
pub open spec fn is_single_or_null(field: Field, bits: Option<u32>) -> bool {
    match bits {
        Some(value) => field == Field::Single(value),
        None => field == Field::Null,
    }
}

pub open spec fn is_text_list(field: Field, texts: Seq<Seq<char>>) -> bool {
    field matches Field::List(items) && items@.len() == texts.len() && forall|i: int|
        0 <= i < texts.len() ==> is_text(#[trigger] items@[i], texts[i])
}

/// The members of a settings document, in order.
pub open spec fn sent_names() -> Seq<Seq<char>> {
    seq![
        "low_hz"@,
        "high_hz"@,
        "priority_hz"@,
        "priority_tolerance_hz"@,
        "depth"@,
        "threads"@,
        "assistance"@,
        "ap"@,
        "ap_width_hz"@,
        "tx_hz"@,
        "my_call"@,
        "dx_call"@,
        "dx_grid"@,
        "qso_state"@,
        "activity"@,
        "known_calls"@,
    ]
}

/// The document holds every setting.
pub open spec fn tells_settings(field: Field, s: SettingsModel) -> bool {
    &&& names(field) == sent_names()
    &&& nth(field, 0) == Field::Single(s.low_hz)
    &&& nth(field, 1) == Field::Single(s.high_hz)
    &&& is_single_or_null(nth(field, 2), s.priority_hz)
    &&& nth(field, 3) == Field::Single(s.priority_tolerance_hz)
    &&& is_integer(nth(field, 4), s.depth as int)
    &&& nth(field, 5) == Field::Count(s.threads)
    &&& nth(field, 6) == Field::Flag(s.assistance)
    &&& is_text(nth(field, 7), s.ap.mode.spec_name())
    &&& nth(field, 8) == Field::Single(s.ap.width_hz)
    &&& is_single_or_null(nth(field, 9), s.ap.tx_hz)
    &&& is_text_or_null(nth(field, 10), s.ap.my_call)
    &&& is_text_or_null(nth(field, 11), s.ap.dx_call)
    &&& is_text_or_null(nth(field, 12), s.ap.dx_grid)
    &&& is_text(nth(field, 13), s.ap.state.spec_name())
    &&& is_text(nth(field, 14), s.ap.activity.spec_name())
    &&& is_text_list(nth(field, 15), s.ap.known_calls)
}

fn optional_single(bits: Option<u32>) -> (r: Field)
    ensures
        is_single_or_null(r, bits),
{
    match bits {
        Some(value) => Field::Single(value),
        None => Field::Null,
    }
}

fn text_list(texts: &Vec<String>) -> (r: Field)
    ensures
        is_text_list(r, texts.deep_view()),
{
    let mut items: Vec<Field> = Vec::new();
    let mut i: usize = 0;
    while i < texts.len()
        invariant
            i <= texts.len(),
            items.len() == i,
            forall|k: int| 0 <= k < i ==> is_text(#[trigger] items@[k], texts.deep_view()[k]),
        decreases texts.len() - i,
    {
        assert(texts.deep_view()[i as int] == texts@[i as int]@);
        items.push(text_field(texts[i].as_str()));
        i = i + 1;
    }
    Field::List(items)
}

/// The settings of a start command.
pub fn settings_json(settings: &DecodeSettings) -> (r: Field)
    ensures
        tells_settings(r, settings.deep_view()),
{
    let mut entries: Vec<(&'static str, Field)> = Vec::new();
    entries.push(("low_hz", Field::Single(settings.low_hz)));
    entries.push(("high_hz", Field::Single(settings.high_hz)));
    entries.push(("priority_hz", optional_single(settings.priority_hz)));
    entries.push(("priority_tolerance_hz", Field::Single(settings.priority_tolerance_hz)));
    entries.push(("depth", Field::Integer(settings.depth as i64)));
    entries.push(("threads", Field::Count(settings.threads)));
    entries.push(("assistance", Field::Flag(settings.assistance)));
    entries.push(("ap", text_field(settings.ap.mode.name())));
    entries.push(("ap_width_hz", Field::Single(settings.ap.width_hz)));
    entries.push(("tx_hz", optional_single(settings.ap.tx_hz)));
    entries.push(("my_call", optional_text(&settings.ap.my_call)));
    entries.push(("dx_call", optional_text(&settings.ap.dx_call)));
    entries.push(("dx_grid", optional_text(&settings.ap.dx_grid)));
    entries.push(("qso_state", text_field(settings.ap.state.name())));
    entries.push(("activity", text_field(settings.ap.activity.name())));
    entries.push(("known_calls", text_list(&settings.ap.known_calls)));
    let r = Field::Record(entries);
    assert(names(r) =~= sent_names());
    r
}

// ---------------------------------------------------------------------------
// Commands and events
// ---------------------------------------------------------------------------

/// The member that tells the origin of the slots.
pub open spec fn origin_name(origin: Origin) -> Seq<char> {
    match origin {
        Origin::Utc(_) => "start_utc_ns"@,
        Origin::Offset(_) => "slot_offset_samples"@,
    }
}

pub open spec fn origin_value(origin: Origin) -> u64 {
    match origin {
        Origin::Utc(value) => value,
        Origin::Offset(value) => value,
    }
}

/// The document starts the decoding of a file.
pub open spec fn tells_start(
    field: Field,
    mode: Mode,
    settings: SettingsModel,
    origin: Origin,
) -> bool {
    &&& names(field) == seq![
        "type"@,
        "payload_bytes"@,
        "version"@,
        "mode"@,
        "operation"@,
        "settings"@,
        origin_name(origin),
    ]
    &&& is_text(nth(field, 0), "start"@)
    &&& nth(field, 1) == Field::Count(0)
    &&& nth(field, 2) == Field::Count(1)
    &&& is_text(nth(field, 3), mode.spec_name())
    &&& is_text(nth(field, 4), "offline"@)
    &&& tells_settings(nth(field, 5), settings)
    &&& is_text(nth(field, 6), decimal(origin_value(origin) as nat))
}

/// The command that starts the decoding of a file.
pub fn start_json(mode: Mode, settings: &DecodeSettings, origin: Origin) -> (r: Field)
    ensures
        tells_start(r, mode, settings.deep_view(), origin),
{
    let mut entries: Vec<(&'static str, Field)> = Vec::new();
    entries.push(("type", text_field("start")));
    entries.push(("payload_bytes", Field::Count(0)));
    entries.push(("version", Field::Count(1)));
    entries.push(("mode", text_field(mode.name())));
    entries.push(("operation", text_field("offline")));
    entries.push(("settings", settings_json(settings)));
    match origin {
        Origin::Utc(value) => {
            entries.push(("start_utc_ns", number_text(value)));
        },
        Origin::Offset(value) => {
            entries.push(("slot_offset_samples", number_text(value)));
        },
    }
    let r = Field::Record(entries);
    assert(names(r) =~= seq![
        "type"@,
        "payload_bytes"@,
        "version"@,
        "mode"@,
        "operation"@,
        "settings"@,
        origin_name(origin),
    ]);
    r
}

/// What is heard of a file.
pub open spec fn channel_name(channels: u16, channel: Channel) -> Seq<char> {
    if channels == 1 {
        "mono"@
    } else {
        match channel {
            Channel::Left => "left"@,
            Channel::Right => "right"@,
            Channel::Mix => "mix"@,
        }
    }
}

pub open spec fn encoding_name(encoding: SampleEncoding) -> Seq<char> {
    match encoding {
        SampleEncoding::PcmInteger => "PCM"@,
        SampleEncoding::Float => "float"@,
    }
}

/// The event that describes a file of `frames` frames which become `samples`
/// samples.
pub fn input_json(format: WavFormat, channel: Channel, frames: u64, samples: u64) -> (r: Field)
    ensures
        names(r) == seq![
            "type"@,
            "source_rate"@,
            "channels"@,
            "bits_per_sample"@,
            "valid_bits_per_sample"@,
            "sample_format"@,
            "channel"@,
            "output_rate"@,
            "source_frames"@,
            "output_frames"@,
        ],
        is_text(nth(r, 0), "input"@),
        is_integer(nth(r, 1), format.sample_rate as int),
        is_integer(nth(r, 2), format.channels as int),
        is_integer(nth(r, 3), format.bits_per_sample as int),
        is_integer(nth(r, 4), format.valid_bits_per_sample as int),
        is_text(nth(r, 5), encoding_name(format.encoding)),
        is_text(nth(r, 6), channel_name(format.channels, channel)),
        is_integer(nth(r, 7), 12000),
        is_text(nth(r, 8), decimal(frames as nat)),
        is_text(nth(r, 9), decimal(samples as nat)),
{
    let encoding: &'static str = match format.encoding {
        SampleEncoding::PcmInteger => "PCM",
        SampleEncoding::Float => "float",
    };
    let heard: &'static str = if format.channels == 1 {
        "mono"
    } else {
        match channel {
            Channel::Left => "left",
            Channel::Right => "right",
            Channel::Mix => "mix",
        }
    };
    let mut entries: Vec<(&'static str, Field)> = Vec::new();
    entries.push(("type", text_field("input")));
    entries.push(("source_rate", Field::Integer(format.sample_rate as i64)));
    entries.push(("channels", Field::Integer(format.channels as i64)));
    entries.push(("bits_per_sample", Field::Integer(format.bits_per_sample as i64)));
    entries.push(("valid_bits_per_sample", Field::Integer(format.valid_bits_per_sample as i64)));
    entries.push(("sample_format", text_field(encoding)));
    entries.push(("channel", text_field(heard)));
    entries.push(("output_rate", Field::Integer(12000)));
    entries.push(("source_frames", number_text(frames)));
    entries.push(("output_frames", number_text(samples)));
    let r = Field::Record(entries);
    assert(names(r) =~= seq![
        "type"@,
        "source_rate"@,
        "channels"@,
        "bits_per_sample"@,
        "valid_bits_per_sample"@,
        "sample_format"@,
        "channel"@,
        "output_rate"@,
        "source_frames"@,
        "output_frames"@,
    ]);
    r
}

/// Whether the event that describes the file is shown.
pub fn shows_input(options: &OutputOptions) -> (r: bool)
    ensures
        r == (options.format == OutputFormat::Text || options.verbosity > 0 || options.stats),
{
    let text: bool = match options.format {
        OutputFormat::Text => true,
        _ => false,
    };
    text || options.verbosity > 0 || options.stats
}

// ---------------------------------------------------------------------------
// What a reader makes of the documents
// ---------------------------------------------------------------------------

/// The document that a reader has read says what was written: an object has the
/// members of the record, in any order, and no others.
pub open spec fn carries(v: Json, field: Field) -> bool
    decreases field,
{
    match field {
        Field::Null => v == Json::Null,
        Field::Flag(flag) => v == Json::Bool(flag),
        Field::Integer(n) => v matches Json::Number(number) && (n >= 0 ==> number.unsigned == Some(
            n as u64,
        )),
        Field::Count(n) => v matches Json::Number(number) && number.unsigned == Some(n as u64),
        Field::Single(bits) => v matches Json::Number(number) && number.single == bits,
        Field::Milliseconds(_) => v is Number,
        Field::Text(text) => v matches Json::Text(found) && found@ == text@,
        Field::List(items) => {
            &&& v matches Json::Array(values) && values@.len() == items@.len()
            &&& forall|i: int|
                0 <= i < items@.len() ==> carries(v->Array_0@[i], #[trigger] items@[i])
        },
        Field::Record(entries) => {
            &&& v is Object
            &&& forall|k: int|
                0 <= k < v->Object_0@.len() ==> names(field).contains(
                    (#[trigger] v->Object_0@[k]).0@,
                )
            &&& forall|i: int|
                0 <= i < entries@.len() ==> member(v, (#[trigger] entries@[i]).0@) is Some
                    && carries(member(v, entries@[i].0@)->0, entries@[i].1)
        },
    }
}

proof fn lemma_all_listed(entries: Seq<(String, Json)>, allowed: Seq<&'static str>, from: int)
    requires
        0 <= from <= entries.len(),
        forall|k: int| 0 <= k < entries.len() ==> listed(allowed, (#[trigger] entries[k]).0@),
    ensures
        first_unlisted(entries, allowed, from) == entries.len(),
    decreases entries.len() - from,
{
    if from < entries.len() {
        assert(listed(allowed, entries[from].0@));
        lemma_all_listed(entries, allowed, from + 1);
    }
}

/// A member that is found stands under its name.
proof fn lemma_found(entries: Seq<(String, Json)>, name: Seq<char>, from: int)
    requires
        0 <= from <= entries.len(),
        find_entry(entries, name, from) is Some,
    ensures
        exists|k: int| from <= k < entries.len() && (#[trigger] entries[k]).0@ == name,
    decreases entries.len() - from,
{
    if entries[from].0@ != name {
        lemma_found(entries, name, from + 1);
    }
}

/// Member `i` of a record that was read.
proof fn lemma_carried(v: Json, field: Field, i: int)
    requires
        field is Record,
        carries(v, field),
        0 <= i < names(field).len(),
    ensures
        member(v, names(field)[i]) is Some,
        carries(member(v, names(field)[i])->0, nth(field, i)),
{
    let entries = field->Record_0;
    assert(entries@[i].0@ == names(field)[i]);
}

/// No member of a name that is not written.
proof fn lemma_not_carried(v: Json, field: Field, name: Seq<char>)
    requires
        field is Record,
        carries(v, field),
        !names(field).contains(name),
    ensures
        member(v, name) is None,
{
    if member(v, name) is Some {
        let entries = v->Object_0@;
        lemma_found(entries, name, 0);
        let k = choose|k: int| 0 <= k < entries.len() && (#[trigger] entries[k]).0@ == name;
        assert(names(field).contains(entries[k].0@));
    }
}

proof fn lemma_receiver_name()
    ensures
        !sent_names().contains("rx_hz"@),
{
    reveal_strlit("rx_hz");
    reveal_strlit("low_hz");
    reveal_strlit("high_hz");
    reveal_strlit("priority_hz");
    reveal_strlit("priority_tolerance_hz");
    reveal_strlit("depth");
    reveal_strlit("threads");
    reveal_strlit("assistance");
    reveal_strlit("ap");
    reveal_strlit("ap_width_hz");
    reveal_strlit("tx_hz");
    reveal_strlit("my_call");
    reveal_strlit("dx_call");
    reveal_strlit("dx_grid");
    reveal_strlit("qso_state");
    reveal_strlit("activity");
    reveal_strlit("known_calls");
    assert("rx_hz"@[0] != "tx_hz"@[0]);
    assert("rx_hz"@[0] != "depth"@[0]);
    assert forall|i: int| 0 <= i < sent_names().len() implies sent_names()[i] != "rx_hz"@ by {}
}

proof fn lemma_sent_names_are_settings()
    ensures
        forall|i: int| 0 <= i < sent_names().len() ==> listed(SETTING_NAMES@, #[trigger] sent_names()[i]),
{
    assert forall|i: int| 0 <= i < sent_names().len() implies listed(
        SETTING_NAMES@,
        #[trigger] sent_names()[i],
    ) by {
        let at = if i < 8 {
            i
        } else {
            i + 1
        };
        assert(SETTING_NAMES@[at]@ == sent_names()[i]);
    }
}

/// Settings as options and commands give them: calls and locator in capitals, known
/// calls without outer white space, and the master gate in step with the mode.
pub open spec fn is_plain(s: SettingsModel) -> bool {
    &&& s.assistance == (s.ap.mode != ApMode::Off)
    &&& s.ap.my_call matches Some(call) ==> uppercase(call) == call
    &&& s.ap.dx_call matches Some(call) ==> uppercase(call) == call
    &&& s.ap.dx_grid matches Some(grid) ==> uppercase(grid) == grid
    &&& s.ap.known_calls.len() <= 400
    &&& forall|i: int|
        0 <= i < s.ap.known_calls.len() ==> uppercase(trim(#[trigger] s.ap.known_calls[i]))
            == s.ap.known_calls[i]
}

/// Settings that are written and read again stay what they were, whatever was set
/// before.
pub proof fn sent_settings_are_received(
    v: Json,
    field: Field,
    settings: SettingsModel,
    before: SettingsModel,
)
    requires
        tells_settings(field, settings),
        carries(v, field),
        is_plain(settings),
        settings.complaint() is None,
    ensures
        update_complaint(v, before) is None,
        replaced(v, before) == settings,
{
    assert(field is Record) by {
        assert(names(field).len() == 16);
    }
    assert forall|i: int| 0 <= i < 16 implies member(v, #[trigger] sent_names()[i]) is Some && carries(
        member(v, sent_names()[i])->0,
        nth(field, i),
    ) by {
        lemma_carried(v, field, i);
    }
    assert(carries(member(v, sent_names()[0])->0, nth(field, 0)));
    assert(carries(member(v, sent_names()[1])->0, nth(field, 1)));
    assert(carries(member(v, sent_names()[2])->0, nth(field, 2)));
    assert(carries(member(v, sent_names()[3])->0, nth(field, 3)));
    assert(carries(member(v, sent_names()[4])->0, nth(field, 4)));
    assert(carries(member(v, sent_names()[5])->0, nth(field, 5)));
    assert(carries(member(v, sent_names()[6])->0, nth(field, 6)));
    assert(carries(member(v, sent_names()[7])->0, nth(field, 7)));
    assert(carries(member(v, sent_names()[8])->0, nth(field, 8)));
    assert(carries(member(v, sent_names()[9])->0, nth(field, 9)));
    assert(carries(member(v, sent_names()[10])->0, nth(field, 10)));
    assert(carries(member(v, sent_names()[11])->0, nth(field, 11)));
    assert(carries(member(v, sent_names()[12])->0, nth(field, 12)));
    assert(carries(member(v, sent_names()[13])->0, nth(field, 13)));
    assert(carries(member(v, sent_names()[14])->0, nth(field, 14)));
    assert(carries(member(v, sent_names()[15])->0, nth(field, 15)));
    lemma_receiver_name();
    lemma_not_carried(v, field, "rx_hz"@);
    mode_names_are_read_back(settings.ap.mode);
    state_names_are_read_back(settings.ap.state);
    activity_names_are_read_back(settings.ap.activity);
    lemma_sent_names_are_settings();
    let entries = v->Object_0@;
    assert forall|k: int| 0 <= k < entries.len() implies listed(
        SETTING_NAMES@,
        (#[trigger] entries[k]).0@,
    ) by {
        assert(names(field).contains(entries[k].0@));
        let i = choose|i: int| 0 <= i < names(field).len() && names(field)[i] == entries[k].0@;
        assert(listed(SETTING_NAMES@, sent_names()[i]));
    }
    lemma_all_listed(entries, SETTING_NAMES@, 0);
    assert(numbers_complaint(v) is None);
    let list = member(v, "known_calls"@)->0;
    let items = nth(field, 15)->List_0@;
    let values = list->Array_0@;
    assert forall|i: int| 0 <= i < values.len() implies text_of(Some(#[trigger] values[i])) == Some(
        settings.ap.known_calls[i],
    ) by {
        assert(carries(values[i], items[i]));
        assert(is_text(items[i], settings.ap.known_calls[i]));
    }
    assert(calls_of(values) =~= settings.ap.known_calls) by {
        assert forall|i: int| 0 <= i < values.len() implies calls_of(values)[i]
            == settings.ap.known_calls[i] by {
            assert(text_of(Some(values[i])) == Some(settings.ap.known_calls[i]));
        }
    }
    assert(calls_complaint(v) is None);
    assert(contact_complaint(v) is None);
    assert(replaced(v, before) =~= settings);
}

/// The session that a start command of the given content opens.
pub open spec fn requested_session(
    mode: Mode,
    settings: SettingsModel,
    origin: Origin,
) -> SessionModel {
    SessionModel {
        mode,
        live: false,
        utc: match origin {
            Origin::Utc(utc) => Some(utc),
            Origin::Offset(_) => None,
        },
        next: match origin {
            Origin::Utc(utc) => samples_to_boundary(mode, utc) as u64,
            Origin::Offset(offset) => offset,
        },
        expected: 0,
        settings,
        opened: None,
        pcm: Seq::empty(),
        epoch: 0,
        early_submitted: false,
    }
}

proof fn lemma_start_names(origin: Origin)
    ensures
        ({
            let all = seq![
                "type"@,
                "payload_bytes"@,
                "version"@,
                "mode"@,
                "operation"@,
                "settings"@,
                origin_name(origin),
            ];
            let other = match origin {
                Origin::Utc(_) => "slot_offset_samples"@,
                Origin::Offset(_) => "start_utc_ns"@,
            };
            &&& forall|i: int| 0 <= i < 7 ==> listed(START_NAMES@, #[trigger] all[i])
            &&& !all.contains(other)
        }),
{
    let all = seq![
        "type"@,
        "payload_bytes"@,
        "version"@,
        "mode"@,
        "operation"@,
        "settings"@,
        origin_name(origin),
    ];
    let other = match origin {
        Origin::Utc(_) => "slot_offset_samples"@,
        Origin::Offset(_) => "start_utc_ns"@,
    };
    assert forall|i: int| 0 <= i < 7 implies listed(START_NAMES@, #[trigger] all[i]) by {
        let at = if i < 5 {
            i
        } else if i == 5 {
            7
        } else if origin is Utc {
            5
        } else {
            6
        };
        assert(START_NAMES@[at]@ == all[i]);
    }
    reveal_strlit("type");
    reveal_strlit("payload_bytes");
    reveal_strlit("version");
    reveal_strlit("mode");
    reveal_strlit("operation");
    reveal_strlit("settings");
    reveal_strlit("start_utc_ns");
    reveal_strlit("slot_offset_samples");
    assert forall|i: int| 0 <= i < 7 implies all[i] != other by {
        assert(all[i].len() != other.len());
    }
}

/// The start command of a file opens a session of its mode, settings and origin.
pub proof fn start_commands_open_their_session(
    v: Json,
    field: Field,
    mode: Mode,
    settings: SettingsModel,
    origin: Origin,
)
    requires
        tells_start(field, mode, settings, origin),
        carries(v, field),
        is_plain(settings),
        settings.complaint() is None,
        mode_complaint(mode, settings) is None,
    ensures
        opened_session(v, None) == Ok::<SessionModel, Seq<char>>(
            requested_session(mode, settings, origin),
        ),
{
    let all = names(field);
    assert(field is Record) by {
        assert(all.len() == 7);
    }
    lemma_start_names(origin);
    lemma_carried(v, field, 2);
    lemma_carried(v, field, 3);
    lemma_carried(v, field, 4);
    lemma_carried(v, field, 5);
    lemma_carried(v, field, 6);
    assert(all[2] == "version"@ && all[3] == "mode"@ && all[4] == "operation"@ && all[5]
        == "settings"@ && all[6] == origin_name(origin));
    lemma_not_carried(
        v,
        field,
        match origin {
            Origin::Utc(_) => "slot_offset_samples"@,
            Origin::Offset(_) => "start_utc_ns"@,
        },
    );
    let entries = v->Object_0@;
    assert forall|k: int| 0 <= k < entries.len() implies listed(
        START_NAMES@,
        (#[trigger] entries[k]).0@,
    ) by {
        assert(all.contains(entries[k].0@));
        let i = choose|i: int| 0 <= i < all.len() && all[i] == entries[k].0@;
        assert(listed(START_NAMES@, all[i]));
    }
    lemma_all_listed(entries, START_NAMES@, 0);
    assert(session_mode(v, None) == Ok::<Mode, Seq<char>>(mode)) by {
        reveal_strlit("ft8");
        reveal_strlit("ft4");
        assert("ft8"@[2] != "ft4"@[2]);
    }
    assert(session_live(v, None) == Ok::<bool, Seq<char>>(false)) by {
        reveal_strlit("live");
        reveal_strlit("offline");
        assert("live"@.len() != "offline"@.len());
    }
    numerals_are_read_back(origin_value(origin) as nat);
    let name = origin_name(origin);
    assert(decimal_member(v, name) == Ok::<u64, Seq<char>>(origin_value(origin)));
    sent_settings_are_received(
        member(v, "settings"@)->0,
        nth(field, 5),
        settings,
        initial_settings(),
    );
}

/// The change leads to settings of that form.
spec fn stays_plain(change: Change) -> bool {
    change matches Change::To(next) ==> is_plain(next.settings)
}

proof fn lemma_plain_frequency(r: RequestModel, option: Seq<char>, value: Seq<char>, single: Option<u32>)
    requires
        is_plain(r.settings),
    ensures
        stays_plain(frequency_change(r, option, value, single)),
{
    match frequency_change(r, option, value, single) {
        Change::To(next) => {
            assert(next.settings.ap.known_calls == r.settings.ap.known_calls);
        },
        _ => {},
    }
}

proof fn lemma_plain_contact(r: RequestModel, option: Seq<char>, value: Seq<char>)
    requires
        is_plain(r.settings),
    ensures
        stays_plain(contact_change(r, option, value)),
{
    normal_text_is_stable(value);
    normal_text_is_stable(trim(value));
    match contact_change(r, option, value) {
        Change::To(next) => {
            assert(next.settings.ap.known_calls == r.settings.ap.known_calls);
        },
        _ => {},
    }
}

proof fn lemma_plain_decode(r: RequestModel, option: Seq<char>, value: Seq<char>)
    requires
        is_plain(r.settings),
    ensures
        stays_plain(decode_change(r, option, value)),
        stays_plain(single_change(r, option, value)),
{
    match decode_change(r, option, value) {
        Change::To(next) => {
            assert(next.settings.ap == r.settings.ap);
        },
        _ => {},
    }
    match single_change(r, option, value) {
        Change::To(next) => {
            assert(next.settings == r.settings);
        },
        _ => {},
    }
}

proof fn lemma_plain_value(
    r: RequestModel,
    option: Seq<char>,
    value: Seq<char>,
    single: Option<u32>,
)
    requires
        is_plain(r.settings),
        repeated(r, option) is None,
    ensures
        stays_plain(value_change(r, option, value, single)),
{
    lemma_plain_frequency(r, option, value, single);
    lemma_plain_contact(r, option, value);
    lemma_plain_decode(r, option, value);
    if option == "--known-call"@ {
        normal_text_is_stable(value);
        let calls = r.settings.ap.known_calls.push(uppercase(trim(value)));
        assert forall|i: int| 0 <= i < calls.len() implies uppercase(trim(#[trigger] calls[i]))
            == calls[i] by {
            if i < r.settings.ap.known_calls.len() {
                assert(calls[i] == r.settings.ap.known_calls[i]);
            }
        }
    }
}

proof fn lemma_plain_requests(
    r: RequestModel,
    args: Seq<Seq<char>>,
    singles: Seq<Option<u32>>,
    i: int,
)
    requires
        is_plain(r.settings),
    ensures
        request_from(r, args, singles, i) matches Ok(all) ==> is_plain(all.settings),
    decreases args.len() - i,
{
    if i < args.len() {
        if takes_value(args[i]) {
            if repeated(r, args[i]) is None && i + 1 < args.len() {
                lemma_plain_value(r, args[i], args[i + 1], singles[i + 1]);
                match value_change(r, args[i], args[i + 1], singles[i + 1]) {
                    Change::To(next) => lemma_plain_requests(next, args, singles, i + 2),
                    _ => {},
                }
            }
        } else {
            match flag_change(r, args[i]) {
                Change::To(next) => lemma_plain_requests(next, args, singles, i + 1),
                _ => {},
            }
        }
    }
}

/// Whatever a command line asks for, the start command that is made of it opens a
/// session with exactly those settings.
pub proof fn command_lines_are_carried_out(
    args: Seq<Seq<char>>,
    singles: Seq<Option<u32>>,
    origin: Origin,
    field: Field,
    v: Json,
)
    requires
        requested(args, singles) is Ok,
        ({
            let r = requested(args, singles)->Ok_0;
            &&& tells_start(field, r.mode, r.settings, origin)
            &&& mode_complaint(r.mode, r.settings) is None
        }),
        carries(v, field),
    ensures
        ({
            let r = requested(args, singles)->Ok_0;
            opened_session(v, None) == Ok::<SessionModel, Seq<char>>(
                requested_session(r.mode, r.settings, origin),
            )
        }),
{
    let r = requested(args, singles)->Ok_0;
    lemma_plain_requests(initial_request(args[0]), args, singles, 1);
    start_commands_open_their_session(v, field, r.mode, r.settings, origin);
}

} // verus!
