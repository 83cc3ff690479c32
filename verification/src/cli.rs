//! The options of the decode command.
use vstd::prelude::*;
use vstd::string::*;
use crate::assistance::{Activity, ApMode, ApModel, ContactState};
use crate::audio_input::Channel;
use crate::engine::{initial_settings, DecodeSettings, Mode, SettingsModel};
use crate::message_encode::{unsigned, unsigned_value};
use crate::output_options::{fields_of, OutputFormat, OutputOptions};
use crate::text::{same, starts_with_char, trim, trimmed, uppercase, uppercased};
use crate::wav_cli::{ceiling, is_seconds, nanoseconds, seconds_offset, source_offset, whole_part};

verus! {

/// What the decode command asks for.
#[derive(Debug)]
pub struct DecodeRequest {
    pub path: String,
    pub mode: Mode,
    pub settings: DecodeSettings,
    pub channel: Channel,
    pub output: OutputOptions,
    /// Time of the first sample.
    pub utc: Option<u64>,
    /// First slot boundary in source frames.
    pub relative: Option<u64>,
    /// First slot boundary in decoder samples, from decimal seconds.
    pub seconds: Option<u64>,
}

#[verifier::ext_equal]
pub struct OutputModel {
    pub format: OutputFormat,
    pub verbosity: u8,
    pub fields: Option<Seq<Seq<char>>>,
    pub stats: bool,
    pub quiet: bool,
    pub slot_separators: bool,
}

#[verifier::ext_equal]
pub struct RequestModel {
    pub path: Seq<char>,
    pub mode: Mode,
    pub settings: SettingsModel,
    pub channel: Channel,
    pub output: OutputModel,
    pub utc: Option<u64>,
    pub relative: Option<u64>,
    pub seconds: Option<u64>,
}

impl DeepView for OutputOptions {
    type V = OutputModel;

    open spec fn deep_view(&self) -> OutputModel {
        OutputModel {
            format: self.format,
            verbosity: self.verbosity,
            fields: self.named_fields(),
            stats: self.stats,
            quiet: self.quiet,
            slot_separators: self.slot_separators,
        }
    }
}

impl DeepView for DecodeRequest {
    type V = RequestModel;

    open spec fn deep_view(&self) -> RequestModel {
        RequestModel {
            path: self.path@,
            mode: self.mode,
            settings: self.settings.deep_view(),
            channel: self.channel,
            output: self.output.deep_view(),
            utc: self.utc,
            relative: self.relative,
            seconds: self.seconds,
        }
    }
}

pub open spec fn initial_request(path: Seq<char>) -> RequestModel {
    RequestModel {
        path,
        mode: Mode::Ft8,
        settings: initial_settings(),
        channel: Channel::Left,
        output: OutputModel {
            format: OutputFormat::Text,
            verbosity: 0,
            fields: None,
            stats: false,
            quiet: false,
            slot_separators: true,
        },
        utc: None,
        relative: None,
        seconds: None,
    }
}

// ---------------------------------------------------------------------------
// Options
// ---------------------------------------------------------------------------

/// What became of one option.
pub enum Applied {
    /// The option is none of this kind.
    Other,
    /// The request was changed.
    Done,
    /// What is wrong with its value.
    Wrong(String),
}

/// What becomes of a request under one option.
#[verifier::ext_equal]
pub enum Change {
    Other,
    To(RequestModel),
    Wrong(Seq<char>),
}

pub open spec fn invalid(label: Seq<char>, value: Seq<char>) -> Change {
    Change::Wrong("invalid "@ + label + ": "@ + value)
}

pub open spec fn with_ap(r: RequestModel, ap: ApModel) -> Change {
    Change::To(RequestModel { settings: SettingsModel { ap, ..r.settings }, ..r })
}

pub open spec fn with_settings(r: RequestModel, settings: SettingsModel) -> Change {
    Change::To(RequestModel { settings, ..r })
}

/// The options that hold a frequency. `single` is the bit pattern of the value in
/// single precision, where it is a number.
pub open spec fn frequency_change(
    r: RequestModel,
    option: Seq<char>,
    value: Seq<char>,
    single: Option<u32>,
) -> Change {
    if option == "--min-hz"@ {
        match single {
            Some(hz) => with_settings(r, SettingsModel { low_hz: hz, ..r.settings }),
            None => invalid("minimum frequency"@, value),
        }
    } else if option == "--max-hz"@ {
        match single {
            Some(hz) => with_settings(r, SettingsModel { high_hz: hz, ..r.settings }),
            None => invalid("maximum frequency"@, value),
        }
    } else if option == "--rx-freq"@ || option == "--priority-hz"@ {
        match single {
            Some(hz) => with_settings(r, SettingsModel { priority_hz: Some(hz), ..r.settings }),
            None => invalid("priority frequency"@, value),
        }
    } else if option == "--priority-tolerance-hz"@ {
        match single {
            Some(hz) => with_settings(r, SettingsModel { priority_tolerance_hz: hz, ..r.settings }),
            None => invalid("priority tolerance"@, value),
        }
    } else if option == "--ap-width-hz"@ {
        match single {
            Some(hz) => with_ap(r, ApModel { width_hz: hz, ..r.settings.ap }),
            None => invalid("AP width"@, value),
        }
    } else if option == "--tx-freq"@ {
        match single {
            Some(hz) => with_ap(r, ApModel { tx_hz: Some(hz), ..r.settings.ap }),
            None => invalid("TX audio frequency"@, value),
        }
    } else {
        Change::Other
    }
}

/// The options that describe the contact.
pub open spec fn contact_change(r: RequestModel, option: Seq<char>, value: Seq<char>) -> Change {
    let ap = r.settings.ap;
    if option == "--ap"@ {
        match ApMode::of_name(value) {
            Some(mode) => with_settings(
                r,
                SettingsModel {
                    assistance: mode != ApMode::Off,
                    ap: ApModel { mode, ..ap },
                    ..r.settings
                },
            ),
            None => invalid("AP mode"@, value),
        }
    } else if option == "--my-call"@ {
        with_ap(r, ApModel { my_call: Some(uppercase(trim(value))), ..ap })
    } else if option == "--dx-call"@ {
        with_ap(r, ApModel { dx_call: Some(uppercase(trim(value))), ..ap })
    } else if option == "--dx-grid"@ {
        with_ap(r, ApModel { dx_grid: Some(uppercase(value)), ..ap })
    } else if option == "--qso-state"@ {
        match ContactState::of_name(value) {
            Some(state) => with_ap(r, ApModel { state, ..ap }),
            None => invalid("QSO state"@, value),
        }
    } else if option == "--activity"@ {
        match Activity::of_name(value) {
            Some(activity) => with_ap(r, ApModel { activity, ..ap }),
            None => invalid("operating activity"@, value),
        }
    } else {
        Change::Other
    }
}

/// The options that say how thoroughly, from which channel and in which form to
/// decode.
pub open spec fn decode_change(r: RequestModel, option: Seq<char>, value: Seq<char>) -> Change {
    if option == "--mode"@ {
        if value == "ft8"@ {
            Change::To(RequestModel { mode: Mode::Ft8, ..r })
        } else if value == "ft4"@ {
            Change::To(RequestModel { mode: Mode::Ft4, ..r })
        } else {
            Change::Wrong("mode must be ft8 or ft4"@)
        }
    } else if option == "--depth"@ {
        match unsigned_value(value) {
            Some(n) if n <= u8::MAX => with_settings(
                r,
                SettingsModel { depth: n as u8, ..r.settings },
            ),
            _ => invalid("depth"@, value),
        }
    } else if option == "--threads"@ {
        match unsigned_value(value) {
            Some(n) if n <= usize::MAX => with_settings(
                r,
                SettingsModel { threads: n as usize, ..r.settings },
            ),
            _ => invalid("threads"@, value),
        }
    } else if option == "--channel"@ {
        if value == "left"@ {
            Change::To(RequestModel { channel: Channel::Left, ..r })
        } else if value == "right"@ {
            Change::To(RequestModel { channel: Channel::Right, ..r })
        } else if value == "mix"@ {
            Change::To(RequestModel { channel: Channel::Mix, ..r })
        } else {
            Change::Wrong("channel must be left, right, or mix"@)
        }
    } else if option == "--output"@ {
        match OutputFormat::of_name(value) {
            Some(format) => Change::To(
                RequestModel { output: OutputModel { format, ..r.output }, ..r },
            ),
            None => Change::Wrong("output must be text or jsonl"@),
        }
    } else {
        Change::Other
    }
}

/// The options that may be given once.
pub open spec fn single_change(r: RequestModel, option: Seq<char>, value: Seq<char>) -> Change {
    if option == "--fields"@ {
        match fields_of(value) {
            Ok(fields) => Change::To(
                RequestModel { output: OutputModel { fields: Some(fields), ..r.output }, ..r },
            ),
            Err(error) => Change::Wrong(error),
        }
    } else if option == "--slot-offset-seconds"@ {
        if !is_seconds(value) {
            Change::Wrong(
                "slot offset seconds must be nonnegative decimal seconds with at most 9 fractional digits"@,
            )
        } else if crate::text::decimal_value(whole_part(value)) > u64::MAX {
            Change::Wrong("slot offset seconds exceeds range"@)
        } else if ceiling(nanoseconds(value) as int * 12000, 1_000_000_000) > u64::MAX {
            Change::Wrong("slot offset exceeds decoder sample range"@)
        } else {
            Change::To(
                RequestModel {
                    seconds: Some(
                        ceiling(nanoseconds(value) as int * 12000, 1_000_000_000) as u64,
                    ),
                    ..r
                },
            )
        }
    } else if option == "--slot-offset-samples"@ {
        match unsigned_value(value) {
            Some(n) => Change::To(RequestModel { relative: Some(n as u64), ..r }),
            None => invalid("slot offset"@, value),
        }
    } else if option == "--start-utc-ns"@ {
        match unsigned_value(value) {
            Some(n) => Change::To(RequestModel { utc: Some(n as u64), ..r }),
            None => invalid("UTC timestamp"@, value),
        }
    } else {
        Change::Other
    }
}

/// Why an option may not be given again, if so; asked before its value is read.
pub open spec fn repeated(r: RequestModel, option: Seq<char>) -> Option<Seq<char>> {
    if option == "--known-call"@ && r.settings.ap.known_calls.len() >= 400 {
        Some("at most 400 known calls"@)
    } else if option == "--fields"@ && r.output.fields is Some {
        Some("fields specified twice"@)
    } else if option == "--slot-offset-seconds"@ && r.seconds is Some {
        Some("slot offset seconds specified twice"@)
    } else if option == "--slot-offset-samples"@ && r.relative is Some {
        Some("slot offset specified twice"@)
    } else if option == "--start-utc-ns"@ && r.utc is Some {
        Some("UTC specified twice"@)
    } else {
        None
    }
}

/// What an option with a value does.
pub open spec fn value_change(
    r: RequestModel,
    option: Seq<char>,
    value: Seq<char>,
    single: Option<u32>,
) -> Change {
    if option == "--known-call"@ {
        with_ap(
            r,
            ApModel {
                known_calls: r.settings.ap.known_calls.push(uppercase(trim(value))),
                ..r.settings.ap
            },
        )
    } else if frequency_change(r, option, value, single) !is Other {
        frequency_change(r, option, value, single)
    } else if contact_change(r, option, value) !is Other {
        contact_change(r, option, value)
    } else if decode_change(r, option, value) !is Other {
        decode_change(r, option, value)
    } else {
        single_change(r, option, value)
    }
}

/// The options that take a value.
pub const VALUED: [&'static str; 23] = [
    "--mode", "--min-hz", "--max-hz", "--rx-freq", "--priority-hz", "--priority-tolerance-hz",
    "--ap", "--ap-width-hz", "--tx-freq", "--my-call", "--dx-call", "--dx-grid", "--qso-state",
    "--activity", "--known-call", "--depth", "--threads", "--channel", "--output", "--fields",
    "--slot-offset-seconds", "--slot-offset-samples", "--start-utc-ns",
];

pub open spec fn takes_value(option: Seq<char>) -> bool {
    crate::json::listed(VALUED@, option)
}

/// What an option without a value does.
pub open spec fn flag_change(r: RequestModel, option: Seq<char>) -> Change {
    let o = r.output;
    if option == "-v"@ || option == "--verbose"@ {
        Change::To(
            RequestModel {
                output: OutputModel {
                    verbosity: if o.verbosity >= 1 {
                        2
                    } else {
                        1
                    },
                    ..o
                },
                ..r
            },
        )
    } else if option == "-vv"@ {
        Change::To(RequestModel { output: OutputModel { verbosity: 2, ..o }, ..r })
    } else if option == "--stats"@ {
        Change::To(RequestModel { output: OutputModel { stats: true, ..o }, ..r })
    } else if option == "--no-slot-separators"@ {
        Change::To(RequestModel { output: OutputModel { slot_separators: false, ..o }, ..r })
    } else if option == "--quiet"@ {
        Change::To(RequestModel { output: OutputModel { quiet: true, ..o }, ..r })
    } else {
        Change::Wrong("unknown decode option: "@ + option)
    }
}

/// The request after the arguments from `i` on. `singles` gives for each argument
/// the bit pattern of its value in single precision, where it is a number.
pub open spec fn request_from(
    r: RequestModel,
    args: Seq<Seq<char>>,
    singles: Seq<Option<u32>>,
    i: int,
) -> Result<RequestModel, Seq<char>>
    decreases args.len() - i,
{
    if i >= args.len() {
        Ok(r)
    } else if takes_value(args[i]) {
        if repeated(r, args[i]) is Some {
            Err(repeated(r, args[i])->0)
        } else if i + 1 >= args.len() {
            Err("missing option value"@)
        } else {
            match value_change(r, args[i], args[i + 1], singles[i + 1]) {
                Change::To(next) => request_from(next, args, singles, i + 2),
                Change::Wrong(error) => Err(error),
                Change::Other => Err("unknown decode option: "@ + args[i]),
            }
        }
    } else {
        match flag_change(r, args[i]) {
            Change::To(next) => request_from(next, args, singles, i + 1),
            Change::Wrong(error) => Err(error),
            Change::Other => Err("unknown decode option: "@ + args[i]),
        }
    }
}

/// How many of the three origins are given.
pub open spec fn origins(r: RequestModel) -> int {
    (if r.utc is Some {
        1int
    } else {
        0
    }) + (if r.relative is Some {
        1int
    } else {
        0
    }) + (if r.seconds is Some {
        1int
    } else {
        0
    })
}

/// What is wrong with the output options, if anything.
pub open spec fn output_complaint(o: OutputModel) -> Option<Seq<char>> {
    if o.format == OutputFormat::Jsonl && o.fields is Some {
        Some("--fields is available only with text output"@)
    } else {
        match o.fields {
            None => None,
            Some(fields) => match fields_of(crate::output_options::joined(fields)) {
                Err(error) => Some(error),
                Ok(parsed) => if parsed != fields {
                    Some("invalid output fields"@)
                } else {
                    None
                },
            },
        }
    }
}

/// The request of an argument list, or what is wrong with it.
pub open spec fn requested(args: Seq<Seq<char>>, singles: Seq<Option<u32>>) -> Result<
    RequestModel,
    Seq<char>,
> {
    if args.len() == 0 || (args[0].len() > 0 && args[0][0] == '-') {
        Err("decode requires a WAV path"@)
    } else {
        match request_from(initial_request(args[0]), args, singles, 1) {
            Err(error) => Err(error),
            Ok(r) => match r.settings.complaint() {
                Some(error) => Err(error),
                None => match output_complaint(r.output) {
                    Some(error) => Err(error),
                    None => if origins(r) > 1 {
                        Err(
                            "choose exactly one of --start-utc-ns, --slot-offset-samples, or --slot-offset-seconds"@,
                        )
                    } else {
                        Ok(r)
                    },
                },
            },
        }
    }
}

// ---------------------------------------------------------------------------
// Executable forms
// ---------------------------------------------------------------------------

spec fn agrees(
    applied: Applied,
    change: Change,
    before: RequestModel,
    after: RequestModel,
) -> bool {
    match (applied, change) {
        (Applied::Other, Change::Other) => after == before,
        (Applied::Done, Change::To(next)) => after == next,
        (Applied::Wrong(error), Change::Wrong(expected)) => error@ == expected,
        _ => false,
    }
}

fn wrong(label: &str, value: &str) -> (r: Applied)
    ensures
        r matches Applied::Wrong(error) && Change::Wrong(error@) == invalid(label@, value@),
{
    let mut error: String = "invalid ".to_owned();
    error.append(label);
    error.append(": ");
    error.append(value);
    Applied::Wrong(error)
}

fn apply_frequency(
    r: &mut DecodeRequest,
    option: &str,
    value: &str,
    single: Option<u32>,
) -> (applied: Applied)
    ensures
        agrees(
            applied,
            frequency_change(old(r).deep_view(), option@, value@, single),
            old(r).deep_view(),
            final(r).deep_view(),
        ),
{
    if same(option, "--min-hz") {
        match single {
            Some(hz) => {
                r.settings.low_hz = hz;
                Applied::Done
            },
            None => wrong("minimum frequency", value),
        }
    } else if same(option, "--max-hz") {
        match single {
            Some(hz) => {
                r.settings.high_hz = hz;
                Applied::Done
            },
            None => wrong("maximum frequency", value),
        }
    } else if same(option, "--rx-freq") || same(option, "--priority-hz") {
        match single {
            Some(hz) => {
                r.settings.priority_hz = Some(hz);
                Applied::Done
            },
            None => wrong("priority frequency", value),
        }
    } else if same(option, "--priority-tolerance-hz") {
        match single {
            Some(hz) => {
                r.settings.priority_tolerance_hz = hz;
                Applied::Done
            },
            None => wrong("priority tolerance", value),
        }
    } else if same(option, "--ap-width-hz") {
        match single {
            Some(hz) => {
                r.settings.ap.width_hz = hz;
                Applied::Done
            },
            None => wrong("AP width", value),
        }
    } else if same(option, "--tx-freq") {
        match single {
            Some(hz) => {
                r.settings.ap.tx_hz = Some(hz);
                Applied::Done
            },
            None => wrong("TX audio frequency", value),
        }
    } else {
        Applied::Other
    }
}

fn apply_contact(r: &mut DecodeRequest, option: &str, value: &str) -> (applied: Applied)
    ensures
        agrees(
            applied,
            contact_change(old(r).deep_view(), option@, value@),
            old(r).deep_view(),
            final(r).deep_view(),
        ),
{
    if same(option, "--ap") {
        match ApMode::parse(value) {
            Ok(mode) => {
                r.settings.ap.mode = mode;
                r.settings.assistance = mode != ApMode::Off;
                Applied::Done
            },
            Err(_) => wrong("AP mode", value),
        }
    } else if same(option, "--my-call") {
        r.settings.ap.my_call = Some(uppercased(trimmed(value)));
        Applied::Done
    } else if same(option, "--dx-call") {
        r.settings.ap.dx_call = Some(uppercased(trimmed(value)));
        Applied::Done
    } else if same(option, "--dx-grid") {
        r.settings.ap.dx_grid = Some(uppercased(value));
        Applied::Done
    } else if same(option, "--qso-state") {
        match ContactState::parse(value) {
            Ok(state) => {
                r.settings.ap.state = state;
                Applied::Done
            },
            Err(_) => wrong("QSO state", value),
        }
    } else if same(option, "--activity") {
        match Activity::parse(value) {
            Ok(activity) => {
                r.settings.ap.activity = activity;
                Applied::Done
            },
            Err(_) => wrong("operating activity", value),
        }
    } else {
        Applied::Other
    }
}

fn apply_decode(r: &mut DecodeRequest, option: &str, value: &str) -> (applied: Applied)
    ensures
        agrees(
            applied,
            decode_change(old(r).deep_view(), option@, value@),
            old(r).deep_view(),
            final(r).deep_view(),
        ),
{
    if same(option, "--mode") {
        if same(value, "ft8") {
            r.mode = Mode::Ft8;
            Applied::Done
        } else if same(value, "ft4") {
            r.mode = Mode::Ft4;
            Applied::Done
        } else {
            Applied::Wrong("mode must be ft8 or ft4".to_owned())
        }
    } else if same(option, "--depth") {
        match unsigned(value) {
            Some(n) => if n <= 255 {
                r.settings.depth = n as u8;
                Applied::Done
            } else {
                wrong("depth", value)
            },
            None => wrong("depth", value),
        }
    } else if same(option, "--threads") {
        match unsigned(value) {
            Some(n) => if n <= usize::MAX as u64 {
                r.settings.threads = n as usize;
                Applied::Done
            } else {
                wrong("threads", value)
            },
            None => wrong("threads", value),
        }
    } else if same(option, "--channel") {
        if same(value, "left") {
            r.channel = Channel::Left;
            Applied::Done
        } else if same(value, "right") {
            r.channel = Channel::Right;
            Applied::Done
        } else if same(value, "mix") {
            r.channel = Channel::Mix;
            Applied::Done
        } else {
            Applied::Wrong("channel must be left, right, or mix".to_owned())
        }
    } else if same(option, "--output") {
        match OutputFormat::parse(value) {
            Ok(format) => {
                r.output.format = format;
                Applied::Done
            },
            Err(_) => Applied::Wrong("output must be text or jsonl".to_owned()),
        }
    } else {
        Applied::Other
    }
}

fn apply_single(r: &mut DecodeRequest, option: &str, value: &str) -> (applied: Applied)
    ensures
        agrees(
            applied,
            single_change(old(r).deep_view(), option@, value@),
            old(r).deep_view(),
            final(r).deep_view(),
        ),
{
    if same(option, "--fields") {
        match OutputOptions::parse_fields(value) {
            Ok(fields) => {
                r.output.fields = Some(fields);
                Applied::Done
            },
            Err(error) => Applied::Wrong(error),
        }
    } else if same(option, "--slot-offset-seconds") {
        match seconds_offset(value) {
            Ok(offset) => {
                proof {
                    lemma_whole_seconds_fit(value@);
                }
                r.seconds = Some(offset);
                Applied::Done
            },
            Err(error) => Applied::Wrong(error),
        }
    } else if same(option, "--slot-offset-samples") {
        match unsigned(value) {
            Some(n) => {
                r.relative = Some(n);
                Applied::Done
            },
            None => wrong("slot offset", value),
        }
    } else if same(option, "--start-utc-ns") {
        match unsigned(value) {
            Some(n) => {
                r.utc = Some(n);
                Applied::Done
            },
            None => wrong("UTC timestamp", value),
        }
    } else {
        Applied::Other
    }
}

/// Seconds whose sample count fits in 64 bits do so themselves.
proof fn lemma_whole_seconds_fit(value: Seq<char>)
    requires
        ceiling(nanoseconds(value) as int * 12000, 1_000_000_000) <= u64::MAX,
    ensures
        crate::text::decimal_value(whole_part(value)) <= u64::MAX,
{
}

fn apply_value(
    r: &mut DecodeRequest,
    option: &str,
    value: &str,
    single: Option<u32>,
) -> (applied: Applied)
    ensures
        agrees(
            applied,
            value_change(old(r).deep_view(), option@, value@, single),
            old(r).deep_view(),
            final(r).deep_view(),
        ),
{
    if same(option, "--known-call") {
        let call: String = uppercased(trimmed(value));
        let ghost before = r.settings.ap.known_calls.deep_view();
        r.settings.ap.known_calls.push(call);
        assert(r.settings.ap.known_calls.deep_view() =~= before.push(call@));
        return Applied::Done;
    }
    match apply_frequency(r, option, value, single) {
        Applied::Other => {},
        other => {
            return other;
        },
    }
    match apply_contact(r, option, value) {
        Applied::Other => {},
        other => {
            return other;
        },
    }
    match apply_decode(r, option, value) {
        Applied::Other => {},
        other => {
            return other;
        },
    }
    apply_single(r, option, value)
}

fn refuse_repeated(r: &DecodeRequest, option: &str) -> (refusal: Option<String>)
    ensures
        refusal.deep_view() == repeated(r.deep_view(), option@),
{
    if same(option, "--known-call") && r.settings.ap.known_calls.len() >= 400 {
        Some("at most 400 known calls".to_owned())
    } else if same(option, "--fields") && r.output.fields.is_some() {
        Some("fields specified twice".to_owned())
    } else if same(option, "--slot-offset-seconds") && r.seconds.is_some() {
        Some("slot offset seconds specified twice".to_owned())
    } else if same(option, "--slot-offset-samples") && r.relative.is_some() {
        Some("slot offset specified twice".to_owned())
    } else if same(option, "--start-utc-ns") && r.utc.is_some() {
        Some("UTC specified twice".to_owned())
    } else {
        None
    }
}

fn apply_flag(r: &mut DecodeRequest, option: &str) -> (applied: Applied)
    ensures
        agrees(
            applied,
            flag_change(old(r).deep_view(), option@),
            old(r).deep_view(),
            final(r).deep_view(),
        ),
{
    if same(option, "-v") || same(option, "--verbose") {
        r.output.verbosity = if r.output.verbosity >= 1 { 2 } else { 1 };
        Applied::Done
    } else if same(option, "-vv") {
        r.output.verbosity = 2;
        Applied::Done
    } else if same(option, "--stats") {
        r.output.stats = true;
        Applied::Done
    } else if same(option, "--no-slot-separators") {
        r.output.slot_separators = false;
        Applied::Done
    } else if same(option, "--quiet") {
        r.output.quiet = true;
        Applied::Done
    } else {
        let mut error: String = "unknown decode option: ".to_owned();
        error.append(option);
        Applied::Wrong(error)
    }
}

fn unknown_option(option: &str) -> (r: String)
    ensures
        r@ == "unknown decode option: "@ + option@,
{
    let mut error: String = "unknown decode option: ".to_owned();
    error.append(option);
    error
}

/// Reads the arguments of the decode command. `singles` gives for each argument
/// the bit pattern of its value in single precision, where it is a number.
pub fn decode_request(args: &Vec<String>, singles: &Vec<Option<u32>>) -> (r: Result<
    DecodeRequest,
    String,
>)
    requires
        singles.len() == args.len(),
    ensures
        match r {
            Ok(request) => requested(args.deep_view(), singles@) == Ok::<RequestModel, Seq<char>>(
                request.deep_view(),
            ),
            Err(error) => requested(args.deep_view(), singles@) == Err::<RequestModel, Seq<char>>(
                error@,
            ),
        },
{
    let ghost all = args.deep_view();
    if args.len() == 0 {
        return Err("decode requires a WAV path".to_owned());
    }
    assert(all[0] == args@[0]@);
    if starts_with_char(args[0].as_str(), '-') {
        return Err("decode requires a WAV path".to_owned());
    }
    let mut request: DecodeRequest = DecodeRequest {
        path: args[0].clone(),
        mode: Mode::Ft8,
        settings: DecodeSettings::default(),
        channel: Channel::Left,
        output: OutputOptions::default(),
        utc: None,
        relative: None,
        seconds: None,
    };
    assert(request.deep_view() =~= initial_request(all[0]));
    let ghost whole = request_from(initial_request(all[0]), all, singles@, 1);
    let mut i: usize = 1;
    while i < args.len()
        invariant
            1 <= i <= args.len(),
            singles.len() == args.len(),
            all == args.deep_view(),
            all.len() > 0,
            !(all[0].len() > 0 && all[0][0] == '-'),
            whole == request_from(initial_request(all[0]), all, singles@, 1),
            whole == request_from(request.deep_view(), all, singles@, i as int),
        decreases args.len() - i,
    {
        assert(all[i as int] == args@[i as int]@);
        let option: &str = args[i].as_str();
        if crate::json::is_listed(&VALUED, option) {
            match refuse_repeated(&request, option) {
                Some(error) => {
                    return Err(error);
                },
                None => {},
            }
            if i + 1 >= args.len() {
                return Err("missing option value".to_owned());
            }
            assert(all[i + 1] == args@[i + 1]@);
            match apply_value(&mut request, option, args[i + 1].as_str(), singles[i + 1]) {
                Applied::Done => {},
                Applied::Wrong(error) => {
                    return Err(error);
                },
                Applied::Other => {
                    return Err(unknown_option(option));
                },
            }
            i = i + 2;
        } else {
            match apply_flag(&mut request, option) {
                Applied::Done => {},
                Applied::Wrong(error) => {
                    return Err(error);
                },
                Applied::Other => {
                    return Err(unknown_option(option));
                },
            }
            i = i + 1;
        }
    }
    match request.settings.validate() {
        Ok(_) => {},
        Err(error) => {
            return Err(error);
        },
    }
    match request.output.validate() {
        Ok(_) => {},
        Err(error) => {
            return Err(error);
        },
    }
    let two: bool = (request.utc.is_some() && (request.relative.is_some()
        || request.seconds.is_some())) || (request.relative.is_some() && request.seconds.is_some());
    if two {
        return Err(
            "choose exactly one of --start-utc-ns, --slot-offset-samples, or --slot-offset-seconds".to_owned(),
        );
    }
    Ok(request)
}

/// Where the slots of a file start.
#[derive(Debug, Clone, Copy, PartialEq, Eq)]
pub enum Origin {
    /// The time of the first sample.
    Utc(u64),
    /// The first slot boundary in decoder samples.
    Offset(u64),
}

/// Where the slots of a file of `frames` frames at `rate` start. Only a recording
/// of at most one slot may go without an origin.
pub fn slot_origin(request: &DecodeRequest, frames: u64, rate: u32) -> (r: Result<Origin, String>)
    requires
        rate > 0,
        origins(request.deep_view()) <= 1,
    ensures
        match r {
            Ok(origin) => origin == (match (request.utc, request.relative, request.seconds) {
                (Some(utc), _, _) => Origin::Utc(utc),
                (None, Some(n), _) => Origin::Offset(ceiling(n * 12000, rate as int) as u64),
                (None, None, Some(samples)) => Origin::Offset(samples),
                (None, None, None) => Origin::Offset(0),
            }) && (request.utc is None && request.relative is None && request.seconds is None
                ==> frames * 12000 <= request.mode.period() * rate) && (request.relative matches Some(
                n,
            ) ==> ceiling(n * 12000, rate as int) <= u64::MAX),
            Err(error) => {
                ||| request.relative matches Some(n) && ceiling(n * 12000, rate as int) > u64::MAX
                    && error@ == "slot offset exceeds decoder sample range"@
                ||| request.utc is None && request.relative is None && request.seconds is None
                    && frames * 12000 > request.mode.period() * rate && error@
                    == "longer recordings require --slot-offset-samples, --slot-offset-seconds, or --start-utc-ns"@
            },
        },
{
    match request.utc {
        Some(utc) => {
            return Ok(Origin::Utc(utc));
        },
        None => {},
    }
    match request.relative {
        Some(n) => {
            return match source_offset(n, rate) {
                Ok(offset) => Ok(Origin::Offset(offset)),
                Err(error) => Err(error),
            };
        },
        None => {},
    }
    match request.seconds {
        Some(samples) => {
            return Ok(Origin::Offset(samples));
        },
        None => {},
    }
    let slot: u128 = match request.mode {
        Mode::Ft8 => 180000 * rate as u128,
        Mode::Ft4 => 90000 * rate as u128,
    };
    if frames as u128 * 12000 > slot {
        return Err(
            "longer recordings require --slot-offset-samples, --slot-offset-seconds, or --start-utc-ns".to_owned(),
        );
    }
    Ok(Origin::Offset(0))
}

} // verus!
