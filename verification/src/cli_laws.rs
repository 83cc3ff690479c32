//! What the options of the decode command set.
use vstd::prelude::*;
use crate::assistance::{Activity, ApMode, ApModel, ContactState};
use crate::audio_input::Channel;
use crate::cli::{
    contact_change, decode_change, flag_change, frequency_change, initial_request, repeated,
    request_from, requested, single_change, takes_value, value_change, Change, OutputModel,
    RequestModel,
};
use crate::commands::{serve_from, ServeRequest};
use crate::engine::{Mode, SettingsModel};
use crate::message_encode::unsigned_value;
use crate::output_options::OutputFormat;
use crate::text::{all_digits, decimal_value, find_char, lemma_find_char, trim, uppercase};
use crate::wav_cli::{ceiling, fraction_nanos, fraction_part, is_seconds, nanoseconds};

verus! {

// ---------------------------------------------------------------------------
// Options with a value
// ---------------------------------------------------------------------------

/// The text is a numeral of this number, perhaps with a plus sign.
pub open spec fn is_numeral(text: Seq<char>, n: int) -> bool {
    ||| all_digits(text) && text.len() > 0 && decimal_value(text) == n
    ||| text.len() > 1 && text[0] == '+' && all_digits(text.skip(1)) && decimal_value(text.skip(1))
        == n
}

/// The options with a value have different names: of different lengths, or with different
/// letters in one place.
proof fn lemma_options_differ()
    ensures
        "--ap"@.len() == 4,
        "--mode"@.len() == 6,
        "--depth"@.len() == 7,
        "--min-hz"@.len() == 8 && "--min-hz"@[4] == 'n',
        "--max-hz"@.len() == 8 && "--max-hz"@[4] == 'x',
        "--output"@.len() == 8 && "--output"@[4] == 't',
        "--fields"@.len() == 8 && "--fields"@[4] == 'e',
        "--rx-freq"@.len() == 9 && "--rx-freq"@[2] == 'r' && "--rx-freq"@[5] == 'f',
        "--tx-freq"@.len() == 9 && "--tx-freq"@[2] == 't' && "--tx-freq"@[5] == 'f',
        "--my-call"@.len() == 9 && "--my-call"@[2] == 'm' && "--my-call"@[5] == 'c',
        "--dx-call"@.len() == 9 && "--dx-call"@[2] == 'd' && "--dx-call"@[5] == 'c',
        "--dx-grid"@.len() == 9 && "--dx-grid"@[2] == 'd' && "--dx-grid"@[5] == 'g',
        "--threads"@.len() == 9 && "--threads"@[2] == 't' && "--threads"@[5] == 'e',
        "--channel"@.len() == 9 && "--channel"@[2] == 'c' && "--channel"@[5] == 'n',
        "--activity"@.len() == 10,
        "--qso-state"@.len() == 11,
        "--known-call"@.len() == 12,
        "--priority-hz"@.len() == 13 && "--priority-hz"@[2] == 'p',
        "--ap-width-hz"@.len() == 13 && "--ap-width-hz"@[2] == 'a',
        "--start-utc-ns"@.len() == 14,
        "--slot-offset-seconds"@.len() == 21 && "--slot-offset-seconds"@[15] == 'e',
        "--slot-offset-samples"@.len() == 21 && "--slot-offset-samples"@[15] == 'a',
        "--priority-tolerance-hz"@.len() == 23,
{
    reveal_strlit("--mode");
    reveal_strlit("--min-hz");
    reveal_strlit("--max-hz");
    reveal_strlit("--rx-freq");
    reveal_strlit("--priority-hz");
    reveal_strlit("--priority-tolerance-hz");
    reveal_strlit("--ap");
    reveal_strlit("--ap-width-hz");
    reveal_strlit("--tx-freq");
    reveal_strlit("--my-call");
    reveal_strlit("--dx-call");
    reveal_strlit("--dx-grid");
    reveal_strlit("--qso-state");
    reveal_strlit("--activity");
    reveal_strlit("--known-call");
    reveal_strlit("--depth");
    reveal_strlit("--threads");
    reveal_strlit("--channel");
    reveal_strlit("--output");
    reveal_strlit("--fields");
    reveal_strlit("--slot-offset-seconds");
    reveal_strlit("--slot-offset-samples");
    reveal_strlit("--start-utc-ns");
}

/// So have the options without one.
proof fn lemma_flags_differ()
    ensures
        "-v"@.len() == 2,
        "-vv"@.len() == 3,
        "--stats"@.len() == 7 && "--stats"@[2] == 's',
        "--quiet"@.len() == 7 && "--quiet"@[2] == 'q',
        "--verbose"@.len() == 9,
        "--no-slot-separators"@.len() == 20,
{
    reveal_strlit("-v");
    reveal_strlit("--verbose");
    reveal_strlit("-vv");
    reveal_strlit("--stats");
    reveal_strlit("--no-slot-separators");
    reveal_strlit("--quiet");
}

/// A frequency option sets the value that it names and no other.
pub proof fn frequencies_are_set(
    r: RequestModel,
    option: Seq<char>,
    value: Seq<char>,
    single: Option<u32>,
    n: RequestModel,
)
    requires
        frequency_change(r, option, value, single) == Change::To(n),
    ensures
        ({
            let old = r.settings;
            let new = n.settings;
            &&& n == (RequestModel {
                settings: SettingsModel {
                    low_hz: new.low_hz,
                    high_hz: new.high_hz,
                    priority_hz: new.priority_hz,
                    priority_tolerance_hz: new.priority_tolerance_hz,
                    ap: ApModel { width_hz: new.ap.width_hz, tx_hz: new.ap.tx_hz, ..old.ap },
                    ..old
                },
                ..r
            })
            &&& option == "--min-hz"@ ==> Some(new.low_hz) == single
            &&& option != "--min-hz"@ ==> new.low_hz == old.low_hz
            &&& option == "--max-hz"@ ==> Some(new.high_hz) == single
            &&& option != "--max-hz"@ ==> new.high_hz == old.high_hz
            &&& option == "--rx-freq"@ || option == "--priority-hz"@ ==> new.priority_hz == single
                && single is Some
            &&& option != "--rx-freq"@ && option != "--priority-hz"@ ==> new.priority_hz
                == old.priority_hz
            &&& option == "--priority-tolerance-hz"@ ==> Some(new.priority_tolerance_hz) == single
            &&& option != "--priority-tolerance-hz"@ ==> new.priority_tolerance_hz
                == old.priority_tolerance_hz
            &&& option == "--ap-width-hz"@ ==> Some(new.ap.width_hz) == single
            &&& option != "--ap-width-hz"@ ==> new.ap.width_hz == old.ap.width_hz
            &&& option == "--tx-freq"@ ==> new.ap.tx_hz == single && single is Some
            &&& option != "--tx-freq"@ ==> new.ap.tx_hz == old.ap.tx_hz
        }),
{
    lemma_options_differ();
}

/// An option on the contact sets what it names and nothing else.
pub proof fn contacts_are_described(
    r: RequestModel,
    option: Seq<char>,
    value: Seq<char>,
    n: RequestModel,
)
    requires
        contact_change(r, option, value) == Change::To(n),
    ensures
        ({
            let old = r.settings.ap;
            let new = n.settings.ap;
            &&& n == (RequestModel {
                settings: SettingsModel {
                    assistance: n.settings.assistance,
                    ap: ApModel {
                        width_hz: old.width_hz,
                        tx_hz: old.tx_hz,
                        known_calls: old.known_calls,
                        ..new
                    },
                    ..r.settings
                },
                ..r
            })
            &&& option == "--ap"@ ==> value == (match new.mode {
                ApMode::Off => "off"@,
                ApMode::Cq => "cq"@,
                ApMode::Auto => "auto"@,
            }) && n.settings.assistance == (new.mode != ApMode::Off)
            &&& option != "--ap"@ ==> new.mode == old.mode && n.settings.assistance
                == r.settings.assistance
            &&& option == "--my-call"@ ==> new.my_call == Some(uppercase(trim(value)))
            &&& option != "--my-call"@ ==> new.my_call == old.my_call
            &&& option == "--dx-call"@ ==> new.dx_call == Some(uppercase(trim(value)))
            &&& option != "--dx-call"@ ==> new.dx_call == old.dx_call
            &&& option == "--dx-grid"@ ==> new.dx_grid == Some(uppercase(value))
            &&& option != "--dx-grid"@ ==> new.dx_grid == old.dx_grid
            &&& option == "--qso-state"@ ==> value == (match new.state {
                ContactState::CallingCq => "calling-cq"@,
                ContactState::CallingStation => "calling-station"@,
                ContactState::Report => "report"@,
                ContactState::RogerReport => "roger-report"@,
                ContactState::Rogers => "rogers"@,
                ContactState::Signoff => "signoff"@,
            })
            &&& option != "--qso-state"@ ==> new.state == old.state
            &&& option == "--activity"@ ==> value == (match new.activity {
                Activity::Normal => "normal"@,
                Activity::NaVhf => "na-vhf"@,
                Activity::EuVhf => "eu-vhf"@,
                Activity::FieldDay => "field-day"@,
                Activity::Rtty => "rtty"@,
                Activity::WwDigi => "ww-digi"@,
                Activity::Fox => "fox"@,
                Activity::Hound => "hound"@,
                Activity::ArrlDigi => "arrl-digi"@,
            })
            &&& option != "--activity"@ ==> new.activity == old.activity
        }),
{
    lemma_options_differ();
}

/// An option on the decoding, the source or the form of the output sets what it names and
/// nothing else.
pub proof fn decoding_is_described(
    r: RequestModel,
    option: Seq<char>,
    value: Seq<char>,
    n: RequestModel,
)
    requires
        decode_change(r, option, value) == Change::To(n),
    ensures
        n == (RequestModel {
            mode: n.mode,
            channel: n.channel,
            settings: SettingsModel {
                depth: n.settings.depth,
                threads: n.settings.threads,
                ..r.settings
            },
            output: OutputModel { format: n.output.format, ..r.output },
            ..r
        }),
        option == "--mode"@ ==> value == (match n.mode {
            Mode::Ft8 => "ft8"@,
            Mode::Ft4 => "ft4"@,
        }),
        option != "--mode"@ ==> n.mode == r.mode,
        option == "--depth"@ ==> is_numeral(value, n.settings.depth as int),
        option != "--depth"@ ==> n.settings.depth == r.settings.depth,
        option == "--threads"@ ==> is_numeral(value, n.settings.threads as int),
        option != "--threads"@ ==> n.settings.threads == r.settings.threads,
        option == "--channel"@ ==> value == (match n.channel {
            Channel::Left => "left"@,
            Channel::Right => "right"@,
            Channel::Mix => "mix"@,
        }),
        option != "--channel"@ ==> n.channel == r.channel,
        option == "--output"@ ==> value == (match n.output.format {
            OutputFormat::Text => "text"@,
            OutputFormat::Jsonl => "jsonl"@,
        }),
        option != "--output"@ ==> n.output.format == r.output.format,
{
    lemma_options_differ();
    lemma_numeral(value);
}

proof fn lemma_numeral(value: Seq<char>)
    ensures
        unsigned_value(value) matches Some(n) ==> is_numeral(value, n as int),
{
    if value.len() == 1 && value[0] == '+' {
        assert(value.skip(1).len() == 0);
    }
}

/// The first boundary is set as given: by a time, by source frames, or by seconds that are
/// rounded up to the next sample.
pub proof fn origins_are_set(r: RequestModel, option: Seq<char>, value: Seq<char>, n: RequestModel)
    requires
        single_change(r, option, value) == Change::To(n),
    ensures
        n == (RequestModel {
            output: OutputModel { fields: n.output.fields, ..r.output },
            utc: n.utc,
            relative: n.relative,
            seconds: n.seconds,
            ..r
        }),
        option == "--fields"@ ==> n.output.fields is Some,
        option != "--fields"@ ==> n.output.fields == r.output.fields,
        option == "--slot-offset-samples"@ ==> n.relative is Some && is_numeral(
            value,
            n.relative->0 as int,
        ),
        option != "--slot-offset-samples"@ ==> n.relative == r.relative,
        option == "--start-utc-ns"@ ==> n.utc is Some && is_numeral(value, n.utc->0 as int),
        option != "--start-utc-ns"@ ==> n.utc == r.utc,
        option == "--slot-offset-seconds"@ ==> n.seconds is Some && is_seconds(value) && n.seconds->0
            * 1_000_000_000 >= nanoseconds(value) * 12000 > (n.seconds->0 - 1) * 1_000_000_000,
        option != "--slot-offset-seconds"@ ==> n.seconds == r.seconds,
{
    lemma_options_differ();
    lemma_numeral(value);
    let a = nanoseconds(value) as int * 12000;
    assert(ceiling(a, 1_000_000_000) * 1_000_000_000 >= a > (ceiling(a, 1_000_000_000) - 1)
        * 1_000_000_000);
}

/// Every option is of one kind, and does what options of that kind do. A known call is added
/// to those before it.
pub proof fn options_are_of_one_kind(
    r: RequestModel,
    option: Seq<char>,
    value: Seq<char>,
    single: Option<u32>,
)
    ensures
        ({
            let change = value_change(r, option, value, single);
            &&& frequency_change(r, option, value, single) !is Other ==> change == frequency_change(
                r,
                option,
                value,
                single,
            )
            &&& contact_change(r, option, value) !is Other ==> change == contact_change(
                r,
                option,
                value,
            )
            &&& decode_change(r, option, value) !is Other ==> change == decode_change(
                r,
                option,
                value,
            )
            &&& single_change(r, option, value) !is Other ==> change == single_change(
                r,
                option,
                value,
            )
            &&& option == "--known-call"@ ==> change == Change::To(
                RequestModel {
                    settings: SettingsModel {
                        ap: ApModel {
                            known_calls: r.settings.ap.known_calls.push(uppercase(trim(value))),
                            ..r.settings.ap
                        },
                        ..r.settings
                    },
                    ..r
                },
            )
        }),
{
    lemma_kinds(r, option, value, single);
    lemma_kinds_differ(option);
}

spec fn is_frequency_option(option: Seq<char>) -> bool {
    ||| option == "--min-hz"@
    ||| option == "--max-hz"@
    ||| option == "--rx-freq"@
    ||| option == "--priority-hz"@
    ||| option == "--priority-tolerance-hz"@
    ||| option == "--ap-width-hz"@
    ||| option == "--tx-freq"@
}

spec fn is_contact_option(option: Seq<char>) -> bool {
    ||| option == "--ap"@
    ||| option == "--my-call"@
    ||| option == "--dx-call"@
    ||| option == "--dx-grid"@
    ||| option == "--qso-state"@
    ||| option == "--activity"@
}

spec fn is_decode_option(option: Seq<char>) -> bool {
    ||| option == "--mode"@
    ||| option == "--depth"@
    ||| option == "--threads"@
    ||| option == "--channel"@
    ||| option == "--output"@
}

spec fn is_single_option(option: Seq<char>) -> bool {
    ||| option == "--fields"@
    ||| option == "--slot-offset-seconds"@
    ||| option == "--slot-offset-samples"@
    ||| option == "--start-utc-ns"@
}

proof fn lemma_kinds(r: RequestModel, option: Seq<char>, value: Seq<char>, single: Option<u32>)
    ensures
        frequency_change(r, option, value, single) !is Other <==> is_frequency_option(option),
        contact_change(r, option, value) !is Other <==> is_contact_option(option),
        decode_change(r, option, value) !is Other <==> is_decode_option(option),
        single_change(r, option, value) !is Other <==> is_single_option(option),
{
}

proof fn lemma_kinds_differ(option: Seq<char>)
    ensures
        is_contact_option(option) ==> !is_frequency_option(option),
        is_decode_option(option) ==> !is_frequency_option(option),
        is_single_option(option) ==> !is_frequency_option(option),
        is_decode_option(option) ==> !is_contact_option(option),
        is_single_option(option) ==> !is_contact_option(option),
        is_single_option(option) ==> !is_decode_option(option),
        is_frequency_option(option) ==> option != "--known-call"@,
        is_contact_option(option) ==> option != "--known-call"@,
        is_decode_option(option) ==> option != "--known-call"@,
        is_single_option(option) ==> option != "--known-call"@,
{
    lemma_options_differ();
}

/// An option without a value sets what it names and nothing else: each `-v` tells more, up
/// to a bound.
pub proof fn flags_are_set(r: RequestModel, option: Seq<char>, n: RequestModel)
    requires
        flag_change(r, option) == Change::To(n),
    ensures
        n == (RequestModel { output: n.output, ..r }),
        n.output.format == r.output.format && n.output.fields == r.output.fields,
        option == "-v"@ || option == "--verbose"@ ==> n.output.verbosity == (if r.output.verbosity
            == 0 {
            1int
        } else {
            2
        }),
        option == "-vv"@ ==> n.output.verbosity == 2,
        option != "-v"@ && option != "--verbose"@ && option != "-vv"@ ==> n.output.verbosity
            == r.output.verbosity,
        n.output.stats == (r.output.stats || option == "--stats"@),
        n.output.quiet == (r.output.quiet || option == "--quiet"@),
        n.output.slot_separators == (r.output.slot_separators && option
            != "--no-slot-separators"@),
{
    lemma_flags_differ();
}

// ---------------------------------------------------------------------------
// Command lines
// ---------------------------------------------------------------------------

/// What follows a command line is applied to what it asks for: options are taken one after
/// the other.
pub proof fn options_build_on_each_other(
    r: RequestModel,
    args: Seq<Seq<char>>,
    singles: Seq<Option<u32>>,
    i: int,
    option: Seq<char>,
    value: Seq<char>,
    single: Option<u32>,
)
    requires
        0 <= i <= args.len(),
        singles.len() == args.len(),
        request_from(r, args, singles, i) is Ok,
    ensures
        ({
            let so_far = request_from(r, args, singles, i)->Ok_0;
            let valued = request_from(
                r,
                args.push(option).push(value),
                singles.push(None).push(single),
                i,
            );
            let flagged = request_from(r, args.push(option), singles.push(None), i);
            &&& takes_value(option) && repeated(so_far, option) is None ==> (value_change(
                so_far,
                option,
                value,
                single,
            ) matches Change::To(n) ==> valued == Ok::<RequestModel, Seq<char>>(n))
            &&& takes_value(option) && repeated(so_far, option) is None ==> (value_change(
                so_far,
                option,
                value,
                single,
            ) matches Change::Wrong(error) ==> valued == Err::<RequestModel, Seq<char>>(error))
            &&& !takes_value(option) ==> (flag_change(so_far, option) matches Change::To(n)
                ==> flagged == Ok::<RequestModel, Seq<char>>(n))
            &&& !takes_value(option) ==> (flag_change(so_far, option) matches Change::Wrong(error)
                ==> flagged == Err::<RequestModel, Seq<char>>(error))
        }),
    decreases args.len() - i,
{
    let longer = args.push(option).push(value);
    let more = singles.push(None).push(single);
    let with_flag = args.push(option);
    let with_none = singles.push(None);
    let n = args.len() as int;
    assert(longer[n] == option && longer[n + 1] == value && more[n + 1] == single);
    assert(with_flag[n] == option);
    if i < args.len() {
        assert(longer[i] == args[i] && with_flag[i] == args[i]);
        if takes_value(args[i]) {
            assert(longer[i + 1] == args[i + 1] && with_flag[i + 1] == args[i + 1]);
            assert(more[i + 1] == singles[i + 1] && with_none[i + 1] == singles[i + 1]);
            let next = value_change(r, args[i], args[i + 1], singles[i + 1])->To_0;
            options_build_on_each_other(next, args, singles, i + 2, option, value, single);
        } else {
            let next = flag_change(r, args[i])->To_0;
            options_build_on_each_other(next, args, singles, i + 1, option, value, single);
        }
    } else {
        if takes_value(option) && repeated(r, option) is None {
            match value_change(r, option, value, single) {
                Change::To(next) => {
                    assert(request_from(next, longer, more, n + 2) == Ok::<RequestModel, Seq<char>>(
                        next,
                    ));
                },
                _ => {},
            }
        }
        if !takes_value(option) {
            match flag_change(r, option) {
                Change::To(next) => {
                    assert(request_from(next, with_flag, with_none, n + 1) == Ok::<
                        RequestModel,
                        Seq<char>,
                    >(next));
                },
                _ => {},
            }
        }
    }
}

/// A command line that is carried out has a path, valid settings, at most one origin, and
/// chooses columns only for text; and one that its options make so is carried out.
pub proof fn sound_command_lines_are_carried_out(args: Seq<Seq<char>>, singles: Seq<Option<u32>>)
    ensures
        requested(args, singles) matches Ok(r) ==> {
            &&& args.len() > 0
            &&& r.settings.complaint() is None
            &&& r.utc is None || r.relative is None
            &&& r.utc is None || r.seconds is None
            &&& r.relative is None || r.seconds is None
            &&& r.output.format == OutputFormat::Jsonl ==> r.output.fields is None
        },
        args.len() > 0 && args[0].len() > 0 && args[0][0] != '-' ==> (request_from(
            initial_request(args[0]),
            args,
            singles,
            1,
        ) matches Ok(r) ==> {
            r.settings.complaint() is None && r.output.fields is None && (r.utc is None
                || r.relative is None) && (r.utc is None || r.seconds is None) && (r.relative is None
                || r.seconds is None) ==> requested(args, singles) == Ok::<RequestModel, Seq<char>>(
                r,
            )
        }),
{
}

/// The server listens only on a loopback address that `--bind` gives, and stops after one
/// client only where `--once` is given.
pub proof fn only_loopback_is_served(
    r: ServeRequest,
    args: Seq<Seq<char>>,
    loopback: Seq<Option<bool>>,
    i: int,
    n: ServeRequest,
)
    requires
        0 <= i <= args.len(),
        args.len() <= usize::MAX,
        loopback.len() == args.len(),
        serve_from(r, args, loopback, i) == Ok::<ServeRequest, Seq<char>>(n),
        r.address matches Some(at) ==> at < args.len(),
    ensures
        n.address matches Some(at) ==> at < args.len() && loopback[at as int] == Some(true) && (
        n.address == r.address || (at > 0 && args[at - 1] == "--bind"@)),
        r.address is Some ==> n.address is Some,
        n.once ==> r.once || args.contains("--once"@),
        r.once ==> n.once,
    decreases args.len() - i,
{
    if i < args.len() {
        if args[i] == "--bind"@ {
            only_loopback_is_served(
                ServeRequest { address: Some((i + 1) as usize), ..r },
                args,
                loopback,
                i + 2,
                n,
            );
        } else {
            only_loopback_is_served(ServeRequest { once: true, ..r }, args, loopback, i + 1, n);
        }
    }
}

// ---------------------------------------------------------------------------
// Seconds
// ---------------------------------------------------------------------------

/// Ten to the power of `k`.
pub open spec fn ten_to(k: nat) -> nat
    decreases k,
{
    if k == 0 {
        1
    } else {
        10 * ten_to((k - 1) as nat)
    }
}

proof fn lemma_fraction(fraction: Seq<char>)
    requires
        fraction.len() <= 9,
    ensures
        fraction_nanos(fraction) * ten_to(fraction.len()) == decimal_value(fraction)
            * 1_000_000_000,
    decreases 9 - fraction.len(),
{
    if fraction.len() == 9 {
        reveal_with_fuel(ten_to, 10);
    } else {
        let longer = fraction.push('0');
        lemma_fraction(longer);
        assert(longer.drop_last() =~= fraction);
        let f = fraction_nanos(fraction) as int;
        let t = ten_to(fraction.len()) as int;
        assert(f * (10 * t) == 10 * (f * t)) by (nonlinear_arith);
    }
}

/// Seconds are read to the nanosecond, with and without a fraction.
pub proof fn seconds_are_read(whole: Seq<char>, fraction: Seq<char>)
    requires
        whole.len() > 0,
        all_digits(whole),
        1 <= fraction.len() <= 9,
        all_digits(fraction),
    ensures
        is_seconds(whole),
        nanoseconds(whole) == decimal_value(whole) * 1_000_000_000,
        is_seconds(whole + seq!['.'] + fraction),
        nanoseconds(whole + seq!['.'] + fraction) * ten_to(fraction.len()) == (decimal_value(whole)
            * ten_to(fraction.len()) + decimal_value(fraction)) * 1_000_000_000,
{
    let text = whole + seq!['.'] + fraction;
    let n = whole.len() as int;
    lemma_find_char(whole, '.');
    lemma_find_char(text, '.');
    let p = find_char(whole, '.');
    if p < n {
        assert(whole[p] == '.');
    }
    assert(whole.take(n) =~= whole);
    let none = Seq::<char>::empty();
    lemma_fraction(none);
    assert(ten_to(none.len()) == 1 && decimal_value(none) == 0);
    assert(fraction_nanos(none) == 0);
    assert(fraction_part(whole) == none);
    let q = find_char(text, '.');
    assert(text[n] == '.');
    if q < n {
        assert(text[q] == whole[q]);
    }
    assert(text.take(n) =~= whole);
    assert(text.skip(n + 1) =~= fraction);
    lemma_fraction(fraction);
    let w = decimal_value(whole) as int;
    let f = fraction_nanos(fraction) as int;
    let t = ten_to(fraction.len()) as int;
    let d = decimal_value(fraction) as int;
    assert((w * 1_000_000_000 + f) * t == (w * t + d) * 1_000_000_000) by (nonlinear_arith)
        requires
            f * t == d * 1_000_000_000,
    ;
}

} // verus!
