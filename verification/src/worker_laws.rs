//! What the ends of windows tell.
use vstd::arithmetic::power2::{lemma2_to64, lemma_pow2_adds, lemma_pow2_pos, pow2};
use vstd::prelude::*;
use crate::engine::{DecodeStats, DecodedSignal, Mode};
use crate::fec::DecodeMethod;
use crate::quantities::{HZ_4, SECONDS_0_08};
use crate::search_laws::closeness_goes_by_distance;
use crate::session::{Status, WindowModel};
use crate::single::{exponent, finite, signed_units, significand, units};
use crate::worker::{
    attempt_end, attempted, ends_early, found_by, has_room, is_same_signal, overload_events,
    plain_done, published_for, skipped_ends, slot_of, terminal_event, was_sent, with_published,
    Context, DoneModel, EventModel, PublishedModel, Step, WindowReport,
};

verus! {

// ---------------------------------------------------------------------------
// Counts
// ---------------------------------------------------------------------------

/// The signals among the first `n` that were found by a method.
pub open spec fn places_found(signals: Seq<DecodedSignal>, method: DecodeMethod, n: int) -> Set<
    int,
> {
    Set::new(
        |i: int|
            0 <= i < n && signals[i].diagnostics is Some && signals[i].diagnostics->0.method
                == method,
    )
}

/// The signals of a method are counted once each.
pub proof fn methods_are_counted(signals: Seq<DecodedSignal>, method: DecodeMethod, n: nat)
    requires
        n <= signals.len(),
    ensures
        places_found(signals, method, n as int).finite(),
        found_by(signals, method, n) == places_found(signals, method, n as int).len(),
    decreases n,
{
    if n == 0 {
        assert(places_found(signals, method, 0) =~= Set::empty());
    } else {
        methods_are_counted(signals, method, (n - 1) as nat);
        let before = places_found(signals, method, n - 1);
        let after = places_found(signals, method, n as int);
        let last = signals[n - 1];
        if last.diagnostics is Some && last.diagnostics->0.method == method {
            assert(after =~= before.insert(n - 1));
        } else {
            assert(after =~= before);
        }
    }
}

// ---------------------------------------------------------------------------
// Ends
// ---------------------------------------------------------------------------

/// The end of a window of which nothing was sent names the window, its status and its reason
/// as they are.
pub proof fn plain_ends_are_told(event: DoneModel, published: Option<PublishedModel>)
    requires
        published matches Some(state) ==> state.start != event.start,
    ensures
        terminal_event(event, published, None) == Some(event),
{
}

/// Nothing was done.
pub open spec fn is_idle(report: WindowReport) -> bool {
    &&& report.candidates == 0
    &&& report.passes == 0
    &&& report.internal_decodes == 0
    &&& report.bp_decodes == 0
    &&& report.osd_decodes == 0
    &&& report.elapsed_ns == 0
}

/// The end of a window in a stream whose time is known tells the time at which it starts, to
/// the nanosecond below, and without statistics of its own says that nothing was done. Only
/// a time beyond 64 bits is not told.
pub proof fn ends_tell_their_time(
    event: DoneModel,
    published: Option<PublishedModel>,
    context: Context,
)
    requires
        published matches Some(state) ==> state.start != event.start,
    ensures
        match terminal_event(event, published, Some(context)) {
            Some(complete) => {
                &&& complete.start == event.start
                &&& complete.status == event.status
                &&& complete.count == event.count
                &&& complete.reason == event.reason
                &&& complete.mode == Some(context.mode)
                &&& context.stats ==> complete.report is Some && is_idle(complete.report->0)
                &&& !context.stats ==> complete.report == event.report
                &&& context.utc is None ==> complete.utc == event.utc
                &&& context.utc matches Some(base) ==> complete.utc is Some && (complete.utc->0
                    - base) * 3 <= event.start * 250_000 < (complete.utc->0 - base + 1) * 3
            },
            None => context.utc matches Some(base) && (base + event.start * 250_000 / 3)
                > u64::MAX,
        },
{
    let s = event.start as int;
    assert(s * 1_000_000_000 / 12000 == s * 250_000 / 3);
}

/// The end of a window of which signals were sent tells how many there were, how they were
/// found and what the attempts took. It has failed where an attempt has, and for its reason.
pub proof fn ends_tell_what_was_sent(event: DoneModel, state: PublishedModel)
    requires
        state.start == event.start,
        state.signals.len() <= usize::MAX,
    ensures
        ({
            let complete = with_published(event, Some(state));
            let n = state.signals.len() as int;
            &&& terminal_event(event, Some(state), None) == Some(complete)
            &&& complete.start == event.start
            &&& complete.count == n
            &&& state.failure is None ==> complete.status == event.status && complete.reason
                == event.reason
            &&& state.failure is Some ==> complete.status == Status::Failed && complete.reason
                == state.failure
            &&& state.stats is None ==> complete.report == event.report && complete.mode
                == event.mode && complete.utc == event.utc
            &&& state.stats is Some ==> complete.mode == Some(state.mode) && complete.report is Some
            &&& state.stats is Some && state.utc is Some ==> complete.utc == state.utc
            &&& state.stats is Some && state.utc is None ==> complete.utc == event.utc
            &&& state.stats matches Some(stats) ==> {
                let report = complete.report->0;
                &&& report.candidates == stats.candidates
                &&& report.passes == stats.passes
                &&& report.internal_decodes == stats.internal_decodes
                &&& report.elapsed_ns == stats.elapsed_ns
                &&& report.bp_decodes == places_found(state.signals, DecodeMethod::Bp, n).len()
                &&& report.osd_decodes == places_found(state.signals, DecodeMethod::Osd, n).len()
            }
        }),
{
    let n = state.signals.len();
    methods_are_counted(state.signals, DecodeMethod::Bp, n);
    methods_are_counted(state.signals, DecodeMethod::Osd, n);
    lemma_no_more(state.signals, DecodeMethod::Bp, n);
    lemma_no_more(state.signals, DecodeMethod::Osd, n);
}

proof fn lemma_no_more(signals: Seq<DecodedSignal>, method: DecodeMethod, n: nat)
    ensures
        found_by(signals, method, n) <= n,
    decreases n,
{
    if n > 0 {
        lemma_no_more(signals, method, (n - 1) as nat);
    }
}

/// A window that ends before it is decoded has one end, after its final attempt, and none
/// before.
pub proof fn early_ends_are_told_once(
    w: WindowModel,
    event: DoneModel,
    before: Seq<EventModel>,
    after: Seq<EventModel>,
    published: Option<PublishedModel>,
    step: Step,
)
    requires
        ends_early(w, event, None, None, before, after, published, step),
    ensures
        step is Passed,
        published is None,
        w.final_pass ==> after == before.push(EventModel::Done(event)),
        !w.final_pass ==> after == before,
{
    plain_ends_are_told(event, None);
}

/// The attempts on a window add up. One that failed adds its time, and is remembered.
pub proof fn attempts_add_up(
    state: PublishedModel,
    result: Result<DecodeStats, Seq<char>>,
    elapsed_ns: u64,
)
    requires
        state.stats matches Some(stats) ==> has_room(stats, result, elapsed_ns),
    ensures
        ({
            let after = attempted(state, result, elapsed_ns);
            &&& after.start == state.start && after.epoch == state.epoch && after.mode == state.mode
                && after.utc == state.utc
            &&& after.signals == state.signals
            &&& after.stats is Some <==> state.stats is Some
            &&& result matches Err(reason) ==> after.failure == Some(reason)
            &&& result is Ok ==> after.failure == state.failure
            &&& state.stats is Some ==> after.stats->0.elapsed_ns - state.stats->0.elapsed_ns
                == elapsed_ns
            &&& state.stats is Some && result is Err ==> after.stats->0.candidates
                == state.stats->0.candidates && after.stats->0.passes == state.stats->0.passes
                && after.stats->0.internal_decodes == state.stats->0.internal_decodes
            &&& state.stats is Some && result is Ok ==> after.stats->0.candidates
                - state.stats->0.candidates == result->Ok_0.candidates && after.stats->0.passes
                - state.stats->0.passes == result->Ok_0.passes && after.stats->0.internal_decodes
                - state.stats->0.internal_decodes == result->Ok_0.decoded
        }),
{
}

/// The final attempt on a window completes it, unless it failed or was stopped.
pub proof fn final_attempts_end_a_window(
    state: PublishedModel,
    result: Result<DecodeStats, Seq<char>>,
    cancelled: bool,
    elapsed_ns: u64,
)
    requires
        state.stats is None,
        state.failure is None,
    ensures
        ({
            let n = state.signals.len();
            let event = attempt_end(state.start, result, cancelled, n);
            let stopped = cancelled || (result is Ok && result->Ok_0.cancelled);
            &&& terminal_event(event, Some(attempted(state, result, elapsed_ns)), None) matches Some(
                complete,
            )
            &&& complete.start == state.start
            &&& complete.count == n
            &&& complete.status == Status::Failed <==> result is Err
            &&& complete.status == Status::Cancelled <==> result is Ok && stopped
            &&& complete.status == Status::Completed <==> result is Ok && !stopped
            &&& result matches Err(reason) ==> complete.reason == Some(reason)
            &&& result is Ok && !stopped ==> complete.reason is None
            &&& result is Ok && stopped ==> complete.reason == Some("reset or disconnect"@)
        }),
{
}

/// A window that comes again is continued, and another starts with nothing sent.
pub proof fn windows_are_continued(
    w: WindowModel,
    published: Option<PublishedModel>,
    stats: bool,
)
    ensures
        ({
            let current = published_for(w, published, stats);
            let again = published is Some && published->0.start == w.start && published->0.epoch
                == w.epoch;
            &&& current.start == w.start
            &&& current.epoch == w.epoch
            &&& again ==> current == published->0
            &&& !again ==> current.signals.len() == 0 && current.failure is None && current.mode
                == w.mode && current.utc == w.utc
            &&& !again && !stats ==> current.stats is None
            &&& !again && stats ==> current.stats is Some && current.stats->0.candidates == 0
                && current.stats->0.passes == 0 && current.stats->0.internal_decodes == 0
                && current.stats->0.elapsed_ns == 0
        }),
{
}

/// Each range of windows that were given up is told of before their ends, from its first
/// sample to the last sample of its last window.
pub proof fn overloads_are_told(w: WindowModel, published: Option<PublishedModel>, n: nat)
    requires
        n < w.skipped.len(),
        overload_events(w, published, None, n).2,
        w.skipped[n as int].1 + 180_000 <= u64::MAX,
    ensures
        ({
            let (first, last) = w.skipped[n as int];
            let length: int = match w.mode {
                Mode::Ft8 => 180_000,
                Mode::Ft4 => 72_576,
            };
            let (before, state, _) = overload_events(w, published, None, n);
            let (ends, rest, ok) = skipped_ends(first, last, w.mode, state, None);
            let (all, after, good) = overload_events(w, published, None, n + 1);
            &&& all == before + seq![EventModel::Overload { first, end: (last + length) as u64 }]
                + ends
            &&& after == rest
            &&& good == ok
        }),
{
    let (first, last) = w.skipped[n as int];
    let end = (last + w.mode.window()) as u64;
    let (before, state, _) = overload_events(w, published, None, n);
    assert(before.push(EventModel::Overload { first, end }) =~= before + seq![
        EventModel::Overload { first, end },
    ]);
}

/// Of the windows that were given up, each has its end, in order, one period after the other.
pub proof fn skipped_windows_end_once(
    first: u64,
    last: u64,
    mode: Mode,
    published: Option<PublishedModel>,
    i: int,
)
    requires
        first <= last,
        last + 180_000 <= u64::MAX,
        published matches Some(state) ==> state.start < first,
        0 <= i,
    ensures
        ({
            let period: int = match mode {
                Mode::Ft8 => 180_000,
                Mode::Ft4 => 90_000,
            };
            let (events, state, ok) = skipped_ends(first, last, mode, published, None);
            &&& ok
            &&& state == published
            &&& i < events.len() <==> first + i * period <= last
            &&& i < events.len() ==> events[i] == EventModel::Done(
                plain_done(
                    (first + i * period) as u64,
                    Status::Skipped,
                    0,
                    Some("obsolete live work"@),
                ),
            )
        }),
    decreases last - first,
{
    let period: int = match mode {
        Mode::Ft8 => 180_000,
        Mode::Ft4 => 90_000,
    };
    let next = first + mode.period();
    assert(mode.period() == period);
    let event = plain_done(first, Status::Skipped, 0, Some("obsolete live work"@));
    plain_ends_are_told(event, published);
    if next > last {
        assert(i == 0 || first + i * period > last) by (nonlinear_arith)
            requires
                i >= 0,
                first + period > last,
                period > 0,
        ;
    } else {
        let (rest, state, ok) = skipped_ends(next as u64, last, mode, published, None);
        let (events, _, _) = skipped_ends(first, last, mode, published, None);
        assert(events == seq![EventModel::Done(event)] + rest);
        if i == 0 {
            skipped_windows_end_once(next as u64, last, mode, published, 0);
        } else {
            skipped_windows_end_once(next as u64, last, mode, published, i - 1);
            assert(next + (i - 1) * period == first + i * period) by (nonlinear_arith)
                requires
                    next == first + period,
            ;
            assert(events[i] == rest[i - 1] || i - 1 >= rest.len());
        }
    }
}

/// The slot of a window is the quarter or eighth of a minute that its time lies in, or
/// without a time that of its first sample.
pub proof fn slots_hold_their_window(w: WindowModel)
    ensures
        match w.utc {
            Some(utc) => if w.mode == Mode::Ft8 {
                slot_of(w) * 15_000_000_000 <= utc < (slot_of(w) + 1) * 15_000_000_000
            } else {
                slot_of(w) * 7_500_000_000 <= utc < (slot_of(w) + 1) * 7_500_000_000
            },
            None => if w.mode == Mode::Ft8 {
                slot_of(w) * 180_000 <= w.start < (slot_of(w) + 1) * 180_000
            } else {
                slot_of(w) * 90_000 <= w.start < (slot_of(w) + 1) * 90_000
            },
        },
{
}

// ---------------------------------------------------------------------------
// Repetitions
// ---------------------------------------------------------------------------

proof fn lemma_four_hertz()
    ensures
        units(HZ_4) == 4 * pow2(149),
        units((HZ_4 - 1) as u32) * 10 >= 39 * pow2(149),
        units(SECONDS_0_08) * 100 <= 8 * pow2(149),
        units((SECONDS_0_08 - 1) as u32) * 1000 >= 79 * pow2(149),
{
    lemma2_to64();
    lemma_pow2_adds(21, 128);
    lemma_pow2_adds(22, 127);
    lemma_pow2_adds(27, 122);
    let a = pow2(128) as int;
    let b = pow2(127) as int;
    let c = pow2(122) as int;
    lemma_pow2_pos(127);
    lemma_pow2_pos(122);
    assert(exponent(HZ_4) == 129 && significand(HZ_4) == 0x80_0000);
    assert(exponent((HZ_4 - 1) as u32) == 128 && significand((HZ_4 - 1) as u32) == 0xff_ffff);
    assert(exponent(SECONDS_0_08) == 123 && significand(SECONDS_0_08) == 0xa3_d70a);
    assert(exponent((SECONDS_0_08 - 1) as u32) == 123 && significand((SECONDS_0_08 - 1) as u32)
        == 0xa3_d709);
    assert(0x80_0000 * a == 4 * (0x20_0000 * a)) by (nonlinear_arith);
    assert(0xff_ffff * b * 10 >= 39 * (0x40_0000 * b)) by (nonlinear_arith)
        requires
            b > 0,
    ;
    assert(0xa3_d70a * c * 100 <= 8 * (0x800_0000 * c)) by (nonlinear_arith)
        requires
            c > 0,
    ;
    assert(0xa3_d709 * c * 1000 >= 79 * (0x800_0000 * c)) by (nonlinear_arith)
        requires
            c > 0,
    ;
}

/// How far two finite values are apart, in units of two to the power of minus 149.
pub open spec fn distance(a: u32, b: u32) -> int {
    if signed_units(a) < signed_units(b) {
        signed_units(b) - signed_units(a)
    } else {
        signed_units(a) - signed_units(b)
    }
}

/// A signal is held back only for one that was sent with the same payload, from less than
/// 4 Hz and less than 0.08 s away, and is held back for one from up to 3.9 Hz and 0.079 s.
pub proof fn repetitions_are_close(signals: Seq<DecodedSignal>, signal: DecodedSignal)
    requires
        finite(signal.frequency_hz),
        finite(signal.dt_seconds),
        forall|i: int|
            0 <= i < signals.len() ==> finite((#[trigger] signals[i]).frequency_hz) && finite(
                signals[i].dt_seconds,
            ),
    ensures
        was_sent(signals, signal) ==> exists|i: int|
            0 <= i < signals.len() && (#[trigger] signals[i]).source_bits@ == signal.source_bits@
                && distance(signals[i].frequency_hz, signal.frequency_hz) < 4 * pow2(149)
                && distance(signals[i].dt_seconds, signal.dt_seconds) * 100 < 8 * pow2(149),
        (exists|i: int|
            0 <= i < signals.len() && (#[trigger] signals[i]).source_bits@ == signal.source_bits@
                && distance(signals[i].frequency_hz, signal.frequency_hz) * 10 <= 39 * pow2(149)
                && distance(signals[i].dt_seconds, signal.dt_seconds) * 1000 <= 79 * pow2(149))
            ==> was_sent(signals, signal),
{
    lemma_four_hertz();
    if was_sent(signals, signal) {
        let i = choose|i: int|
            0 <= i < signals.len() && is_same_signal(#[trigger] signals[i], signal);
        closeness_goes_by_distance(signals[i].frequency_hz, signal.frequency_hz, HZ_4);
        closeness_goes_by_distance(signals[i].dt_seconds, signal.dt_seconds, SECONDS_0_08);
        assert(distance(signals[i].frequency_hz, signal.frequency_hz) < units(HZ_4));
        lemma_below(signals[i].dt_seconds, signal.dt_seconds);
        assert(signals[i].source_bits@ == signal.source_bits@);
    }
    if exists|i: int|
        0 <= i < signals.len() && (#[trigger] signals[i]).source_bits@ == signal.source_bits@
            && distance(signals[i].frequency_hz, signal.frequency_hz) * 10 <= 39 * pow2(149)
            && distance(signals[i].dt_seconds, signal.dt_seconds) * 1000 <= 79 * pow2(149) {
        let i = choose|i: int|
            0 <= i < signals.len() && (#[trigger] signals[i]).source_bits@ == signal.source_bits@
                && distance(signals[i].frequency_hz, signal.frequency_hz) * 10 <= 39 * pow2(149)
                && distance(signals[i].dt_seconds, signal.dt_seconds) * 1000 <= 79 * pow2(149);
        closeness_goes_by_distance(signals[i].frequency_hz, signal.frequency_hz, HZ_4);
        closeness_goes_by_distance(signals[i].dt_seconds, signal.dt_seconds, SECONDS_0_08);
        assert(is_same_signal(signals[i], signal));
    }
}

proof fn lemma_below(a: u32, b: u32)
    requires
        finite(a),
        finite(b),
        distance(a, b) < units(SECONDS_0_08),
        units(SECONDS_0_08) * 100 <= 8 * pow2(149),
    ensures
        distance(a, b) * 100 < 8 * pow2(149),
{
}

} // verus!
