//! The ordered work on windows, and the events that it sends.
use vstd::prelude::*;
use vstd::string::*;
use crate::engine::{DecodeDiagnostics, DecodeStats, DecodedSignal, Mode};
use crate::fec::DecodeMethod;
use crate::quantities::{HZ_4, SECONDS_0_08};
use crate::record::{
    hash_list, is_hash_list, is_hash_or_null, is_integer, is_integer_or_null, is_text,
    is_text_or_null, names, nth, number_text, optional_hash, optional_text, text_field, Field,
};
use crate::search::same_bits;
use crate::session::{Status, Window, WindowModel};
use crate::single::{closer_than, finite, is_closer_than, values_are_near_themselves};
use crate::text::decimal;

verus! {

/// Options for the in-process converted WAV path, not accepted over TCP/stdin.
#[derive(Clone, Copy, Debug, PartialEq, Eq)]
pub struct WavOptions {
    pub diagnostics: u8,
    pub stats: bool,
}

impl Default for WavOptions {
    fn default() -> (r: Self)
        ensures
            r == (WavOptions { diagnostics: 0, stats: false }),
    {
        WavOptions { diagnostics: 0, stats: false }
    }
}

/// What the attempts on a window have cost so far.
#[derive(Clone, Copy, Debug, PartialEq, Eq)]
pub struct WindowStatistics {
    pub candidates: usize,
    pub passes: usize,
    pub internal_decodes: usize,
    pub elapsed_ns: u64,
}

/// The work on a window as its final event tells it.
#[derive(Clone, Copy, Debug, PartialEq, Eq)]
pub struct WindowReport {
    pub candidates: usize,
    pub passes: usize,
    pub internal_decodes: usize,
    pub bp_decodes: usize,
    pub osd_decodes: usize,
    pub elapsed_ns: u64,
}

/// The end of a window.
#[derive(Debug)]
pub struct Done {
    pub start: u64,
    pub status: Status,
    pub count: usize,
    pub reason: Option<String>,
    pub mode: Option<Mode>,
    pub utc: Option<u64>,
    pub report: Option<WindowReport>,
}

#[verifier::ext_equal]
pub struct DoneModel {
    pub start: u64,
    pub status: Status,
    pub count: nat,
    pub reason: Option<Seq<char>>,
    pub mode: Option<Mode>,
    pub utc: Option<u64>,
    pub report: Option<WindowReport>,
}

impl DeepView for Done {
    type V = DoneModel;

    open spec fn deep_view(&self) -> DoneModel {
        DoneModel {
            start: self.start,
            status: self.status,
            count: self.count as nat,
            reason: self.reason.deep_view(),
            mode: self.mode,
            utc: self.utc,
            report: self.report,
        }
    }
}

/// What the worker sends.
#[derive(Debug)]
pub enum Event {
    Overload { first: u64, end: u64 },
    Done(Done),
}

#[verifier::ext_equal]
pub enum EventModel {
    Overload { first: u64, end: u64 },
    Done(DoneModel),
}

impl DeepView for Event {
    type V = EventModel;

    open spec fn deep_view(&self) -> EventModel {
        match *self {
            Event::Overload { first, end } => EventModel::Overload { first, end },
            Event::Done(done) => EventModel::Done(done.deep_view()),
        }
    }
}

/// The plain end of a window.
pub open spec fn plain_done(
    start: u64,
    status: Status,
    count: nat,
    reason: Option<Seq<char>>,
) -> DoneModel {
    DoneModel { start, status, count, reason, mode: None, utc: None, report: None }
}

pub fn done(start: u64, status: Status, count: usize, reason: Option<String>) -> (r: Done)
    ensures
        r.deep_view() == plain_done(start, status, count as nat, reason.deep_view()),
{
    Done { start, status, count, reason, mode: None, utc: None, report: None }
}

/// The window whose signals have been sent so far.
pub struct Published {
    pub start: u64,
    pub epoch: u64,
    pub signals: Vec<DecodedSignal>,
    pub stats: Option<WindowStatistics>,
    pub failure: Option<String>,
    pub mode: Mode,
    pub utc: Option<u64>,
}

#[verifier::ext_equal]
pub struct PublishedModel {
    pub start: u64,
    pub epoch: u64,
    pub signals: Seq<DecodedSignal>,
    pub stats: Option<WindowStatistics>,
    pub failure: Option<Seq<char>>,
    pub mode: Mode,
    pub utc: Option<u64>,
}

impl DeepView for Published {
    type V = PublishedModel;

    open spec fn deep_view(&self) -> PublishedModel {
        PublishedModel {
            start: self.start,
            epoch: self.epoch,
            signals: self.signals@,
            stats: self.stats,
            failure: self.failure.deep_view(),
            mode: self.mode,
            utc: self.utc,
        }
    }
}

/// What is known of the timeline of converted audio.
#[derive(Clone, Copy, Debug, PartialEq, Eq)]
pub struct Context {
    pub mode: Mode,
    pub utc: Option<u64>,
    pub stats: bool,
}

/// How many of the first `n` signals were found by the given method.
pub open spec fn found_by(signals: Seq<DecodedSignal>, method: DecodeMethod, n: nat) -> nat
    decreases n,
{
    if n == 0 {
        0
    } else {
        found_by(signals, method, (n - 1) as nat) + (if signals[n - 1].diagnostics matches Some(d)
            && d.method == method {
            1nat
        } else {
            0nat
        })
    }
}

fn count_found(signals: &Vec<DecodedSignal>, method: DecodeMethod) -> (r: usize)
    ensures
        r == found_by(signals@, method, signals@.len()),
{
    let mut count: usize = 0;
    let mut i: usize = 0;
    while i < signals.len()
        invariant
            i <= signals.len(),
            count <= i,
            count == found_by(signals@, method, i as nat),
        decreases signals.len() - i,
    {
        match &signals[i].diagnostics {
            Some(d) => {
                if d.method == method {
                    count = count + 1;
                }
            },
            None => {},
        }
        i = i + 1;
    }
    count
}

pub open spec fn no_work() -> WindowReport {
    WindowReport {
        candidates: 0,
        passes: 0,
        internal_decodes: 0,
        bp_decodes: 0,
        osd_decodes: 0,
        elapsed_ns: 0,
    }
}

/// The end of a window with what the context knows of its timeline. Undecoded
/// windows performed no work. `None` where the time exceeds 64 bits.
pub open spec fn in_context(event: DoneModel, context: Option<Context>) -> Option<DoneModel> {
    match context {
        None => Some(event),
        Some(known) => {
            let timed = match known.utc {
                None => Some(event.utc),
                Some(base) => {
                    let time = base + event.start * 1_000_000_000 / 12000;
                    if time > u64::MAX {
                        None
                    } else {
                        Some(Some(time as u64))
                    }
                },
            };
            match timed {
                None => None,
                Some(utc) => Some(
                    DoneModel {
                        mode: Some(known.mode),
                        utc,
                        report: if known.stats {
                            Some(no_work())
                        } else {
                            event.report
                        },
                        ..event
                    },
                ),
            }
        },
    }
}

/// The end of a window with what was sent of it.
pub open spec fn with_published(event: DoneModel, published: Option<PublishedModel>) -> DoneModel {
    match published {
        Some(state) if state.start == event.start => DoneModel {
            start: event.start,
            status: if state.failure is Some {
                Status::Failed
            } else {
                event.status
            },
            count: state.signals.len(),
            reason: if state.failure is Some {
                state.failure
            } else {
                event.reason
            },
            mode: if state.stats is Some {
                Some(state.mode)
            } else {
                event.mode
            },
            utc: if state.stats is Some && state.utc is Some {
                state.utc
            } else {
                event.utc
            },
            report: match state.stats {
                Some(stats) => Some(
                    WindowReport {
                        candidates: stats.candidates,
                        passes: stats.passes,
                        internal_decodes: stats.internal_decodes,
                        bp_decodes: found_by(
                            state.signals,
                            DecodeMethod::Bp,
                            state.signals.len(),
                        ) as usize,
                        osd_decodes: found_by(
                            state.signals,
                            DecodeMethod::Osd,
                            state.signals.len(),
                        ) as usize,
                        elapsed_ns: stats.elapsed_ns,
                    },
                ),
                None => event.report,
            },
        },
        _ => event,
    }
}

/// What is left of the published window after an end was sent.
pub open spec fn after_done(start: u64, published: Option<PublishedModel>) -> Option<
    PublishedModel,
> {
    match published {
        Some(state) if state.start == start => None,
        _ => published,
    }
}

/// The final form of a window's end; `None` where its time exceeds 64 bits.
pub open spec fn terminal_event(
    event: DoneModel,
    published: Option<PublishedModel>,
    context: Option<Context>,
) -> Option<DoneModel> {
    match in_context(event, context) {
        None => None,
        Some(known) => Some(with_published(known, published)),
    }
}

/// The ends of the windows `first`, one period later and so on up to `last`.
pub open spec fn skipped_ends(
    first: u64,
    last: u64,
    mode: Mode,
    published: Option<PublishedModel>,
    context: Option<Context>,
) -> (Seq<EventModel>, Option<PublishedModel>, bool)
    decreases last - first,
{
    match terminal_event(
        plain_done(first, Status::Skipped, 0, Some("obsolete live work"@)),
        published,
        context,
    ) {
        None => (Seq::empty(), published, false),
        Some(event) => {
            let rest = after_done(first, published);
            let next = first + mode.period();
            if next > last {
                (seq![EventModel::Done(event)], rest, true)
            } else {
                let (events, state, ok) = skipped_ends(next as u64, last, mode, rest, context);
                (seq![EventModel::Done(event)] + events, state, ok)
            }
        },
    }
}

/// The events of the first `n` skipped ranges of a window.
pub open spec fn overload_events(
    window: WindowModel,
    published: Option<PublishedModel>,
    context: Option<Context>,
    n: nat,
) -> (Seq<EventModel>, Option<PublishedModel>, bool)
    decreases n,
{
    if n == 0 {
        (Seq::empty(), published, true)
    } else {
        let (events, state, ok) = overload_events(window, published, context, (n - 1) as nat);
        if !ok {
            (events, state, ok)
        } else {
            let (first, last) = window.skipped[n - 1];
            let warning = EventModel::Overload {
                first,
                end: (last + window.mode.window()) as u64,
            };
            let (ends, after, good) = skipped_ends(first, last, window.mode, state, context);
            (events.push(warning) + ends, after, good)
        }
    }
}

/// The slot of a window: by its time, or else by its place in the stream.
pub open spec fn slot_of(window: WindowModel) -> u64 {
    match window.utc {
        Some(utc) => (utc as nat / crate::session::period_ns(window.mode)) as u64,
        None => (window.start as nat / window.mode.period()) as u64,
    }
}

/// The published state of a window that is about to be decoded.
pub open spec fn published_for(
    window: WindowModel,
    published: Option<PublishedModel>,
    stats: bool,
) -> PublishedModel {
    match published {
        Some(state) if state.start == window.start && state.epoch == window.epoch => state,
        _ => PublishedModel {
            start: window.start,
            epoch: window.epoch,
            signals: Seq::empty(),
            stats: if stats {
                Some(
                    WindowStatistics {
                        candidates: 0,
                        passes: 0,
                        internal_decodes: 0,
                        elapsed_ns: 0,
                    },
                )
            } else {
                None
            },
            failure: None,
            mode: window.mode,
            utc: window.utc,
        },
    }
}

/// What is done with a window.
#[derive(Debug)]
pub enum Step {
    /// Nothing more.
    Passed,
    /// It is decoded, as part of the given slot.
    Decode(u64),
    /// The worker stops: a window's time exceeds 64 bits.
    Stop,
}

/// The state of the worker.
pub struct Worker {
    pub published: Option<Published>,
    pub context: Option<Context>,
    pub float_pcm: bool,
    pub options: WavOptions,
}

fn push_event(events: &mut Vec<Event>, event: Event)
    ensures
        final(events).deep_view() == old(events).deep_view().push(event.deep_view()),
{
    let ghost before = events.deep_view();
    events.push(event);
    assert(events.deep_view() =~= before.push(event.deep_view()));
}

/// The samples of skipped windows are numbered.
pub open spec fn is_bounded_window(window: WindowModel) -> bool {
    forall|i: int|
        0 <= i < window.skipped.len() ==> (#[trigger] window.skipped[i]).1 + window.mode.window()
            <= u64::MAX
}

impl Worker {
    pub open spec fn published_model(&self) -> Option<PublishedModel> {
        self.published.deep_view()
    }

    pub fn new(float_pcm: bool, options: WavOptions) -> (r: Self)
        ensures
            r.published is None,
            r.context is None,
            r.float_pcm == float_pcm,
            r.options == options,
    {
        Worker { published: None, context: None, float_pcm, options }
    }

    /// The decoder starts afresh; only converted audio has a known timeline.
    pub fn reset(&mut self, mode: Mode, utc: Option<u64>)
        ensures
            final(self).published is None,
            final(self).context == (if old(self).float_pcm {
                Some(Context { mode, utc, stats: old(self).options.stats })
            } else {
                None
            }),
            final(self).float_pcm == old(self).float_pcm,
            final(self).options == old(self).options,
    {
        self.published = None;
        self.context = if self.float_pcm {
            Some(Context { mode, utc, stats: self.options.stats })
        } else {
            None
        };
    }

    /// Completes the end of a window with what is known of it.
    pub fn terminal(&mut self, event: Done) -> (r: Option<Done>)
        ensures
            final(self).context == old(self).context,
            final(self).float_pcm == old(self).float_pcm,
            final(self).options == old(self).options,
            match r {
                Some(complete) => {
                    &&& terminal_event(
                        event.deep_view(),
                        old(self).published_model(),
                        old(self).context,
                    ) == Some(complete.deep_view())
                    &&& final(self).published_model() == after_done(
                        event.start,
                        old(self).published_model(),
                    )
                },
                None => {
                    &&& terminal_event(
                        event.deep_view(),
                        old(self).published_model(),
                        old(self).context,
                    ) is None
                    &&& final(self).published_model() == old(self).published_model()
                },
            },
    {
        let mut complete: Done = event;
        match self.context {
            Some(known) => {
                complete.mode = Some(known.mode);
                match known.utc {
                    Some(base) => {
                        let time: u128 = base as u128 + complete.start as u128 * 1_000_000_000
                            / 12000;
                        if time > u64::MAX as u128 {
                            return None;
                        }
                        complete.utc = Some(time as u64);
                    },
                    None => {},
                }
                if known.stats {
                    complete.report = Some(
                        WindowReport {
                            candidates: 0,
                            passes: 0,
                            internal_decodes: 0,
                            bp_decodes: 0,
                            osd_decodes: 0,
                            elapsed_ns: 0,
                        },
                    );
                }
            },
            None => {},
        }
        let same_window: bool = match &self.published {
            Some(state) => state.start == complete.start,
            None => false,
        };
        if same_window {
            match self.published.take() {
                Some(state) => {
                    complete.count = state.signals.len();
                    match state.failure {
                        Some(reason) => {
                            complete.status = Status::Failed;
                            complete.reason = Some(reason);
                        },
                        None => {},
                    }
                    match state.stats {
                        Some(stats) => {
                            complete.mode = Some(state.mode);
                            if state.utc.is_some() {
                                complete.utc = state.utc;
                            }
                            complete.report = Some(
                                WindowReport {
                                    candidates: stats.candidates,
                                    passes: stats.passes,
                                    internal_decodes: stats.internal_decodes,
                                    bp_decodes: count_found(&state.signals, DecodeMethod::Bp),
                                    osd_decodes: count_found(&state.signals, DecodeMethod::Osd),
                                    elapsed_ns: stats.elapsed_ns,
                                },
                            );
                        },
                        None => {},
                    }
                },
                None => {},
            }
        }
        Some(complete)
    }

    fn end_skipped(&mut self, first: u64, last: u64, mode: Mode, events: &mut Vec<Event>) -> (r:
        bool)
        ensures
            final(self).context == old(self).context,
            final(self).float_pcm == old(self).float_pcm,
            final(self).options == old(self).options,
            ({
                let (ends, state, ok) = skipped_ends(
                    first,
                    last,
                    mode,
                    old(self).published_model(),
                    old(self).context,
                );
                &&& final(events).deep_view() == old(events).deep_view() + ends
                &&& final(self).published_model() == state
                &&& r == ok
            }),
        decreases last - first,
    {
        let ghost before = events.deep_view();
        let ghost published = self.published_model();
        let event: Done = done(
            first,
            Status::Skipped,
            0,
            Some("obsolete live work".to_owned()),
        );
        match self.terminal(event) {
            None => {
                assert(before + Seq::<EventModel>::empty() =~= before);
                false
            },
            Some(complete) => {
                let ghost sent = EventModel::Done(complete.deep_view());
                push_event(events, Event::Done(complete));
                let period: u64 = mode.period_samples() as u64;
                if first > u64::MAX - period || first + period > last {
                    assert(before.push(sent) =~= before + seq![sent]);
                    true
                } else {
                    let ok: bool = self.end_skipped(first + period, last, mode, events);
                    proof {
                        let (ends, state, good) = skipped_ends(
                            (first + period) as u64,
                            last,
                            mode,
                            after_done(first, published),
                            old(self).context,
                        );
                        assert(before.push(sent) + ends =~= before + (seq![sent] + ends));
                    }
                    ok
                }
            },
        }
    }

    /// Takes up a window: tells of the windows it has replaced, and decides
    /// whether it is decoded. `cancelled` says that its epoch was stopped.
    pub fn begin(&mut self, window: &Window, cancelled: bool, events: &mut Vec<Event>) -> (r: Step)
        requires
            is_bounded_window(window.deep_view()),
        ensures
            final(self).context == old(self).context,
            final(self).float_pcm == old(self).float_pcm,
            final(self).options == old(self).options,
            ({
                let w = window.deep_view();
                let (overload, state, ok) = overload_events(
                    w,
                    old(self).published_model(),
                    old(self).context,
                    w.skipped.len(),
                );
                let events_so_far = old(events).deep_view() + overload;
                if !ok {
                    &&& r is Stop
                    &&& final(events).deep_view() == events_so_far
                    &&& final(self).published_model() == state
                } else if cancelled {
                    ends_early(
                        w,
                        plain_done(w.start, Status::Cancelled, 0, Some("reset or disconnect"@)),
                        state,
                        old(self).context,
                        events_so_far,
                        final(events).deep_view(),
                        final(self).published_model(),
                        r,
                    )
                } else {
                    let current = published_for(w, state, old(self).options.stats);
                    if current.failure is Some {
                        ends_early(
                            w,
                            plain_done(w.start, Status::Failed, 0, None),
                            Some(current),
                            old(self).context,
                            events_so_far,
                            final(events).deep_view(),
                            final(self).published_model(),
                            r,
                        )
                    } else {
                        &&& r == Step::Decode(slot_of(w))
                        &&& final(events).deep_view() == events_so_far
                        &&& final(self).published_model() == Some(current)
                    }
                }
            }),
    {
        let ghost w = window.deep_view();
        let ghost before = events.deep_view();
        let ghost published = self.published_model();
        let mut n: usize = 0;
        assert(before + Seq::<EventModel>::empty() =~= before);
        while n < window.skipped.len()
            invariant
                n <= window.skipped.len(),
                w == window.deep_view(),
                is_bounded_window(w),
                before == old(events).deep_view(),
                published == old(self).published_model(),
                self.context == old(self).context,
                self.float_pcm == old(self).float_pcm,
                self.options == old(self).options,
                ({
                    let (overload, state, ok) = overload_events(
                        w,
                        published,
                        old(self).context,
                        n as nat,
                    );
                    &&& ok
                    &&& events.deep_view() == before + overload
                    &&& self.published_model() == state
                }),
            decreases window.skipped.len() - n,
        {
            let (first, last) = window.skipped[n];
            assert(w.skipped[n as int].1 + w.mode.window() <= u64::MAX);
            let ghost so_far = overload_events(w, published, old(self).context, n as nat).0;
            let end: u64 = last + window.mode.input_samples() as u64;
            let ghost warning = EventModel::Overload { first, end };
            push_event(events, Event::Overload { first, end });
            let ok: bool = self.end_skipped(first, last, window.mode, events);
            proof {
                let (ends, state, good) = skipped_ends(
                    first,
                    last,
                    w.mode,
                    overload_events(w, published, old(self).context, n as nat).1,
                    old(self).context,
                );
                assert((before + so_far).push(warning) + ends =~= before + (so_far.push(warning)
                    + ends));
            }
            if !ok {
                proof {
                    lemma_overload_stops(
                        w,
                        published,
                        old(self).context,
                        (n + 1) as nat,
                        w.skipped.len(),
                    );
                }
                return Step::Stop;
            }
            n = n + 1;
        }
        if cancelled {
            if window.final_pass {
                let event: Done = done(
                    window.start,
                    Status::Cancelled,
                    0,
                    Some("reset or disconnect".to_owned()),
                );
                return match self.terminal(event) {
                    Some(complete) => {
                        push_event(events, Event::Done(complete));
                        Step::Passed
                    },
                    None => Step::Stop,
                };
            }
            return Step::Passed;
        }
        let known: bool = match &self.published {
            Some(state) => state.start == window.start && state.epoch == window.epoch,
            None => false,
        };
        if !known {
            let stats: Option<WindowStatistics> = if self.options.stats {
                Some(
                    WindowStatistics {
                        candidates: 0,
                        passes: 0,
                        internal_decodes: 0,
                        elapsed_ns: 0,
                    },
                )
            } else {
                None
            };
            self.published = Some(
                Published {
                    start: window.start,
                    epoch: window.epoch,
                    signals: Vec::new(),
                    stats,
                    failure: None,
                    mode: window.mode,
                    utc: window.utc,
                },
            );
        }
        let ghost current = published_for(
            w,
            overload_events(w, published, old(self).context, w.skipped.len()).1,
            old(self).options.stats,
        );
        assert(self.published_model()->0 =~= current);
        let failed: bool = match &self.published {
            Some(state) => state.failure.is_some(),
            None => false,
        };
        if failed {
            if window.final_pass {
                let event: Done = done(window.start, Status::Failed, 0, None);
                return match self.terminal(event) {
                    Some(complete) => {
                        push_event(events, Event::Done(complete));
                        Step::Passed
                    },
                    None => Step::Stop,
                };
            }
            return Step::Passed;
        }
        let slot: u64 = match window.utc {
            Some(utc) => utc / (window.mode.period_samples() as u64 * 1_000_000_000 / 12000),
            None => window.start / window.mode.period_samples() as u64,
        };
        Step::Decode(slot)
    }
}

/// A window ends before it is decoded: its end is sent after a final attempt.
pub open spec fn ends_early(
    w: WindowModel,
    event: DoneModel,
    state: Option<PublishedModel>,
    context: Option<Context>,
    before: Seq<EventModel>,
    after: Seq<EventModel>,
    published: Option<PublishedModel>,
    step: Step,
) -> bool {
    if !w.final_pass {
        step is Passed && after == before && published == state
    } else {
        match terminal_event(event, state, context) {
            Some(complete) => {
                &&& step is Passed
                &&& after == before.push(EventModel::Done(complete))
                &&& published == after_done(w.start, state)
            },
            None => step is Stop && after == before && published == state,
        }
    }
}

/// Once the events have stopped, further ranges add none.
proof fn lemma_overload_stops(
    w: WindowModel,
    published: Option<PublishedModel>,
    context: Option<Context>,
    n: nat,
    m: nat,
)
    requires
        n <= m,
        !overload_events(w, published, context, n).2,
    ensures
        overload_events(w, published, context, m) == overload_events(w, published, context, n),
    decreases m - n,
{
    if n < m {
        lemma_overload_stops(w, published, context, n, (m - 1) as nat);
    }
}

// ---------------------------------------------------------------------------
// Signals
// ---------------------------------------------------------------------------

/// Most unique signals of one window.
pub const MAX_SIGNALS: usize = 4096;

/// What becomes of a decoded signal.
#[derive(Debug, Clone, Copy, PartialEq, Eq, Structural)]
pub enum Offer {
    /// The same payload was already sent from nearly the same place.
    Duplicate,
    /// There are too many signals.
    Excess,
    /// It is sent.
    Send,
}

/// Two observations of one signal: the same payload from closer than 4 Hz and
/// 0.08 s.
pub open spec fn is_same_signal(a: DecodedSignal, b: DecodedSignal) -> bool {
    &&& a.source_bits@ == b.source_bits@
    &&& closer_than(a.frequency_hz, b.frequency_hz, HZ_4)
    &&& closer_than(a.dt_seconds, b.dt_seconds, SECONDS_0_08)
}

/// The signal was sent before.
pub open spec fn was_sent(signals: Seq<DecodedSignal>, signal: DecodedSignal) -> bool {
    exists|i: int| 0 <= i < signals.len() && is_same_signal(#[trigger] signals[i], signal)
}

/// The statistics after one more attempt.
pub open spec fn with_attempt(
    stats: WindowStatistics,
    result: Result<DecodeStats, Seq<char>>,
    elapsed_ns: u64,
) -> WindowStatistics {
    match result {
        Ok(found) => WindowStatistics {
            candidates: (stats.candidates + found.candidates) as usize,
            passes: (stats.passes + found.passes) as usize,
            internal_decodes: (stats.internal_decodes + found.decoded) as usize,
            elapsed_ns: (stats.elapsed_ns + elapsed_ns) as u64,
        },
        Err(_) => WindowStatistics {
            elapsed_ns: (stats.elapsed_ns + elapsed_ns) as u64,
            ..stats
        },
    }
}

/// The counters leave room for one more attempt.
pub open spec fn has_room(
    stats: WindowStatistics,
    result: Result<DecodeStats, Seq<char>>,
    elapsed_ns: u64,
) -> bool {
    &&& stats.elapsed_ns + elapsed_ns <= u64::MAX
    &&& result matches Ok(found) ==> {
        &&& stats.candidates + found.candidates <= usize::MAX
        &&& stats.passes + found.passes <= usize::MAX
        &&& stats.internal_decodes + found.decoded <= usize::MAX
    }
}

/// The published window after one more attempt.
pub open spec fn attempted(
    state: PublishedModel,
    result: Result<DecodeStats, Seq<char>>,
    elapsed_ns: u64,
) -> PublishedModel {
    PublishedModel {
        stats: match state.stats {
            Some(stats) => Some(with_attempt(stats, result, elapsed_ns)),
            None => None,
        },
        failure: match result {
            Err(reason) => Some(reason),
            Ok(_) => state.failure,
        },
        ..state
    }
}

/// The end of a window after its final attempt.
pub open spec fn attempt_end(
    start: u64,
    result: Result<DecodeStats, Seq<char>>,
    cancelled: bool,
    count: nat,
) -> DoneModel {
    match result {
        Ok(stats) => if stats.cancelled || cancelled {
            plain_done(start, Status::Cancelled, count, Some("reset or disconnect"@))
        } else {
            plain_done(start, Status::Completed, count, None)
        },
        Err(reason) => plain_done(start, Status::Failed, count, Some(reason)),
    }
}

pub open spec fn result_view(result: Result<DecodeStats, String>) -> Result<
    DecodeStats,
    Seq<char>,
> {
    match result {
        Ok(stats) => Ok(stats),
        Err(reason) => Err(reason@),
    }
}

impl Worker {
    /// Decides whether a signal of the current window is sent.
    pub fn offer(&self, signal: &DecodedSignal) -> (r: Offer)
        requires
            self.published is Some,
        ensures
            r == (if was_sent(self.published->0.signals@, *signal) {
                Offer::Duplicate
            } else if self.published->0.signals@.len() >= MAX_SIGNALS {
                Offer::Excess
            } else {
                Offer::Send
            }),
    {
        match &self.published {
            None => Offer::Excess,
            Some(state) => {
                let mut i: usize = 0;
                while i < state.signals.len()
                    invariant
                        i <= state.signals.len(),
                        self.published == Some(*state),
                        forall|k: int|
                            0 <= k < i ==> !is_same_signal(#[trigger] state.signals@[k], *signal),
                    decreases state.signals.len() - i,
                {
                    let sent: &DecodedSignal = &state.signals[i];
                    if same_bits(&sent.source_bits, &signal.source_bits) && is_closer_than(
                        sent.frequency_hz,
                        signal.frequency_hz,
                        HZ_4,
                    ) && is_closer_than(sent.dt_seconds, signal.dt_seconds, SECONDS_0_08) {
                        assert(is_same_signal(state.signals@[i as int], *signal));
                        return Offer::Duplicate;
                    }
                    i = i + 1;
                }
                if state.signals.len() >= MAX_SIGNALS {
                    Offer::Excess
                } else {
                    Offer::Send
                }
            },
        }
    }

    /// Records a signal that was sent.
    pub fn publish(&mut self, signal: DecodedSignal)
        requires
            old(self).published is Some,
        ensures
            final(self).published_model() == Some(
                PublishedModel {
                    signals: old(self).published_model()->0.signals.push(signal),
                    ..old(self).published_model()->0
                },
            ),
            final(self).context == old(self).context,
            final(self).float_pcm == old(self).float_pcm,
            final(self).options == old(self).options,
    {
        match self.published.take() {
            Some(mut state) => {
                state.signals.push(signal);
                self.published = Some(state);
            },
            None => {},
        }
    }

    /// Whether a window is at hand that can account for an attempt.
    pub fn can_account(&self, result: &Result<DecodeStats, String>, elapsed_ns: u64) -> (r: bool)
        ensures
            r == (self.published matches Some(state) && (state.stats matches Some(stats)
                ==> has_room(stats, result_view(*result), elapsed_ns))),
    {
        match &self.published {
            None => false,
            Some(state) => match state.stats {
                None => true,
                Some(stats) => elapsed_ns <= u64::MAX - stats.elapsed_ns && match result {
                    Ok(found) => found.candidates <= usize::MAX - stats.candidates && found.passes
                        <= usize::MAX - stats.passes && found.decoded <= usize::MAX
                        - stats.internal_decodes,
                    Err(_) => true,
                },
            },
        }
    }

    /// Accounts for an attempt on the current window, and ends it after the final
    /// one. `None` stands for no event; the worker stops where a window's time
    /// exceeds 64 bits.
    pub fn attempt(
        &mut self,
        final_pass: bool,
        result: Result<DecodeStats, String>,
        cancelled: bool,
        elapsed_ns: u64,
    ) -> (r: Result<Option<Done>, ()>)
        requires
            old(self).published matches Some(state) && (state.stats matches Some(stats)
                ==> has_room(stats, result_view(result), elapsed_ns)),
        ensures
            final(self).context == old(self).context,
            final(self).float_pcm == old(self).float_pcm,
            final(self).options == old(self).options,
            ({
                let before = old(self).published_model()->0;
                let state = attempted(before, result_view(result), elapsed_ns);
                let event = attempt_end(
                    before.start,
                    result_view(result),
                    cancelled,
                    before.signals.len(),
                );
                if !final_pass {
                    r == Ok::<Option<Done>, ()>(None) && final(self).published_model() == Some(state)
                } else {
                    match terminal_event(event, Some(state), old(self).context) {
                        Some(complete) => {
                            &&& r matches Ok(Some(sent)) && sent.deep_view() == complete
                            &&& final(self).published is None
                        },
                        None => r is Err && final(self).published_model() == Some(state),
                    }
                }
            }),
    {
        let mut start: u64 = 0;
        let mut count: usize = 0;
        let ghost before = self.published_model()->0;
        match self.published.take() {
            Some(mut state) => {
                start = state.start;
                count = state.signals.len();
                match state.stats {
                    Some(mut stats) => {
                        stats.elapsed_ns = stats.elapsed_ns + elapsed_ns;
                        match &result {
                            Ok(found) => {
                                stats.candidates = stats.candidates + found.candidates;
                                stats.passes = stats.passes + found.passes;
                                stats.internal_decodes = stats.internal_decodes + found.decoded;
                            },
                            Err(_) => {},
                        }
                        state.stats = Some(stats);
                    },
                    None => {},
                }
                match &result {
                    Err(reason) => {
                        state.failure = Some(reason.clone());
                    },
                    Ok(_) => {},
                }
                assert(state.deep_view() =~= attempted(before, result_view(result), elapsed_ns));
                self.published = Some(state);
            },
            None => {},
        }
        if !final_pass {
            return Ok(None);
        }
        let event: Done = match result {
            Ok(stats) => if stats.cancelled || cancelled {
                done(start, Status::Cancelled, count, Some("reset or disconnect".to_owned()))
            } else {
                done(start, Status::Completed, count, None)
            },
            Err(reason) => done(start, Status::Failed, count, Some(reason)),
        };
        match self.terminal(event) {
            Some(complete) => Ok(Some(complete)),
            None => Err(()),
        }
    }
}

/// A window whose attempt failed is told as failed, whatever its last event says.
pub proof fn failures_are_told(
    event: DoneModel,
    state: PublishedModel,
    context: Option<Context>,
)
    requires
        state.start == event.start,
        state.failure is Some,
    ensures
        terminal_event(event, Some(state), context) matches Some(complete) ==> complete.status
            == Status::Failed && complete.reason == state.failure && complete.count
            == state.signals.len(),
{
}

// ---------------------------------------------------------------------------
// Documents
// ---------------------------------------------------------------------------

/// The names of a decoded signal's fields.
pub open spec fn signal_names(signal: DecodedSignal, utc: Option<u64>) -> Seq<Seq<char>> {
    seq![
        "type"@,
        "message"@,
        "message_type"@,
        "exchange_type"@,
        "sender"@,
        "recipient"@,
        "sender_hash"@,
        "recipient_hash"@,
        "cq_modifier"@,
        "grid"@,
        "report_db"@,
        "hashes"@,
        "mode"@,
        "frequency_hz"@,
        "snr_db"@,
        "dt_seconds"@,
        "window_start_sample"@,
        "assisted"@,
    ] + (if was_assisted(signal) {
        seq!["ap_type"@, "confidence"@, "questionable"@]
    } else {
        Seq::empty()
    }) + (if utc is Some {
        seq!["window_start_utc_ns"@]
    } else {
        Seq::empty()
    })
}

/// A hypothesis type is known of the signal.
pub open spec fn was_assisted(signal: DecodedSignal) -> bool {
    signal.diagnostics matches Some(d) && d.ap_type is Some
}

pub open spec fn kind_name(kind: crate::message::MessageKind) -> Seq<char> {
    match kind {
        crate::message::MessageKind::FreeText => "free_text"@,
        crate::message::MessageKind::Standard => "standard"@,
        crate::message::MessageKind::Dxpedition => "dxpedition"@,
        crate::message::MessageKind::FieldDay => "field_day"@,
        crate::message::MessageKind::Telemetry => "telemetry"@,
        crate::message::MessageKind::Rtty => "rtty"@,
        crate::message::MessageKind::Nonstandard => "nonstandard"@,
        crate::message::MessageKind::Vhf => "vhf"@,
        crate::message::MessageKind::Wspr => "wspr"@,
    }
}

pub open spec fn exchange_name(exchange: crate::message::ExchangeType) -> Seq<char> {
    match exchange {
        crate::message::ExchangeType::Cq => "cq"@,
        crate::message::ExchangeType::Qrz => "qrz"@,
        crate::message::ExchangeType::De => "de"@,
        crate::message::ExchangeType::Calls => "calls"@,
        crate::message::ExchangeType::Grid => "grid"@,
        crate::message::ExchangeType::RogerGrid => "roger_grid"@,
        crate::message::ExchangeType::Report => "report"@,
        crate::message::ExchangeType::RogerReport => "roger_report"@,
        crate::message::ExchangeType::Rrr => "rrr"@,
        crate::message::ExchangeType::Rr73 => "rr73"@,
        crate::message::ExchangeType::Signoff => "73"@,
    }
}

pub open spec fn exchange_text(exchange: Option<crate::message::ExchangeType>) -> Option<
    Seq<char>,
> {
    match exchange {
        Some(kind) => Some(exchange_name(kind)),
        None => None,
    }
}

pub open spec fn station_call(station: Option<crate::wire::StationModel>) -> Option<Seq<char>> {
    match station {
        Some(found) => found.call,
        None => None,
    }
}

pub open spec fn station_hash(station: Option<crate::wire::StationModel>) -> Option<
    crate::wire::HashModel,
> {
    match station {
        Some(found) => found.hash,
        None => None,
    }
}

pub open spec fn widened(n: Option<i32>) -> Option<int> {
    match n {
        Some(value) => Some(value as int),
        None => None,
    }
}

/// A document that tells of a decoded signal.
pub open spec fn tells_signal(
    r: Field,
    signal: DecodedSignal,
    mode: Mode,
    start: u64,
    utc: Option<u64>,
) -> bool {
    let message = signal.message.deep_view();
    let fields = message.fields;
    let tail: int = if was_assisted(signal) {
        21
    } else {
        18
    };
    &&& is_text(nth(r, 0), "decode"@)
    &&& is_text(nth(r, 1), message.text)
    &&& is_text(nth(r, 2), kind_name(message.kind))
    &&& is_text_or_null(nth(r, 3), exchange_text(fields.exchange_type))
    &&& is_text_or_null(nth(r, 4), station_call(fields.sender))
    &&& is_text_or_null(nth(r, 5), station_call(fields.recipient))
    &&& is_hash_or_null(nth(r, 6), station_hash(fields.sender))
    &&& is_hash_or_null(nth(r, 7), station_hash(fields.recipient))
    &&& is_text_or_null(nth(r, 8), fields.cq_modifier)
    &&& is_text_or_null(nth(r, 9), message.grid)
    &&& is_integer_or_null(nth(r, 10), widened(fields.report_db))
    &&& is_hash_list(nth(r, 11), message.hashes)
    &&& is_text(nth(r, 12), mode.spec_name())
    &&& nth(r, 13) == Field::Single(signal.frequency_hz)
    &&& is_integer(nth(r, 14), signal.snr_db as int)
    &&& nth(r, 15) == Field::Single(signal.dt_seconds)
    &&& is_text(nth(r, 16), decimal(start as nat))
    &&& nth(r, 17) == Field::Flag(signal.assisted)
    &&& was_assisted(signal) ==> {
        let d = signal.diagnostics->0;
        &&& is_integer(nth(r, 18), d.ap_type->0 as int)
        &&& nth(r, 19) == (match d.confidence {
            Some(bits) => Field::Single(bits),
            None => Field::Null,
        })
        &&& nth(r, 20) == Field::Flag(d.questionable)
    }
    &&& utc matches Some(time) ==> is_text(nth(r, tail), decimal(time as nat))
}

fn optional_name(name: Option<&'static str>) -> (r: Field)
    ensures
        is_text_or_null(
            r,
            match name {
                Some(text) => Some(text@),
                None => None,
            },
        ),
{
    match name {
        Some(text) => text_field(text),
        None => Field::Null,
    }
}

fn call_field(station: &Option<crate::message::Station>) -> (r: Field)
    ensures
        is_text_or_null(r, station_call(station.deep_view())),
{
    match station {
        Some(found) => optional_text(&found.call),
        None => Field::Null,
    }
}

fn station_hash_field(station: &Option<crate::message::Station>) -> (r: Field)
    ensures
        is_hash_or_null(r, station_hash(station.deep_view())),
{
    match station {
        Some(found) => optional_hash(&found.hash),
        None => Field::Null,
    }
}

fn signal_entries(
    signal: &DecodedSignal,
    mode: Mode,
    window_start: u64,
    utc: Option<u64>,
) -> (r: Vec<(&'static str, Field)>)
    ensures
        names(Field::Record(r)) == signal_names(*signal, utc),
        tells_signal(Field::Record(r), *signal, mode, window_start, utc),
{
    let fields = &signal.message.fields;
    let mut entries: Vec<(&'static str, Field)> = Vec::new();
    entries.push(("type", text_field("decode")));
    entries.push(("message", text_field(signal.message.text.as_str())));
    entries.push(("message_type", text_field(signal.message.kind.name())));
    let exchange: Option<&'static str> = match fields.exchange_type {
        Some(kind) => Some(kind.name()),
        None => None,
    };
    entries.push(("exchange_type", optional_name(exchange)));
    entries.push(("sender", call_field(&fields.sender)));
    entries.push(("recipient", call_field(&fields.recipient)));
    entries.push(("sender_hash", station_hash_field(&fields.sender)));
    entries.push(("recipient_hash", station_hash_field(&fields.recipient)));
    entries.push(("cq_modifier", optional_text(&fields.cq_modifier)));
    entries.push(("grid", optional_text(&signal.message.grid)));
    let report: Field = match fields.report_db {
        Some(db) => Field::Integer(db as i64),
        None => Field::Null,
    };
    entries.push(("report_db", report));
    entries.push(("hashes", hash_list(&signal.message.hashes)));
    entries.push(("mode", text_field(mode.name())));
    entries.push(("frequency_hz", Field::Single(signal.frequency_hz)));
    entries.push(("snr_db", Field::Integer(signal.snr_db as i64)));
    entries.push(("dt_seconds", Field::Single(signal.dt_seconds)));
    entries.push(("window_start_sample", number_text(window_start)));
    entries.push(("assisted", Field::Flag(signal.assisted)));
    match &signal.diagnostics {
        Some(d) => match d.ap_type {
            Some(ap_type) => {
                entries.push(("ap_type", Field::Integer(ap_type as i64)));
                let confidence: Field = match d.confidence {
                    Some(bits) => Field::Single(bits),
                    None => Field::Null,
                };
                entries.push(("confidence", confidence));
                entries.push(("questionable", Field::Flag(d.questionable)));
            },
            None => {},
        },
        None => {},
    }
    match utc {
        Some(time) => {
            entries.push(("window_start_utc_ns", number_text(time)));
        },
        None => {},
    }
    assert(names(Field::Record(entries)) =~= signal_names(*signal, utc));
    entries
}

/// The document that tells of a decoded signal.
pub fn signal_json(
    signal: &DecodedSignal,
    mode: Mode,
    window_start: u64,
    utc: Option<u64>,
) -> (r: Field)
    ensures
        names(r) == signal_names(*signal, utc),
        tells_signal(r, *signal, mode, window_start, utc),
{
    Field::Record(signal_entries(signal, mode, window_start, utc))
}

pub open spec fn method_name(method: DecodeMethod) -> Seq<char> {
    match method {
        DecodeMethod::Bp => "BP"@,
        DecodeMethod::Osd => "OSD"@,
        DecodeMethod::List => "list"@,
    }
}

/// A document that tells how a signal was decoded.
pub open spec fn tells_diagnostics(r: Field, diagnostics: Option<DecodeDiagnostics>) -> bool {
    match diagnostics {
        None => r == Field::Null,
        Some(d) => {
            &&& names(r) == seq![
                "fec"@,
                "bp_iterations"@,
                "osd_pass"@,
                "hard_errors"@,
                "pass"@,
            ]
            &&& is_text(nth(r, 0), method_name(d.method))
            &&& is_integer(nth(r, 1), d.bp_iterations as int)
            &&& is_integer_or_null(
                nth(r, 2),
                match d.osd_pass {
                    Some(pass) => Some(pass as int),
                    None => None,
                },
            )
            &&& nth(r, 3) == Field::Count(d.hard_errors)
            &&& nth(r, 4) == Field::Count(d.pass)
        },
    }
}

fn diagnostics_field(diagnostics: &Option<DecodeDiagnostics>) -> (r: Field)
    ensures
        tells_diagnostics(r, *diagnostics),
{
    match diagnostics {
        None => Field::Null,
        Some(d) => {
            let mut entries: Vec<(&'static str, Field)> = Vec::new();
            let method: &'static str = match d.method {
                DecodeMethod::Bp => "BP",
                DecodeMethod::Osd => "OSD",
                DecodeMethod::List => "list",
            };
            entries.push(("fec", text_field(method)));
            entries.push(("bp_iterations", Field::Integer(d.bp_iterations as i64)));
            let pass: Field = match d.osd_pass {
                Some(pass) => Field::Integer(pass as i64),
                None => Field::Null,
            };
            entries.push(("osd_pass", pass));
            entries.push(("hard_errors", Field::Count(d.hard_errors)));
            entries.push(("pass", Field::Count(d.pass)));
            let r = Field::Record(entries);
            assert(names(r) =~= seq![
                "fec"@,
                "bp_iterations"@,
                "osd_pass"@,
                "hard_errors"@,
                "pass"@,
            ]);
            r
        },
    }
}

/// A payload as a text of zeros and ones.
pub open spec fn payload_text(bits: Seq<bool>) -> Seq<char> {
    bits.map_values(
        |bit: bool|
            if bit {
                '1'
            } else {
                '0'
            },
    )
}

fn payload_digits(bits: &[bool; 77]) -> (r: String)
    ensures
        r@ == payload_text(bits@),
{
    let mut out: String = String::new();
    let mut i: usize = 0;
    while i < 77
        invariant
            i <= 77,
            out@ =~= payload_text(bits@).take(i as int),
        decreases 77 - i,
    {
        out.push(
            if bits[i] {
                '1'
            } else {
                '0'
            },
        );
        i = i + 1;
    }
    assert(payload_text(bits@).take(77) =~= payload_text(bits@));
    out
}

/// WAV-only diagnostics layered on the common decode metadata: from level one
/// how the signal was decoded, from level two its payload.
pub fn detailed_signal_json(
    signal: &DecodedSignal,
    mode: Mode,
    start: u64,
    utc: Option<u64>,
    level: u8,
) -> (r: Field)
    ensures
        names(r) == signal_names(*signal, utc) + (if level > 0 {
            seq!["diagnostics"@]
        } else {
            Seq::empty()
        }) + (if level > 1 {
            seq!["payload"@]
        } else {
            Seq::empty()
        }),
        tells_signal(r, *signal, mode, start, utc),
        level > 0 ==> tells_diagnostics(
            nth(r, signal_names(*signal, utc).len() as int),
            signal.diagnostics,
        ),
        level > 1 ==> is_text(
            nth(r, signal_names(*signal, utc).len() as int + 1),
            payload_text(signal.source_bits@),
        ),
{
    let mut entries: Vec<(&'static str, Field)> = signal_entries(signal, mode, start, utc);
    let ghost plain = entries@;
    let ghost base = Field::Record(entries);
    assert(names(base).len() == plain.len());
    if level > 0 {
        entries.push(("diagnostics", diagnostics_field(&signal.diagnostics)));
    }
    if level > 1 {
        entries.push(("payload", Field::Text(payload_digits(&signal.source_bits))));
    }
    let r = Field::Record(entries);
    proof {
        assert(forall|i: int| 0 <= i < plain.len() ==> nth(r, i) == #[trigger] nth(base, i));
        assert(forall|i: int| 0 <= i < plain.len() ==> names(r)[i] == #[trigger] names(base)[i]);
        assert(names(r) =~= signal_names(*signal, utc) + (if level > 0 {
            seq!["diagnostics"@]
        } else {
            Seq::empty()
        }) + (if level > 1 {
            seq!["payload"@]
        } else {
            Seq::empty()
        }));
    }
    r
}

/// A document that tells of the work on a window.
pub open spec fn tells_report(r: Field, report: WindowReport) -> bool {
    &&& names(r) == seq![
        "candidates"@,
        "passes"@,
        "internal_decodes"@,
        "bp_decodes"@,
        "osd_decodes"@,
        "decode_ms"@,
    ]
    &&& nth(r, 0) == Field::Count(report.candidates)
    &&& nth(r, 1) == Field::Count(report.passes)
    &&& nth(r, 2) == Field::Count(report.internal_decodes)
    &&& nth(r, 3) == Field::Count(report.bp_decodes)
    &&& nth(r, 4) == Field::Count(report.osd_decodes)
    &&& nth(r, 5) == Field::Milliseconds(report.elapsed_ns)
}

fn report_field(report: &WindowReport) -> (r: Field)
    ensures
        tells_report(r, *report),
{
    let mut entries: Vec<(&'static str, Field)> = Vec::new();
    entries.push(("candidates", Field::Count(report.candidates)));
    entries.push(("passes", Field::Count(report.passes)));
    entries.push(("internal_decodes", Field::Count(report.internal_decodes)));
    entries.push(("bp_decodes", Field::Count(report.bp_decodes)));
    entries.push(("osd_decodes", Field::Count(report.osd_decodes)));
    entries.push(("decode_ms", Field::Milliseconds(report.elapsed_ns)));
    let r = Field::Record(entries);
    assert(names(r) =~= seq![
        "candidates"@,
        "passes"@,
        "internal_decodes"@,
        "bp_decodes"@,
        "osd_decodes"@,
        "decode_ms"@,
    ]);
    r
}

pub open spec fn status_name(status: Status) -> Seq<char> {
    match status {
        Status::Completed => "completed"@,
        Status::Skipped => "skipped"@,
        Status::Cancelled => "cancelled"@,
        Status::Failed => "failed"@,
    }
}

pub open spec fn done_names(event: DoneModel) -> Seq<Seq<char>> {
    seq!["type"@, "window_start_sample"@, "status"@, "message_count"@] + (if event.reason is Some {
        seq!["reason"@]
    } else {
        Seq::empty()
    }) + (if event.mode is Some {
        seq!["mode"@]
    } else {
        Seq::empty()
    }) + (if event.utc is Some {
        seq!["window_start_utc_ns"@]
    } else {
        Seq::empty()
    }) + (if event.report is Some {
        seq!["stats"@]
    } else {
        Seq::empty()
    })
}

/// Place of the first optional field, and of those behind it.
pub open spec fn places(event: DoneModel) -> (int, int, int, int) {
    let a: int = 4;
    let b = if event.reason is Some {
        a + 1
    } else {
        a
    };
    let c = if event.mode is Some {
        b + 1
    } else {
        b
    };
    let d = if event.utc is Some {
        c + 1
    } else {
        c
    };
    (a, b, c, d)
}

/// The document that tells of a window's end.
pub fn done_json(event: &Done) -> (r: Field)
    ensures
        ({
            let e = event.deep_view();
            let (a, b, c, d) = places(e);
            &&& names(r) == done_names(e)
            &&& is_text(nth(r, 0), "done"@)
            &&& is_text(nth(r, 1), decimal(e.start as nat))
            &&& is_text(nth(r, 2), status_name(e.status))
            &&& nth(r, 3) == Field::Count(event.count)
            &&& e.reason matches Some(reason) ==> is_text(nth(r, a), reason)
            &&& e.mode matches Some(mode) ==> is_text(nth(r, b), mode.spec_name())
            &&& e.utc matches Some(utc) ==> is_text(nth(r, c), decimal(utc as nat))
            &&& e.report matches Some(report) ==> tells_report(nth(r, d), report)
        }),
{
    let mut entries: Vec<(&'static str, Field)> = Vec::new();
    entries.push(("type", text_field("done")));
    entries.push(("window_start_sample", number_text(event.start)));
    entries.push(("status", text_field(event.status.name())));
    entries.push(("message_count", Field::Count(event.count)));
    match &event.reason {
        Some(reason) => {
            entries.push(("reason", text_field(reason.as_str())));
        },
        None => {},
    }
    match event.mode {
        Some(mode) => {
            entries.push(("mode", text_field(mode.name())));
        },
        None => {},
    }
    match event.utc {
        Some(utc) => {
            entries.push(("window_start_utc_ns", number_text(utc)));
        },
        None => {},
    }
    match &event.report {
        Some(report) => {
            entries.push(("stats", report_field(report)));
        },
        None => {},
    }
    let r = Field::Record(entries);
    assert(names(r) =~= done_names(event.deep_view()));
    r
}

/// The document of a warning that samples are missing or windows were skipped.
pub fn warning_json(reason: &str, first: u64, end: u64) -> (r: Field)
    ensures
        names(r) == seq!["type"@, "reason"@, "first_sample"@, "end_sample"@],
        is_text(nth(r, 0), "warning"@),
        is_text(nth(r, 1), reason@),
        is_text(nth(r, 2), decimal(first as nat)),
        is_text(nth(r, 3), decimal(end as nat)),
{
    let mut entries: Vec<(&'static str, Field)> = Vec::new();
    entries.push(("type", text_field("warning")));
    entries.push(("reason", text_field(reason)));
    entries.push(("first_sample", number_text(first)));
    entries.push(("end_sample", number_text(end)));
    let r = Field::Record(entries);
    assert(names(r) =~= seq!["type"@, "reason"@, "first_sample"@, "end_sample"@]);
    r
}

/// The document of a command that was carried out.
pub fn ok_json(command: &str) -> (r: Field)
    ensures
        names(r) == seq!["type"@, "command"@],
        is_text(nth(r, 0), "ok"@),
        is_text(nth(r, 1), command@),
{
    let mut entries: Vec<(&'static str, Field)> = Vec::new();
    entries.push(("type", text_field("ok")));
    entries.push(("command", text_field(command)));
    let r = Field::Record(entries);
    assert(names(r) =~= seq!["type"@, "command"@]);
    r
}

/// The document of a command that was refused.
pub fn error_json(command: &str, message: &str) -> (r: Field)
    ensures
        names(r) == seq!["type"@, "command"@, "message"@],
        is_text(nth(r, 0), "error"@),
        is_text(nth(r, 1), command@),
        is_text(nth(r, 2), message@),
{
    let mut entries: Vec<(&'static str, Field)> = Vec::new();
    entries.push(("type", text_field("error")));
    entries.push(("command", text_field(command)));
    entries.push(("message", text_field(message)));
    let r = Field::Record(entries);
    assert(names(r) =~= seq!["type"@, "command"@, "message"@]);
    r
}

/// A signal that was sent from a known place is not sent again.
pub proof fn sent_signals_are_not_repeated(signals: Seq<DecodedSignal>, signal: DecodedSignal)
    requires
        finite(signal.frequency_hz),
        finite(signal.dt_seconds),
    ensures
        was_sent(signals.push(signal), signal),
{
    values_are_near_themselves(signal.frequency_hz, (HZ_4 - 1) as u32);
    values_are_near_themselves(signal.dt_seconds, (SECONDS_0_08 - 1) as u32);
    let all = signals.push(signal);
    assert(is_same_signal(all[signals.len() as int], signal));
}

} // verus!
