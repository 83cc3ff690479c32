//! The search of an FT4 window, as a machine that tells what to do next. Signal
//! processing is done outside; its outcome decides on the next task.
use vstd::prelude::*;
use crate::engine::DecodeStats;
use crate::quantities::{HZ_6, HZ_5000, SECONDS_0_12};
use crate::search::{are_one, ft4_passes, met_before, was_met, Identity};
use crate::single::{at_most, is_at_most, is_less, less};

verus! {

/// Bit pattern of 1.2, the least sync power.
pub const LEAST_POWER: u32 = 0x3f99_999a;

/// What is to be done next.
#[derive(Clone, Copy, Debug, PartialEq, Eq, Structural)]
pub enum Task {
    /// Nothing yet; the search has not begun.
    Begin,
    /// Find the candidates of the residual.
    Acquire,
    /// Prepare the residual for the extraction of candidates.
    Prepare,
    /// Extract a candidate of this pass.
    Extract(usize),
    /// Find the best start and frequency in a segment of start times.
    Synchronize(usize),
    /// Align the candidate and find its bit metrics and hypotheses.
    Align,
    /// Decode it: first by each of the three metrics, then under each hypothesis.
    Attempt(usize),
    /// Subtract the signal at hand from the residual.
    Subtract,
    /// Report the signal at hand.
    Report,
    /// The search is over.
    Finish,
}

/// What a task has led to.
#[derive(Clone, Copy, Debug, PartialEq, Eq)]
pub enum Outcome {
    /// Nothing to tell, or no success.
    Nothing,
    /// How many candidates, or how many hypotheses, there are.
    Count(usize),
    /// Power of the best sync and its frequency, as bit patterns.
    Sync { power: u32, frequency: u32 },
    /// The word is no message; the segment is given up.
    Abandoned,
    /// The candidate is a signal: its payload, and its time as a bit pattern.
    Signal { bits: [bool; 77], time: u32 },
}

/// The state of a search.
pub struct Ft4Search {
    pub depth: u8,
    /// The searched band, as bit patterns.
    pub low_hz: u32,
    pub high_hz: u32,
    pub task: Task,
    pub pass: usize,
    /// Number of the candidate at hand, out of `count`.
    pub index: usize,
    pub count: usize,
    pub segment: usize,
    /// Sync power of the first segment.
    pub first_power: u32,
    /// Frequency of the last sync, as a bit pattern.
    pub frequency: u32,
    /// The segment at hand is worth decoding.
    pub synced: bool,
    /// Number of the attempt, out of `attempts`.
    pub attempt: usize,
    pub attempts: usize,
    /// A signal is at hand, and is new.
    pub success: bool,
    pub fresh: bool,
    /// New signals of this pass.
    pub new_signals: usize,
    pub accepted: Vec<Identity>,
    pub stats: DecodeStats,
}

#[verifier::ext_equal]
pub struct Ft4Model {
    pub depth: u8,
    pub low_hz: u32,
    pub high_hz: u32,
    pub task: Task,
    pub pass: int,
    pub index: int,
    pub count: int,
    pub segment: int,
    pub first_power: u32,
    pub frequency: u32,
    pub synced: bool,
    pub attempt: int,
    pub attempts: int,
    pub success: bool,
    pub fresh: bool,
    pub new_signals: int,
    pub accepted: Seq<Identity>,
    pub candidates: int,
    pub passes: int,
    pub decoded: int,
    pub cancelled: bool,
}

impl View for Ft4Search {
    type V = Ft4Model;

    open spec fn view(&self) -> Ft4Model {
        Ft4Model {
            depth: self.depth,
            low_hz: self.low_hz,
            high_hz: self.high_hz,
            task: self.task,
            pass: self.pass as int,
            index: self.index as int,
            count: self.count as int,
            segment: self.segment as int,
            first_power: self.first_power,
            frequency: self.frequency,
            synced: self.synced,
            attempt: self.attempt as int,
            attempts: self.attempts as int,
            success: self.success,
            fresh: self.fresh,
            new_signals: self.new_signals as int,
            accepted: self.accepted@,
            candidates: self.stats.candidates as int,
            passes: self.stats.passes as int,
            decoded: self.stats.decoded as int,
            cancelled: self.stats.cancelled,
        }
    }
}

// ---------------------------------------------------------------------------
// The schedule
// ---------------------------------------------------------------------------

pub open spec fn pass_count(depth: u8) -> int {
    if depth == 1 {
        1
    } else {
        3
    }
}

/// A frequency within 0 and 5000 Hz and within the searched band.
pub open spec fn is_searched(m: Ft4Model, frequency: u32) -> bool {
    &&& at_most(0, frequency) && at_most(frequency, HZ_5000)
    &&& !less(frequency, m.low_hz) && !less(m.high_hz, frequency)
}

/// A segment is decoded if its sync is strong enough, no weaker than that of the
/// first segment, and at a frequency that is searched.
pub open spec fn is_synced(m: Ft4Model, power: u32, frequency: u32) -> bool {
    &&& !less(power, LEAST_POWER)
    &&& m.segment > 0 ==> !less(power, m.first_power)
    &&& is_searched(m, frequency)
}

/// Goes to pass `p`.
pub open spec fn to_pass(m: Ft4Model, p: int) -> Ft4Model {
    Ft4Model { pass: p, passes: m.passes + 1, new_signals: 0, task: Task::Acquire, ..m }
}

/// Goes on behind a pass: to the next one if this one has found anything new.
pub open spec fn behind_pass(m: Ft4Model) -> Ft4Model {
    if m.new_signals > 0 && m.pass + 1 < pass_count(m.depth) {
        to_pass(m, m.pass + 1)
    } else {
        Ft4Model { task: Task::Finish, ..m }
    }
}

/// Goes to candidate `i` of the pass, where there is one.
pub open spec fn to_candidate(m: Ft4Model, i: int) -> Ft4Model {
    if i >= m.count {
        behind_pass(m)
    } else {
        Ft4Model { index: i, candidates: m.candidates + 1, task: Task::Extract(i as usize), ..m }
    }
}

/// Goes to a segment of the candidate, where there is one.
pub open spec fn to_segment(m: Ft4Model, segment: int) -> Ft4Model {
    if segment >= 3 {
        to_candidate(m, m.index + 1)
    } else {
        Ft4Model { segment, task: Task::Synchronize(segment as usize), ..m }
    }
}

/// Goes to an attempt on the segment, where there is one.
pub open spec fn to_attempt(m: Ft4Model, attempt: int) -> Ft4Model {
    if attempt >= m.attempts {
        to_segment(m, m.segment + 1)
    } else {
        Ft4Model { attempt, task: Task::Attempt(attempt as usize), ..m }
    }
}

/// Reports the signal at hand where it is new, and goes on to the next candidate.
pub open spec fn to_report(m: Ft4Model) -> Ft4Model {
    if m.fresh {
        Ft4Model { task: Task::Report, ..m }
    } else {
        to_candidate(m, m.index + 1)
    }
}

/// Takes in a signal at the frequency of the sync, which is new unless it was accepted
/// before.
pub open spec fn with_signal(m: Ft4Model, bits: [bool; 77], time: u32) -> Ft4Model {
    let signal = Identity { bits, frequency: m.frequency, time };
    let fresh = !was_met(m.accepted, signal, HZ_6, SECONDS_0_12);
    Ft4Model {
        success: true,
        fresh,
        accepted: if fresh {
            m.accepted.push(signal)
        } else {
            m.accepted
        },
        new_signals: m.new_signals + (if fresh {
            1int
        } else {
            0
        }),
        decoded: m.decoded + (if fresh {
            1int
        } else {
            0
        }),
        ..m
    }
}

/// The state with the outcome of its task.
pub open spec fn informed(m: Ft4Model, outcome: Outcome) -> Ft4Model {
    match (m.task, outcome) {
        (Task::Acquire, Outcome::Count(n)) => Ft4Model { count: n as int, ..m },
        (Task::Acquire, _) => Ft4Model { count: 0, ..m },
        (Task::Synchronize(_), Outcome::Sync { power, frequency }) => Ft4Model {
            synced: is_synced(m, power, frequency),
            frequency,
            first_power: if m.segment == 0 {
                power
            } else {
                m.first_power
            },
            ..m
        },
        (Task::Synchronize(_), _) => Ft4Model { synced: false, ..m },
        (Task::Align, Outcome::Count(n)) => Ft4Model {
            attempts: if n <= usize::MAX - 3 {
                n + 3
            } else {
                usize::MAX as int
            },
            ..m
        },
        (Task::Align, _) => Ft4Model { attempts: 0, ..m },
        (Task::Attempt(_), Outcome::Signal { bits, time }) => with_signal(m, bits, time),
        (Task::Attempt(_), Outcome::Abandoned) => Ft4Model {
            success: false,
            attempts: m.attempt + 1,
            ..m
        },
        (Task::Attempt(_), _) => Ft4Model { success: false, ..m },
        _ => m,
    }
}

/// A signal is at hand whose subtraction or report is due.
pub open spec fn is_busy(m: Ft4Model) -> bool {
    ||| m.task is Attempt && m.success && (m.depth > 1 || m.fresh)
    ||| m.task is Subtract && m.fresh
}

/// The state with the task that follows.
pub open spec fn advanced(m: Ft4Model) -> Ft4Model {
    match m.task {
        Task::Begin => to_pass(m, 0),
        Task::Acquire => Ft4Model { task: Task::Prepare, ..m },
        Task::Prepare => to_candidate(m, 0),
        Task::Extract(_) => to_segment(m, 0),
        Task::Synchronize(_) => if m.synced {
            Ft4Model { task: Task::Align, ..m }
        } else {
            to_segment(m, m.segment + 1)
        },
        Task::Align => to_attempt(m, 0),
        Task::Attempt(_) => if !m.success {
            to_attempt(m, m.attempt + 1)
        } else if m.depth > 1 {
            Ft4Model { task: Task::Subtract, ..m }
        } else {
            to_report(m)
        },
        Task::Subtract => to_report(m),
        Task::Report => to_candidate(m, m.index + 1),
        Task::Finish => m,
    }
}

/// One step: the outcome is taken in and the next task chosen. A search that is
/// cancelled finishes, but what was just found is still subtracted and reported.
pub open spec fn stepped(m: Ft4Model, cancel: bool, outcome: Outcome) -> Ft4Model {
    let now = informed(m, outcome);
    if cancel && !is_busy(now) {
        Ft4Model { task: Task::Finish, cancelled: true, ..now }
    } else {
        advanced(now)
    }
}

/// A search that has not begun.
pub open spec fn unbegun(depth: u8, low_hz: u32, high_hz: u32) -> Ft4Model {
    Ft4Model {
        depth,
        low_hz,
        high_hz,
        task: Task::Begin,
        pass: 0,
        index: 0,
        count: 0,
        segment: 0,
        first_power: 0,
        frequency: 0,
        synced: false,
        attempt: 0,
        attempts: 0,
        success: false,
        fresh: false,
        new_signals: 0,
        accepted: Seq::empty(),
        candidates: 0,
        passes: 0,
        decoded: 0,
        cancelled: false,
    }
}

/// What every search keeps.
pub open spec fn is_search(m: Ft4Model) -> bool {
    &&& 0 <= m.pass < 3
    &&& m.passes == (if m.task is Begin || (m.task is Finish && m.passes == 0) {
        0
    } else {
        m.pass + 1
    })
    &&& m.decoded == m.accepted.len()
    &&& 0 <= m.new_signals <= m.decoded
    &&& 0 <= m.index < usize::MAX
    &&& 0 <= m.count <= usize::MAX
    &&& 0 <= m.segment < 3
    &&& 0 <= m.attempt < usize::MAX
    &&& 0 <= m.attempts <= usize::MAX
    &&& (m.task is Extract || m.task is Synchronize || m.task is Align || m.task is Attempt
        || m.task is Subtract || m.task is Report) ==> m.index < m.count
    &&& m.task is Attempt ==> m.attempt < m.attempts
    &&& m.task matches Task::Extract(i) ==> i == m.index
    &&& m.task matches Task::Synchronize(i) ==> i == m.segment
    &&& m.task matches Task::Attempt(i) ==> i == m.attempt
}

/// No accepted signal is another observation of one that was accepted before it.
pub open spec fn reports_differ(m: Ft4Model) -> bool {
    forall|i: int, j: int|
        0 <= i < j < m.accepted.len() ==> !are_one(
            #[trigger] m.accepted[i],
            #[trigger] m.accepted[j],
            HZ_6,
            SECONDS_0_12,
        )
}

/// Every accepted signal, and the one that is looked for, is at a frequency that is
/// searched.
pub open spec fn is_in_band(m: Ft4Model) -> bool {
    &&& forall|i: int|
        0 <= i < m.accepted.len() ==> is_searched(m, (#[trigger] m.accepted[i]).frequency)
    &&& (m.task is Align || m.task is Attempt) ==> is_searched(m, m.frequency)
}

// ---------------------------------------------------------------------------
// The machine
// ---------------------------------------------------------------------------

impl Ft4Search {
    pub fn new(depth: u8, low_hz: u32, high_hz: u32) -> (r: Self)
        ensures
            r@ == unbegun(depth, low_hz, high_hz),
            is_search(r@),
            reports_differ(r@),
            is_in_band(r@),
    {
        let r = Ft4Search {
            depth,
            low_hz,
            high_hz,
            task: Task::Begin,
            pass: 0,
            index: 0,
            count: 0,
            segment: 0,
            first_power: 0,
            frequency: 0,
            synced: false,
            attempt: 0,
            attempts: 0,
            success: false,
            fresh: false,
            new_signals: 0,
            accepted: Vec::new(),
            stats: DecodeStats { candidates: 0, passes: 0, decoded: 0, cancelled: false },
        };
        assert(r@ =~= unbegun(depth, low_hz, high_hz));
        r
    }

    fn go_to_pass(&mut self, p: usize)
        requires
            old(self).stats.passes < usize::MAX,
        ensures
            final(self)@ == to_pass(old(self)@, p as int),
    {
        self.pass = p;
        self.stats.passes = self.stats.passes + 1;
        self.new_signals = 0;
        self.task = Task::Acquire;
        assert(self@ =~= to_pass(old(self)@, p as int));
    }

    fn go_to_candidate(&mut self, i: usize)
        requires
            old(self).pass < 3,
            old(self).stats.passes < usize::MAX,
            old(self).stats.candidates < usize::MAX,
        ensures
            final(self)@ == to_candidate(old(self)@, i as int),
    {
        if i >= self.count {
            if self.new_signals > 0 && self.pass + 1 < ft4_passes(self.depth) {
                let next: usize = self.pass + 1;
                self.go_to_pass(next);
            } else {
                self.task = Task::Finish;
            }
        } else {
            self.index = i;
            self.stats.candidates = self.stats.candidates + 1;
            self.task = Task::Extract(i);
        }
        assert(self@ =~= to_candidate(old(self)@, i as int));
    }

    fn go_to_segment(&mut self, segment: usize)
        requires
            old(self).pass < 3,
            old(self).index < usize::MAX,
            old(self).stats.passes < usize::MAX,
            old(self).stats.candidates < usize::MAX,
        ensures
            final(self)@ == to_segment(old(self)@, segment as int),
    {
        if segment >= 3 {
            let next: usize = self.index + 1;
            self.go_to_candidate(next);
        } else {
            self.segment = segment;
            self.task = Task::Synchronize(segment);
        }
        assert(self@ =~= to_segment(old(self)@, segment as int));
    }

    fn go_to_attempt(&mut self, attempt: usize)
        requires
            old(self).pass < 3,
            old(self).index < usize::MAX,
            old(self).segment < 3,
            old(self).stats.passes < usize::MAX,
            old(self).stats.candidates < usize::MAX,
        ensures
            final(self)@ == to_attempt(old(self)@, attempt as int),
    {
        if attempt >= self.attempts {
            let next: usize = self.segment + 1;
            self.go_to_segment(next);
        } else {
            self.attempt = attempt;
            self.task = Task::Attempt(attempt);
        }
        assert(self@ =~= to_attempt(old(self)@, attempt as int));
    }

    fn go_to_report(&mut self)
        requires
            old(self).pass < 3,
            old(self).index < usize::MAX,
            old(self).stats.passes < usize::MAX,
            old(self).stats.candidates < usize::MAX,
        ensures
            final(self)@ == to_report(old(self)@),
    {
        if self.fresh {
            self.task = Task::Report;
        } else {
            let next: usize = self.index + 1;
            self.go_to_candidate(next);
        }
        assert(self@ =~= to_report(old(self)@));
    }

    fn take_signal(&mut self, bits: [bool; 77], time: u32)
        requires
            old(self).stats.decoded < usize::MAX,
            old(self).new_signals < usize::MAX,
        ensures
            final(self)@ == with_signal(old(self)@, bits, time),
    {
        let signal: Identity = Identity { bits, frequency: self.frequency, time };
        let fresh: bool = !met_before(&self.accepted, &signal, HZ_6, SECONDS_0_12);
        self.success = true;
        self.fresh = fresh;
        if fresh {
            self.accepted.push(signal);
            self.new_signals = self.new_signals + 1;
            self.stats.decoded = self.stats.decoded + 1;
        }
        assert(self@ =~= with_signal(old(self)@, bits, time));
    }

    fn inform(&mut self, outcome: Outcome)
        requires
            is_search(old(self)@),
            old(self).stats.decoded < usize::MAX,
        ensures
            final(self)@ == informed(old(self)@, outcome),
    {
        match self.task {
            Task::Acquire => {
                self.count = match outcome {
                    Outcome::Count(n) => n,
                    _ => 0,
                };
            },
            Task::Synchronize(_) => {
                match outcome {
                    Outcome::Sync { power, frequency } => {
                        self.synced = !is_less(power, LEAST_POWER) && !(self.segment > 0
                            && is_less(power, self.first_power)) && is_at_most(0, frequency)
                            && is_at_most(frequency, HZ_5000) && !is_less(frequency, self.low_hz)
                            && !is_less(self.high_hz, frequency);
                        self.frequency = frequency;
                        if self.segment == 0 {
                            self.first_power = power;
                        }
                    },
                    _ => {
                        self.synced = false;
                    },
                }
            },
            Task::Align => {
                self.attempts = match outcome {
                    Outcome::Count(n) => if n <= usize::MAX - 3 {
                        n + 3
                    } else {
                        usize::MAX
                    },
                    _ => 0,
                };
            },
            Task::Attempt(_) => {
                match outcome {
                    Outcome::Signal { bits, time } => {
                        self.take_signal(bits, time);
                    },
                    Outcome::Abandoned => {
                        self.success = false;
                        self.attempts = self.attempt + 1;
                    },
                    _ => {
                        self.success = false;
                    },
                }
            },
            _ => {},
        }
        assert(self@ =~= informed(old(self)@, outcome));
    }

    fn advance(&mut self)
        requires
            old(self).pass < 3,
            old(self).index < usize::MAX,
            old(self).segment < 3,
            old(self).attempt < usize::MAX,
            old(self).stats.passes < usize::MAX,
            old(self).stats.candidates < usize::MAX,
        ensures
            final(self)@ == advanced(old(self)@),
    {
        match self.task {
            Task::Begin => {
                self.go_to_pass(0);
            },
            Task::Acquire => {
                self.task = Task::Prepare;
            },
            Task::Prepare => {
                self.go_to_candidate(0);
            },
            Task::Extract(_) => {
                self.go_to_segment(0);
            },
            Task::Synchronize(_) => {
                if self.synced {
                    self.task = Task::Align;
                } else {
                    let next: usize = self.segment + 1;
                    self.go_to_segment(next);
                }
            },
            Task::Align => {
                self.go_to_attempt(0);
            },
            Task::Attempt(_) => {
                if !self.success {
                    let next: usize = self.attempt + 1;
                    self.go_to_attempt(next);
                } else if self.depth > 1 {
                    self.task = Task::Subtract;
                } else {
                    self.go_to_report();
                }
            },
            Task::Subtract => {
                self.go_to_report();
            },
            Task::Report => {
                let next: usize = self.index + 1;
                self.go_to_candidate(next);
            },
            Task::Finish => {},
        }
        assert(self@ =~= advanced(old(self)@));
    }

    /// Takes in the outcome of the task at hand and tells the next one. `cancel`
    /// asks the search to stop.
    pub fn step(&mut self, cancel: bool, outcome: Outcome) -> (r: Task)
        requires
            is_search(old(self)@),
            reports_differ(old(self)@),
            is_in_band(old(self)@),
            old(self).stats.candidates < usize::MAX,
            old(self).stats.decoded < usize::MAX,
        ensures
            final(self)@ == stepped(old(self)@, cancel, outcome),
            r == final(self).task,
            is_search(final(self)@),
            reports_differ(final(self)@),
            is_in_band(final(self)@),
    {
        proof {
            searches_stay_bounded(self@, cancel, outcome);
            reports_stay_different(self@, cancel, outcome);
            signals_stay_in_band(self@, cancel, outcome);
        }
        self.inform(outcome);
        let busy: bool = match self.task {
            Task::Attempt(_) => self.success && (self.depth > 1 || self.fresh),
            Task::Subtract => self.fresh,
            _ => false,
        };
        if cancel && !busy {
            self.stats.cancelled = true;
            self.task = Task::Finish;
            assert(self@ =~= stepped(old(self)@, cancel, outcome));
        } else {
            self.advance();
        }
        self.task
    }
}

// ---------------------------------------------------------------------------
// Laws
// ---------------------------------------------------------------------------

/// A step keeps a search within its bounds: at most three passes.
pub proof fn searches_stay_bounded(m: Ft4Model, cancel: bool, outcome: Outcome)
    requires
        is_search(m),
    ensures
        is_search(stepped(m, cancel, outcome)),
        stepped(m, cancel, outcome).passes <= 3,
{
}

/// A step never accepts a signal twice.
pub proof fn reports_stay_different(m: Ft4Model, cancel: bool, outcome: Outcome)
    requires
        reports_differ(m),
    ensures
        reports_differ(stepped(m, cancel, outcome)),
{
    let now = informed(m, outcome);
    assert(stepped(m, cancel, outcome).accepted == now.accepted);
    assert forall|i: int, j: int| 0 <= i < j < now.accepted.len() implies !are_one(
        #[trigger] now.accepted[i],
        #[trigger] now.accepted[j],
        HZ_6,
        SECONDS_0_12,
    ) by {
        assert(now.accepted[i] == m.accepted[i]);
        if j < m.accepted.len() {
            assert(now.accepted[j] == m.accepted[j]);
        }
    }
}

/// A step accepts signals only at frequencies within 0 and 5000 Hz and within the searched
/// band: the frequency of the sync that the signal was decoded at.
pub proof fn signals_stay_in_band(m: Ft4Model, cancel: bool, outcome: Outcome)
    requires
        is_in_band(m),
    ensures
        is_in_band(stepped(m, cancel, outcome)),
        ({
            let after = stepped(m, cancel, outcome).accepted;
            after == m.accepted || (after.len() == m.accepted.len() + 1 && after.drop_last()
                == m.accepted && after.last().frequency == m.frequency)
        }),
{
    let now = informed(m, outcome);
    let after = stepped(m, cancel, outcome);
    assert(after.accepted == now.accepted);
    assert forall|i: int| 0 <= i < now.accepted.len() implies is_searched(
        m,
        (#[trigger] now.accepted[i]).frequency,
    ) by {
        if i < m.accepted.len() {
            assert(now.accepted[i] == m.accepted[i]);
        }
    }
    assert(now.accepted != m.accepted ==> now.accepted.drop_last() =~= m.accepted);
    assert forall|i: int| 0 <= i < after.accepted.len() implies is_searched(
        after,
        (#[trigger] after.accepted[i]).frequency,
    ) by {
        assert(is_searched(m, now.accepted[i].frequency));
    }
}

/// A cancelled search has two more tasks at most: to subtract and to report what it
/// has just found.
pub proof fn cancelled_searches_finish(
    m: Ft4Model,
    first: Outcome,
    second: Outcome,
    third: Outcome,
)
    ensures
        stepped(stepped(stepped(m, true, first), true, second), true, third).task == Task::Finish,
{
}

/// What is left to do, from the coarsest to the finest: passes, parts of the pass,
/// candidates, segments and parts of each, attempts and parts of each.
pub open spec fn work_left(m: Ft4Model) -> Seq<int> {
    let passes = match m.task {
        Task::Begin => 4,
        Task::Finish => 0,
        _ => 3 - m.pass,
    };
    let parts = match m.task {
        Task::Acquire => 2,
        Task::Prepare => 1,
        _ => 0int,
    };
    let items = match m.task {
        Task::Begin => 0,
        Task::Acquire => 0,
        Task::Prepare => 0,
        Task::Finish => 0,
        _ => m.count - m.index,
    };
    let segments = match m.task {
        Task::Extract(_) => 11,
        Task::Synchronize(_) => 3 * (3 - m.segment) + 1,
        Task::Align => 3 * (3 - m.segment),
        Task::Attempt(_) => 3 * (3 - m.segment) - 1,
        Task::Subtract => 1,
        _ => 0int,
    };
    let attempts = match m.task {
        Task::Attempt(_) => m.attempts - m.attempt,
        _ => 0,
    };
    seq![passes, parts, items, segments, attempts]
}

/// Every search ends: each step leaves less to do, and nothing left is negative.
pub proof fn searches_end(m: Ft4Model, cancel: bool, outcome: Outcome)
    requires
        is_search(m),
        m.task != Task::Finish,
    ensures
        crate::ft8_search::comes_down(work_left(stepped(m, cancel, outcome)), work_left(m)),
        forall|i: int| 0 <= i < 5 ==> #[trigger] work_left(m)[i] >= 0,
{
}

} // verus!
