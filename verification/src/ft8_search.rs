//! The search of an FT8 window, as a machine that tells what to do next. Signal
//! processing is done outside; its outcome decides on the next task.
use vstd::prelude::*;
use crate::engine::DecodeStats;
use crate::quantities::{HZ_4, HZ_6_25, SECONDS_0_08};
use crate::search::{ft8_passes, met_before, was_met, AcquisitionStage, Identity};

verus! {

/// What is to be done next.
#[derive(Clone, Copy, Debug, PartialEq, Eq, Structural)]
pub enum Task {
    /// Nothing yet; the search has not begun.
    Begin,
    /// Fill the residual for a stage.
    Load(AcquisitionStage),
    /// Find the candidates of the residual.
    Acquire,
    /// Prepare the residual for the extraction of candidates.
    Prepare,
    /// Examine a candidate of this pass.
    Examine(usize),
    /// Report the signal at hand.
    Report,
    /// Subtract the signal at hand from the residual, with refined timing or not,
    /// and save it for the next stage or not.
    Subtract { refined: bool, save: bool },
    /// Decode from the list of expected messages.
    List,
    /// Take up a result of the list.
    Offer(usize),
    /// Report the result at hand.
    ReportListed,
    /// The search is over.
    Finish,
}

/// What a task has led to.
#[derive(Clone, Copy, Debug, PartialEq, Eq)]
pub enum Outcome {
    /// Nothing to tell.
    Nothing,
    /// How many candidates or list results there are.
    Count(usize),
    /// The candidate is an acceptable signal.
    Signal(Identity),
}

/// What is done with the signal at hand.
#[derive(Clone, Copy, Debug, PartialEq, Eq, Structural)]
pub struct Verdict {
    /// It is reported.
    pub emit: bool,
    /// It is subtracted from the residual.
    pub subtract: bool,
    /// It is new to the residual.
    pub fresh: bool,
}

/// The state of a search. Subtraction identities belong to a residual, while those
/// of reported signals span all stages.
pub struct Ft8Search {
    pub depth: u8,
    /// List decoding is wanted.
    pub lists: bool,
    pub task: Task,
    /// Number of the stage.
    pub stage: usize,
    pub pass: usize,
    /// Number of the candidate or result at hand, out of `count`.
    pub index: usize,
    pub count: usize,
    pub verdict: Verdict,
    pub seen: Vec<Identity>,
    pub emitted: Vec<Identity>,
    pub stats: DecodeStats,
}

#[verifier::ext_equal]
pub struct Ft8Model {
    pub depth: u8,
    pub lists: bool,
    pub task: Task,
    pub stage: int,
    pub pass: int,
    pub index: int,
    pub count: int,
    pub verdict: Verdict,
    pub seen: Seq<Identity>,
    pub emitted: Seq<Identity>,
    pub candidates: int,
    pub passes: int,
    pub decoded: int,
    pub cancelled: bool,
}

impl View for Ft8Search {
    type V = Ft8Model;

    open spec fn view(&self) -> Ft8Model {
        Ft8Model {
            depth: self.depth,
            lists: self.lists,
            task: self.task,
            stage: self.stage as int,
            pass: self.pass as int,
            index: self.index as int,
            count: self.count as int,
            verdict: self.verdict,
            seen: self.seen@,
            emitted: self.emitted@,
            candidates: self.stats.candidates as int,
            passes: self.stats.passes as int,
            decoded: self.stats.decoded as int,
            cancelled: self.stats.cancelled,
        }
    }
}

// ---------------------------------------------------------------------------
// The schedule
// ---------------------------------------------------------------------------

/// How many stages a depth has: the full slot alone, or two shorter ones first.
pub open spec fn stage_count(depth: u8) -> int {
    if depth == 1 {
        1
    } else {
        3
    }
}

/// Stage `k` of a depth.
pub open spec fn stage_at(depth: u8, k: int) -> AcquisitionStage {
    if depth == 1 || k >= 2 {
        AcquisitionStage::Full
    } else if k == 1 {
        AcquisitionStage::Final
    } else {
        AcquisitionStage::Early
    }
}

pub open spec fn pass_count(depth: u8) -> int {
    if depth == 1 {
        2
    } else {
        3
    }
}

/// No signal at hand.
pub open spec fn no_verdict() -> Verdict {
    Verdict { emit: false, subtract: false, fresh: false }
}

/// Goes to stage `k`, where there is one. The full one has a residual of its own.
pub open spec fn to_stage(m: Ft8Model, k: int) -> Ft8Model {
    if k >= stage_count(m.depth) {
        Ft8Model { task: Task::Finish, ..m }
    } else {
        Ft8Model {
            stage: k,
            pass: 0,
            seen: if stage_at(m.depth, k) == AcquisitionStage::Full {
                Seq::empty()
            } else {
                m.seen
            },
            task: Task::Load(stage_at(m.depth, k)),
            ..m
        }
    }
}

/// Goes on behind the passes of a stage: to the list, but for the early stage, or
/// to the next stage.
pub open spec fn behind_passes(m: Ft8Model) -> Ft8Model {
    if m.lists && stage_at(m.depth, m.stage) != AcquisitionStage::Early {
        Ft8Model { task: Task::List, ..m }
    } else {
        to_stage(m, m.stage + 1)
    }
}

/// Goes to pass `p`, where there is one. The third one needs something subtracted.
pub open spec fn to_pass(m: Ft8Model, p: int) -> Ft8Model {
    if p >= pass_count(m.depth) || (p == 2 && m.seen.len() == 0) {
        behind_passes(m)
    } else {
        Ft8Model { pass: p, passes: m.passes + 1, task: Task::Acquire, ..m }
    }
}

/// Goes to candidate `i` of the pass, where there is one.
pub open spec fn to_candidate(m: Ft8Model, i: int) -> Ft8Model {
    if i >= m.count {
        to_pass(m, m.pass + 1)
    } else {
        Ft8Model { index: i, candidates: m.candidates + 1, task: Task::Examine(i as usize), ..m }
    }
}

/// Goes to result `i` of the list, where there is one.
pub open spec fn to_result(m: Ft8Model, i: int) -> Ft8Model {
    if i >= m.count {
        to_stage(m, m.stage + 1)
    } else {
        Ft8Model { index: i, task: Task::Offer(i as usize), ..m }
    }
}

/// Subtracts the signal at hand, where that is due.
pub open spec fn to_subtraction(m: Ft8Model) -> Ft8Model {
    if m.verdict.subtract {
        let stage = stage_at(m.depth, m.stage);
        Ft8Model {
            task: Task::Subtract {
                refined: stage == AcquisitionStage::Full && m.depth == 3,
                save: stage == AcquisitionStage::Early && m.verdict.fresh,
            },
            ..m
        }
    } else {
        to_candidate(m, m.index + 1)
    }
}

/// Takes in a signal that a candidate has turned out to be. One that was already
/// subtracted from this residual is dropped in the full stage; elsewhere it is
/// subtracted once more. It is reported unless it was reported before: coarse
/// subtraction can move the refined peak within one tone.
pub open spec fn with_signal(m: Ft8Model, signal: Identity) -> Ft8Model {
    let known = was_met(m.seen, signal, HZ_4, SECONDS_0_08);
    let dropped = known && stage_at(m.depth, m.stage) == AcquisitionStage::Full;
    let emit = !dropped && !was_met(m.emitted, signal, HZ_6_25, SECONDS_0_08);
    Ft8Model {
        seen: if known {
            m.seen
        } else {
            m.seen.push(signal)
        },
        emitted: if emit {
            m.emitted.push(signal)
        } else {
            m.emitted
        },
        decoded: m.decoded + (if emit {
            1int
        } else {
            0
        }),
        verdict: Verdict { emit, subtract: !dropped, fresh: !known },
        ..m
    }
}

/// Takes in a result of the list, which is reported unless it was before.
pub open spec fn with_result(m: Ft8Model, signal: Identity) -> Ft8Model {
    let emit = !was_met(m.emitted, signal, HZ_6_25, SECONDS_0_08);
    Ft8Model {
        emitted: if emit {
            m.emitted.push(signal)
        } else {
            m.emitted
        },
        decoded: m.decoded + (if emit {
            1int
        } else {
            0
        }),
        verdict: Verdict { emit, subtract: false, fresh: false },
        ..m
    }
}

/// The state with the outcome of its task.
pub open spec fn informed(m: Ft8Model, outcome: Outcome) -> Ft8Model {
    match (m.task, outcome) {
        (Task::Acquire, Outcome::Count(n)) => Ft8Model { count: n as int, ..m },
        (Task::Acquire, _) => Ft8Model { count: 0, ..m },
        (Task::List, Outcome::Count(n)) => Ft8Model { count: n as int, ..m },
        (Task::List, _) => Ft8Model { count: 0, ..m },
        (Task::Examine(_), Outcome::Signal(signal)) => with_signal(m, signal),
        (Task::Examine(_), _) => Ft8Model { verdict: no_verdict(), ..m },
        (Task::Offer(_), Outcome::Signal(signal)) => with_result(m, signal),
        (Task::Offer(_), _) => Ft8Model { verdict: no_verdict(), ..m },
        _ => m,
    }
}

/// A signal was just found that is to be reported.
pub open spec fn has_report(m: Ft8Model) -> bool {
    (m.task is Examine || m.task is Offer) && m.verdict.emit
}

/// The state with the task that follows.
pub open spec fn advanced(m: Ft8Model) -> Ft8Model {
    match m.task {
        Task::Begin => to_stage(m, 0),
        Task::Load(_) => to_pass(m, 0),
        Task::Acquire => Ft8Model { task: Task::Prepare, ..m },
        Task::Prepare => to_candidate(m, 0),
        Task::Examine(_) => if m.verdict.emit {
            Ft8Model { task: Task::Report, ..m }
        } else {
            to_subtraction(m)
        },
        Task::Report => to_subtraction(m),
        Task::Subtract { .. } => to_candidate(m, m.index + 1),
        Task::List => to_result(m, 0),
        Task::Offer(_) => if m.verdict.emit {
            Ft8Model { task: Task::ReportListed, ..m }
        } else {
            to_result(m, m.index + 1)
        },
        Task::ReportListed => to_result(m, m.index + 1),
        Task::Finish => m,
    }
}

/// One step: the outcome is taken in and the next task chosen. A search that is
/// cancelled finishes, but what was just found is still reported.
pub open spec fn stepped(m: Ft8Model, cancel: bool, outcome: Outcome) -> Ft8Model {
    let now = informed(m, outcome);
    if cancel && !has_report(now) {
        Ft8Model { task: Task::Finish, cancelled: true, ..now }
    } else {
        advanced(now)
    }
}

/// A search that has not begun.
pub open spec fn unbegun(depth: u8, lists: bool) -> Ft8Model {
    Ft8Model {
        depth,
        lists,
        task: Task::Begin,
        stage: 0,
        pass: 0,
        index: 0,
        count: 0,
        verdict: no_verdict(),
        seen: Seq::empty(),
        emitted: Seq::empty(),
        candidates: 0,
        passes: 0,
        decoded: 0,
        cancelled: false,
    }
}

/// What every search keeps: bounds on stage, pass and candidate, at most as many
/// passes as stages and passes allow, and as many decodes as reported signals.
pub open spec fn is_search(m: Ft8Model) -> bool {
    &&& 0 <= m.stage < 3
    &&& 0 <= m.pass < 3
    &&& m.task is Begin ==> m.stage == 0
    &&& 0 <= m.passes <= 3 * m.stage + (if m.task is Begin || m.task is Load {
        0
    } else {
        m.pass + 1
    })
    &&& m.decoded == m.emitted.len()
    &&& 0 <= m.index < usize::MAX
    &&& 0 <= m.count <= usize::MAX
    &&& (m.task is Examine || m.task is Report || m.task is Subtract || m.task is Offer
        || m.task is ReportListed) ==> m.index < m.count
    &&& m.task matches Task::Examine(i) ==> i == m.index
    &&& m.task matches Task::Offer(i) ==> i == m.index
}

/// No reported signal is another observation of one that was reported before it.
pub open spec fn reports_differ(m: Ft8Model) -> bool {
    forall|i: int, j: int|
        0 <= i < j < m.emitted.len() ==> !crate::search::are_one(
            #[trigger] m.emitted[i],
            #[trigger] m.emitted[j],
            HZ_6_25,
            SECONDS_0_08,
        )
}

// ---------------------------------------------------------------------------
// The machine
// ---------------------------------------------------------------------------

impl Ft8Search {
    /// `lists` says that list decoding is wanted.
    pub fn new(depth: u8, lists: bool) -> (r: Self)
        ensures
            r@ == unbegun(depth, lists),
            is_search(r@),
            reports_differ(r@),
    {
        let r = Ft8Search {
            depth,
            lists,
            task: Task::Begin,
            stage: 0,
            pass: 0,
            index: 0,
            count: 0,
            verdict: Verdict { emit: false, subtract: false, fresh: false },
            seen: Vec::new(),
            emitted: Vec::new(),
            stats: DecodeStats { candidates: 0, passes: 0, decoded: 0, cancelled: false },
        };
        assert(r@ =~= unbegun(depth, lists));
        r
    }

    fn stage_name(&self, k: usize) -> (r: AcquisitionStage)
        ensures
            r == stage_at(self.depth, k as int),
    {
        if self.depth == 1 || k >= 2 {
            AcquisitionStage::Full
        } else if k == 1 {
            AcquisitionStage::Final
        } else {
            AcquisitionStage::Early
        }
    }

    fn go_to_stage(&mut self, k: usize)
        ensures
            final(self)@ == to_stage(old(self)@, k as int),
    {
        let stages: usize = if self.depth == 1 { 1 } else { 3 };
        if k >= stages {
            self.task = Task::Finish;
        } else {
            let stage: AcquisitionStage = self.stage_name(k);
            self.stage = k;
            self.pass = 0;
            if stage == AcquisitionStage::Full {
                self.seen = Vec::new();
            }
            self.task = Task::Load(stage);
        }
        assert(self@ =~= to_stage(old(self)@, k as int));
    }

    fn go_behind_passes(&mut self)
        requires
            old(self).stage < 3,
        ensures
            final(self)@ == behind_passes(old(self)@),
    {
        if self.lists && self.stage_name(self.stage) != AcquisitionStage::Early {
            self.task = Task::List;
            assert(self@ =~= behind_passes(old(self)@));
        } else {
            let next: usize = self.stage + 1;
            self.go_to_stage(next);
        }
    }

    fn go_to_pass(&mut self, p: usize)
        requires
            old(self).stage < 3,
            old(self).stats.passes < usize::MAX,
        ensures
            final(self)@ == to_pass(old(self)@, p as int),
    {
        if p >= ft8_passes(self.depth) || (p == 2 && self.seen.len() == 0) {
            self.go_behind_passes();
        } else {
            self.pass = p;
            self.stats.passes = self.stats.passes + 1;
            self.task = Task::Acquire;
            assert(self@ =~= to_pass(old(self)@, p as int));
        }
    }

    fn go_to_candidate(&mut self, i: usize)
        requires
            old(self).stage < 3,
            old(self).pass < 3,
            old(self).stats.passes < usize::MAX,
            old(self).stats.candidates < usize::MAX,
        ensures
            final(self)@ == to_candidate(old(self)@, i as int),
    {
        if i >= self.count {
            let next: usize = self.pass + 1;
            self.go_to_pass(next);
        } else {
            self.index = i;
            self.stats.candidates = self.stats.candidates + 1;
            self.task = Task::Examine(i);
            assert(self@ =~= to_candidate(old(self)@, i as int));
        }
    }

    fn go_to_result(&mut self, i: usize)
        requires
            old(self).stage < 3,
        ensures
            final(self)@ == to_result(old(self)@, i as int),
    {
        if i >= self.count {
            let next: usize = self.stage + 1;
            self.go_to_stage(next);
        } else {
            self.index = i;
            self.task = Task::Offer(i);
            assert(self@ =~= to_result(old(self)@, i as int));
        }
    }

    fn go_to_subtraction(&mut self)
        requires
            old(self).stage < 3,
            old(self).pass < 3,
            old(self).index < usize::MAX,
            old(self).stats.passes < usize::MAX,
            old(self).stats.candidates < usize::MAX,
        ensures
            final(self)@ == to_subtraction(old(self)@),
    {
        if self.verdict.subtract {
            let stage: AcquisitionStage = self.stage_name(self.stage);
            self.task = Task::Subtract {
                refined: stage == AcquisitionStage::Full && self.depth == 3,
                save: stage == AcquisitionStage::Early && self.verdict.fresh,
            };
            assert(self@ =~= to_subtraction(old(self)@));
        } else {
            let next: usize = self.index + 1;
            self.go_to_candidate(next);
        }
    }

    fn take_signal(&mut self, signal: Identity)
        requires
            old(self).stats.decoded < usize::MAX,
        ensures
            final(self)@ == with_signal(old(self)@, signal),
    {
        let known: bool = met_before(&self.seen, &signal, HZ_4, SECONDS_0_08);
        let dropped: bool = known && self.stage_name(self.stage) == AcquisitionStage::Full;
        let emit: bool = !dropped && !met_before(&self.emitted, &signal, HZ_6_25, SECONDS_0_08);
        if !known {
            self.seen.push(signal);
        }
        if emit {
            self.emitted.push(signal);
            self.stats.decoded = self.stats.decoded + 1;
        }
        self.verdict = Verdict { emit, subtract: !dropped, fresh: !known };
        assert(self@ =~= with_signal(old(self)@, signal));
    }

    fn take_result(&mut self, signal: Identity)
        requires
            old(self).stats.decoded < usize::MAX,
        ensures
            final(self)@ == with_result(old(self)@, signal),
    {
        let emit: bool = !met_before(&self.emitted, &signal, HZ_6_25, SECONDS_0_08);
        if emit {
            self.emitted.push(signal);
            self.stats.decoded = self.stats.decoded + 1;
        }
        self.verdict = Verdict { emit, subtract: false, fresh: false };
        assert(self@ =~= with_result(old(self)@, signal));
    }

    fn inform(&mut self, outcome: Outcome)
        requires
            old(self).stats.decoded < usize::MAX,
        ensures
            final(self)@ == informed(old(self)@, outcome),
    {
        match self.task {
            Task::Acquire | Task::List => {
                self.count = match outcome {
                    Outcome::Count(n) => n,
                    _ => 0,
                };
            },
            Task::Examine(_) => {
                match outcome {
                    Outcome::Signal(signal) => {
                        self.take_signal(signal);
                    },
                    _ => {
                        self.verdict = Verdict { emit: false, subtract: false, fresh: false };
                    },
                }
            },
            Task::Offer(_) => {
                match outcome {
                    Outcome::Signal(signal) => {
                        self.take_result(signal);
                    },
                    _ => {
                        self.verdict = Verdict { emit: false, subtract: false, fresh: false };
                    },
                }
            },
            _ => {},
        }
        assert(self@ =~= informed(old(self)@, outcome));
    }

    fn advance(&mut self)
        requires
            old(self).stage < 3,
            old(self).pass < 3,
            old(self).index < usize::MAX,
            old(self).stats.passes < usize::MAX,
            old(self).stats.candidates < usize::MAX,
        ensures
            final(self)@ == advanced(old(self)@),
    {
        match self.task {
            Task::Begin => {
                self.go_to_stage(0);
            },
            Task::Load(_) => {
                self.go_to_pass(0);
            },
            Task::Acquire => {
                self.task = Task::Prepare;
            },
            Task::Prepare => {
                self.go_to_candidate(0);
            },
            Task::Examine(_) => {
                if self.verdict.emit {
                    self.task = Task::Report;
                } else {
                    self.go_to_subtraction();
                }
            },
            Task::Report => {
                self.go_to_subtraction();
            },
            Task::Subtract { refined: _, save: _ } => {
                let next: usize = self.index + 1;
                self.go_to_candidate(next);
            },
            Task::List => {
                self.go_to_result(0);
            },
            Task::Offer(_) => {
                if self.verdict.emit {
                    self.task = Task::ReportListed;
                } else {
                    let next: usize = self.index + 1;
                    self.go_to_result(next);
                }
            },
            Task::ReportListed => {
                let next: usize = self.index + 1;
                self.go_to_result(next);
            },
            Task::Finish => {},
        }
        assert(self@ =~= advanced(old(self)@));
    }

    /// Takes in the outcome of the task at hand and tells the next one. `cancel`
    /// asks the search to stop.
    pub fn step(&mut self, cancel: bool, outcome: Outcome) -> (r: Task)
        requires
            is_search(old(self)@),
            reports_differ(old(self)@),
            old(self).stats.candidates < usize::MAX,
            old(self).stats.decoded < usize::MAX,
        ensures
            final(self)@ == stepped(old(self)@, cancel, outcome),
            r == final(self).task,
            is_search(final(self)@),
            reports_differ(final(self)@),
    {
        proof {
            searches_stay_bounded(self@, cancel, outcome);
            reports_stay_different(self@, cancel, outcome);
        }
        self.inform(outcome);
        let found: bool = match self.task {
            Task::Examine(_) | Task::Offer(_) => self.verdict.emit,
            _ => false,
        };
        if cancel && !found {
            self.stats.cancelled = true;
            self.task = Task::Finish;
            assert(self@ =~= stepped(old(self)@, cancel, outcome));
        } else {
            self.advance();
        }
        self.task
    }
}

// ---------------------------------------------------------------------------
// Laws
// ---------------------------------------------------------------------------

/// A step keeps a search within its bounds: at most three passes in each of three
/// stages.
pub proof fn searches_stay_bounded(m: Ft8Model, cancel: bool, outcome: Outcome)
    requires
        is_search(m),
    ensures
        is_search(stepped(m, cancel, outcome)),
        stepped(m, cancel, outcome).passes <= 9,
{
}

/// A step never reports a signal twice.
pub proof fn reports_stay_different(m: Ft8Model, cancel: bool, outcome: Outcome)
    requires
        reports_differ(m),
    ensures
        reports_differ(stepped(m, cancel, outcome)),
{
    let now = informed(m, outcome);
    assert(stepped(m, cancel, outcome).emitted == now.emitted);
    assert forall|i: int, j: int| 0 <= i < j < now.emitted.len() implies !crate::search::are_one(
        #[trigger] now.emitted[i],
        #[trigger] now.emitted[j],
        HZ_6_25,
        SECONDS_0_08,
    ) by {
        assert(now.emitted[i] == m.emitted[i]);
        if j < m.emitted.len() {
            assert(now.emitted[j] == m.emitted[j]);
        }
    }
}

/// A cancelled search has one more task at most: to report what it has just found.
pub proof fn cancelled_searches_finish(m: Ft8Model, first: Outcome, second: Outcome)
    ensures
        stepped(stepped(m, true, first), true, second).task == Task::Finish,
        stepped(stepped(m, true, first), true, second).cancelled,
{
}

/// A report follows a new signal, and leaves it as the last of those reported.
pub proof fn reports_are_of_new_signals(m: Ft8Model, cancel: bool, signal: Identity)
    requires
        m.task is Examine || m.task is Offer,
        stepped(m, cancel, Outcome::Signal(signal)).task is Report || stepped(
            m,
            cancel,
            Outcome::Signal(signal),
        ).task is ReportListed,
    ensures
        !was_met(m.emitted, signal, HZ_6_25, SECONDS_0_08),
        stepped(m, cancel, Outcome::Signal(signal)).emitted == m.emitted.push(signal),
{
}

/// What is left to do, from the coarsest to the finest: stages, passes of the stage,
/// parts of the pass, candidates or results, and parts of each.
pub open spec fn work_left(m: Ft8Model) -> Seq<int> {
    let stages = match m.task {
        Task::Begin => 4,
        Task::Finish => 0,
        _ => 3 - m.stage,
    };
    let passes = match m.task {
        Task::Begin => 0,
        Task::Finish => 0,
        Task::Load(_) => 4,
        Task::List => 0,
        Task::Offer(_) => 0,
        Task::ReportListed => 0,
        _ => 3 - m.pass,
    };
    let parts = match m.task {
        Task::Acquire => 2,
        Task::Prepare => 1,
        Task::List => 1,
        _ => 0int,
    };
    let items = match m.task {
        Task::Examine(_) => m.count - m.index,
        Task::Report => m.count - m.index,
        Task::Subtract { .. } => m.count - m.index,
        Task::Offer(_) => m.count - m.index,
        Task::ReportListed => m.count - m.index,
        _ => 0,
    };
    let steps = match m.task {
        Task::Examine(_) => 2,
        Task::Report => 1,
        Task::Offer(_) => 1,
        _ => 0int,
    };
    seq![stages, passes, parts, items, steps]
}

/// The first of two sequences of five numbers is less at the first place where they
/// differ.
pub open spec fn comes_down(a: Seq<int>, b: Seq<int>) -> bool {
    ||| a[0] < b[0]
    ||| a[0] == b[0] && a[1] < b[1]
    ||| a[0] == b[0] && a[1] == b[1] && a[2] < b[2]
    ||| a[0] == b[0] && a[1] == b[1] && a[2] == b[2] && a[3] < b[3]
    ||| a[0] == b[0] && a[1] == b[1] && a[2] == b[2] && a[3] == b[3] && a[4] < b[4]
}

/// Every search ends: each step leaves less to do, and nothing left is negative.
pub proof fn searches_end(m: Ft8Model, cancel: bool, outcome: Outcome)
    requires
        is_search(m),
        m.task != Task::Finish,
    ensures
        comes_down(work_left(stepped(m, cancel, outcome)), work_left(m)),
        forall|i: int| 0 <= i < 5 ==> #[trigger] work_left(m)[i] >= 0,
{
}

} // verus!
