//! The decoding of one FT8 candidate, as a machine that tells what to do next. Signal
//! processing is done outside; its outcome decides on the next task.
use vstd::prelude::*;
use crate::search::{ft8_attempts, ft8_plan, is_spurious, sync_suffices, Attempt};
use crate::single::{at_most, is_at_most};

verus! {

/// What is to be done next.
#[derive(Clone, Copy, Debug, PartialEq, Eq)]
pub enum Task {
    /// Nothing yet.
    Begin,
    /// Refine the start and the frequency.
    Refine,
    /// Find the symbols, and the hypotheses at the refined frequency.
    Align,
    /// Decode the symbols in this way.
    Attempt(Attempt),
    /// Measure the strength of the message at hand.
    Weigh,
    /// The message at hand is the candidate's signal.
    Accept,
    /// The candidate is no signal.
    GiveUp,
}

/// What a task has led to.
#[derive(Clone, Copy, Debug, PartialEq, Eq)]
pub enum Outcome {
    /// Nothing to tell, or no success.
    Nothing,
    /// The refined frequency, as a bit pattern.
    Frequency(u32),
    /// How many sync symbols match, and how many hypotheses there are.
    Symbols { matches: usize, hypotheses: usize },
    /// The decoded word is a message.
    Message,
    /// Whether the message is below -25 dB.
    Strength { faint: bool },
}

/// The state of a candidate.
pub struct Ft8Candidate {
    pub depth: u8,
    /// The searched band, as bit patterns.
    pub low_hz: u32,
    pub high_hz: u32,
    /// Squared magnitudes come first.
    pub squared: bool,
    /// Only the early part of the window is here.
    pub early: bool,
    pub task: Task,
    /// The refined frequency, as a bit pattern.
    pub frequency: u32,
    /// Sync symbols that match.
    pub matches: usize,
    pub attempts: Vec<Attempt>,
    /// Number of the attempt at hand.
    pub attempt: usize,
}

#[verifier::ext_equal]
pub struct CandidateModel {
    pub depth: u8,
    pub low_hz: u32,
    pub high_hz: u32,
    pub squared: bool,
    pub early: bool,
    pub task: Task,
    pub frequency: u32,
    pub matches: int,
    pub attempts: Seq<Attempt>,
    pub attempt: int,
}

impl View for Ft8Candidate {
    type V = CandidateModel;

    open spec fn view(&self) -> CandidateModel {
        CandidateModel {
            depth: self.depth,
            low_hz: self.low_hz,
            high_hz: self.high_hz,
            squared: self.squared,
            early: self.early,
            task: self.task,
            frequency: self.frequency,
            matches: self.matches as int,
            attempts: self.attempts@,
            attempt: self.attempt as int,
        }
    }
}

// ---------------------------------------------------------------------------
// The schedule
// ---------------------------------------------------------------------------

/// The refined frequency lies within the searched band.
pub open spec fn is_in_band(m: CandidateModel, frequency: u32) -> bool {
    at_most(m.low_hz, frequency) && at_most(frequency, m.high_hz)
}

/// Enough sync symbols match.
pub open spec fn is_synced(m: CandidateModel, matches: int) -> bool {
    matches > (if m.depth <= 2 {
        8int
    } else if m.squared {
        7
    } else {
        6
    })
}

/// Goes to an attempt, where there is one and the search is not cancelled.
pub open spec fn to_attempt(m: CandidateModel, cancel: bool, attempt: int) -> CandidateModel {
    if attempt >= m.attempts.len() || cancel {
        CandidateModel { task: Task::GiveUp, ..m }
    } else {
        CandidateModel { attempt, task: Task::Attempt(m.attempts[attempt]), ..m }
    }
}

/// One step: the outcome is taken in and the next task chosen. Whether the search is
/// cancelled counts before each attempt. A message that is too faint for its few sync
/// matches is passed over.
pub open spec fn stepped(m: CandidateModel, cancel: bool, outcome: Outcome) -> CandidateModel {
    match (m.task, outcome) {
        (Task::Begin, _) => CandidateModel { task: Task::Refine, ..m },
        (Task::Refine, Outcome::Frequency(frequency)) => CandidateModel {
            frequency,
            task: if is_in_band(m, frequency) {
                Task::Align
            } else {
                Task::GiveUp
            },
            ..m
        },
        (Task::Align, Outcome::Symbols { matches, hypotheses }) => {
            let known = CandidateModel { matches: matches as int, ..m };
            if is_synced(m, matches as int) {
                to_attempt(
                    CandidateModel {
                        attempts: ft8_plan(m.squared, m.depth, m.early, hypotheses as nat),
                        ..known
                    },
                    cancel,
                    0,
                )
            } else {
                CandidateModel { task: Task::GiveUp, ..known }
            }
        },
        (Task::Attempt(_), Outcome::Message) => CandidateModel { task: Task::Weigh, ..m },
        (Task::Attempt(_), _) => to_attempt(m, cancel, m.attempt + 1),
        (Task::Weigh, Outcome::Strength { faint }) => if m.matches <= 10 && faint {
            to_attempt(m, cancel, m.attempt + 1)
        } else {
            CandidateModel { task: Task::Accept, ..m }
        },
        (Task::Accept, _) => m,
        _ => CandidateModel { task: Task::GiveUp, ..m },
    }
}

/// A candidate on which nothing was done.
pub open spec fn untried(
    depth: u8,
    low_hz: u32,
    high_hz: u32,
    squared: bool,
    early: bool,
) -> CandidateModel {
    CandidateModel {
        depth,
        low_hz,
        high_hz,
        squared,
        early,
        task: Task::Begin,
        frequency: 0,
        matches: 0,
        attempts: Seq::empty(),
        attempt: 0,
    }
}

/// What holds of every candidate: it is decoded only within the band and with enough sync
/// symbols, by one of the attempts of its plan.
pub open spec fn is_candidate(m: CandidateModel) -> bool {
    let decodes = m.task is Attempt || m.task is Weigh || m.task is Accept;
    &&& 0 <= m.attempt
    &&& 0 <= m.matches <= usize::MAX
    &&& m.task is Align || decodes ==> is_in_band(m, m.frequency)
    &&& decodes ==> {
        &&& is_synced(m, m.matches)
        &&& m.attempt < m.attempts.len()
        &&& exists|hypotheses: nat|
            m.attempts == #[trigger] ft8_plan(m.squared, m.depth, m.early, hypotheses)
    }
    &&& m.task matches Task::Attempt(attempt) ==> attempt == m.attempts[m.attempt]
}

// ---------------------------------------------------------------------------
// The machine
// ---------------------------------------------------------------------------

impl Ft8Candidate {
    pub fn new(depth: u8, low_hz: u32, high_hz: u32, squared: bool, early: bool) -> (r: Self)
        ensures
            r@ == untried(depth, low_hz, high_hz, squared, early),
            is_candidate(r@),
    {
        let r = Ft8Candidate {
            depth,
            low_hz,
            high_hz,
            squared,
            early,
            task: Task::Begin,
            frequency: 0,
            matches: 0,
            attempts: Vec::new(),
            attempt: 0,
        };
        assert(r@ =~= untried(depth, low_hz, high_hz, squared, early));
        r
    }

    fn go_to_attempt(&mut self, cancel: bool, attempt: usize)
        ensures
            final(self)@ == to_attempt(old(self)@, cancel, attempt as int),
    {
        if attempt >= self.attempts.len() || cancel {
            self.task = Task::GiveUp;
        } else {
            self.attempt = attempt;
            self.task = Task::Attempt(self.attempts[attempt]);
        }
        assert(self@ =~= to_attempt(old(self)@, cancel, attempt as int));
    }

    /// Takes in the outcome of the task at hand and tells the next one. `cancel` asks the
    /// search to stop.
    pub fn step(&mut self, cancel: bool, outcome: Outcome) -> (r: Task)
        requires
            is_candidate(old(self)@),
        ensures
            final(self)@ == stepped(old(self)@, cancel, outcome),
            r == final(self).task,
            is_candidate(final(self)@),
    {
        proof {
            candidates_stay_candidates(self@, cancel, outcome);
        }
        match self.task {
            Task::Begin => {
                self.task = Task::Refine;
            },
            Task::Refine => {
                self.task = match outcome {
                    Outcome::Frequency(frequency) => {
                        self.frequency = frequency;
                        if is_at_most(self.low_hz, frequency) && is_at_most(
                            frequency,
                            self.high_hz,
                        ) {
                            Task::Align
                        } else {
                            Task::GiveUp
                        }
                    },
                    _ => Task::GiveUp,
                };
            },
            Task::Align => {
                match outcome {
                    Outcome::Symbols { matches, hypotheses } => {
                        self.matches = matches;
                        if sync_suffices(matches, self.depth, self.squared) {
                            self.attempts = ft8_attempts(
                                self.squared,
                                self.depth,
                                self.early,
                                hypotheses,
                            );
                            self.go_to_attempt(cancel, 0);
                        } else {
                            self.task = Task::GiveUp;
                        }
                    },
                    _ => {
                        self.task = Task::GiveUp;
                    },
                }
            },
            Task::Attempt(_) => {
                match outcome {
                    Outcome::Message => {
                        self.task = Task::Weigh;
                    },
                    _ => {
                        let count: usize = self.attempts.len();
                        assert(self.attempt < count);
                        let next: usize = self.attempt + 1;
                        self.go_to_attempt(cancel, next);
                    },
                }
            },
            Task::Weigh => {
                match outcome {
                    Outcome::Strength { faint } => {
                        if is_spurious(self.matches, faint) {
                            let count: usize = self.attempts.len();
                            assert(self.attempt < count);
                            let next: usize = self.attempt + 1;
                            self.go_to_attempt(cancel, next);
                        } else {
                            self.task = Task::Accept;
                        }
                    },
                    _ => {
                        self.task = Task::GiveUp;
                    },
                }
            },
            Task::Accept => {},
            Task::GiveUp => {},
        }
        assert(self@ =~= stepped(old(self)@, cancel, outcome));
        self.task
    }
}

// ---------------------------------------------------------------------------
// Laws
// ---------------------------------------------------------------------------

/// A step keeps what holds of every candidate.
pub proof fn candidates_stay_candidates(m: CandidateModel, cancel: bool, outcome: Outcome)
    requires
        is_candidate(m),
    ensures
        is_candidate(stepped(m, cancel, outcome)),
{
    let after = stepped(m, cancel, outcome);
    if m.task is Attempt || m.task is Weigh || m.task is Accept {
        let hypotheses = choose|hypotheses: nat|
            m.attempts == #[trigger] ft8_plan(m.squared, m.depth, m.early, hypotheses);
        assert(after.attempts == ft8_plan(after.squared, after.depth, after.early, hypotheses));
    }
    if let Outcome::Symbols { matches, hypotheses } = outcome {
        if m.task is Align && is_synced(m, matches as int) {
            assert(after.attempts == ft8_plan(
                after.squared,
                after.depth,
                after.early,
                hypotheses as nat,
            ));
        }
    }
}

/// Attempts are made in the order of the plan, none is left out and none is made twice.
pub proof fn attempts_follow_the_plan(m: CandidateModel, cancel: bool, outcome: Outcome)
    requires
        is_candidate(m),
        m.task is Attempt || m.task is Weigh,
    ensures
        ({
            let after = stepped(m, cancel, outcome);
            &&& after.attempts == m.attempts
            &&& after.task matches Task::Attempt(attempt) ==> after.attempt == m.attempt + 1
                && attempt == m.attempts[m.attempt + 1] && !cancel
            &&& after.task is Weigh || after.task is Accept ==> after.attempt == m.attempt
        }),
{
}

/// A signal is accepted only for a message that is at least -25 dB strong or has more than
/// ten sync matches.
pub proof fn accepted_signals_are_not_spurious(m: CandidateModel, cancel: bool, outcome: Outcome)
    requires
        is_candidate(m),
        m.task != Task::Accept,
    ensures
        stepped(m, cancel, outcome).task == Task::Accept <==> m.task is Weigh && (outcome matches
            Outcome::Strength { faint } && (m.matches > 10 || !faint)),
{
}

/// What is left to do, from the coarsest to the finest: parts of the candidate, attempts
/// and parts of each.
pub open spec fn work_left(m: CandidateModel) -> Seq<int> {
    let parts = match m.task {
        Task::Begin => 4,
        Task::Refine => 3,
        Task::Align => 2,
        Task::Attempt(_) => 1,
        Task::Weigh => 1,
        _ => 0int,
    };
    let attempts = match m.task {
        Task::Attempt(_) => m.attempts.len() - m.attempt,
        Task::Weigh => m.attempts.len() - m.attempt,
        _ => 0,
    };
    let rest = if m.task is Attempt {
        1int
    } else {
        0
    };
    seq![parts, attempts, rest]
}

/// Every candidate comes to an end: each step leaves less to do, and nothing left is
/// negative.
pub proof fn candidates_end(m: CandidateModel, cancel: bool, outcome: Outcome)
    requires
        is_candidate(m),
        m.task != Task::Accept,
        m.task != Task::GiveUp,
    ensures
        ({
            let before = work_left(m);
            let after = work_left(stepped(m, cancel, outcome));
            ||| after[0] < before[0]
            ||| after[0] == before[0] && after[1] < before[1]
            ||| after[0] == before[0] && after[1] == before[1] && after[2] < before[2]
        }),
        forall|i: int| 0 <= i < 3 ==> #[trigger] work_left(m)[i] >= 0,
{
}

} // verus!
