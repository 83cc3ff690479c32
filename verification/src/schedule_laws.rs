//! That searches leave nothing out.
use vstd::prelude::*;
use crate::ft4_search as ft4;
use crate::ft4_search::Ft4Model;
use crate::ft8_search as ft8;
use crate::ft8_search::Ft8Model;
use crate::search::{are_one, was_met, AcquisitionStage, Identity};

verus! {

// ---------------------------------------------------------------------------
// FT8
// ---------------------------------------------------------------------------

/// A signal with this payload is among them.
pub open spec fn has_payload(signals: Seq<Identity>, bits: Seq<bool>) -> bool {
    exists|i: int| 0 <= i < signals.len() && (#[trigger] signals[i]).bits@ == bits
}

/// The payload of every signal that was subtracted was reported.
pub open spec fn subtracted_were_reported(m: Ft8Model) -> bool {
    forall|i: int| 0 <= i < m.seen.len() ==> has_payload(m.emitted, (#[trigger] m.seen[i]).bits@)
}

proof fn lemma_payload_grows(signals: Seq<Identity>, signal: Identity, bits: Seq<bool>)
    ensures
        has_payload(signals, bits) ==> has_payload(signals.push(signal), bits),
        has_payload(signals.push(signal), signal.bits@),
{
    let all = signals.push(signal);
    if has_payload(signals, bits) {
        let i = choose|i: int| 0 <= i < signals.len() && (#[trigger] signals[i]).bits@ == bits;
        assert(all[i] == signals[i]);
    }
    assert(all[signals.len() as int] == signal);
}

/// A step keeps that.
pub proof fn subtracted_signals_stay_reported(m: Ft8Model, cancel: bool, outcome: ft8::Outcome)
    requires
        subtracted_were_reported(m),
    ensures
        subtracted_were_reported(ft8::stepped(m, cancel, outcome)),
{
    let now = ft8::informed(m, outcome);
    let after = ft8::stepped(m, cancel, outcome);
    assert(after.emitted == now.emitted);
    if let ft8::Outcome::Signal(signal) = outcome {
        assert forall|i: int| 0 <= i < now.seen.len() implies has_payload(
            now.emitted,
            (#[trigger] now.seen[i]).bits@,
        ) by {
            lemma_payload_grows(m.emitted, signal, now.seen[i].bits@);
            if i < m.seen.len() {
                assert(now.seen[i] == m.seen[i]);
            } else {
                assert(now.seen[i] == signal);
                if now.emitted == m.emitted {
                    let k = choose|k: int|
                        0 <= k < m.emitted.len() && are_one(
                            #[trigger] m.emitted[k],
                            signal,
                            crate::quantities::HZ_6_25,
                            crate::quantities::SECONDS_0_08,
                        );
                    assert(m.emitted[k].bits@ == signal.bits@);
                }
            }
        }
    }
    assert forall|i: int| 0 <= i < after.seen.len() implies has_payload(
        after.emitted,
        (#[trigger] after.seen[i]).bits@,
    ) by {
        assert(after.seen[i] == now.seen[i]);
    }
}

/// A signal whose payload was not reported yet is reported next, even where the search is
/// cancelled, whether a candidate or a result of the list has turned out to be it.
pub proof fn new_payloads_are_reported(m: Ft8Model, cancel: bool, signal: Identity)
    requires
        subtracted_were_reported(m),
        !has_payload(m.emitted, signal.bits@),
        m.task is Examine || m.task is Offer,
    ensures
        ({
            let after = ft8::stepped(m, cancel, ft8::Outcome::Signal(signal));
            &&& after.task == (if m.task is Examine {
                ft8::Task::Report
            } else {
                ft8::Task::ReportListed
            })
            &&& after.emitted == m.emitted.push(signal)
            &&& after.decoded == m.decoded + 1
        }),
{
    if was_met(m.emitted, signal, crate::quantities::HZ_6_25, crate::quantities::SECONDS_0_08) {
        let k = choose|k: int|
            0 <= k < m.emitted.len() && are_one(
                #[trigger] m.emitted[k],
                signal,
                crate::quantities::HZ_6_25,
                crate::quantities::SECONDS_0_08,
            );
        assert(m.emitted[k].bits@ == signal.bits@);
    }
    if was_met(m.seen, signal, crate::quantities::HZ_4, crate::quantities::SECONDS_0_08) {
        let k = choose|k: int|
            0 <= k < m.seen.len() && are_one(
                #[trigger] m.seen[k],
                signal,
                crate::quantities::HZ_4,
                crate::quantities::SECONDS_0_08,
            );
        assert(has_payload(m.emitted, m.seen[k].bits@));
    }
}

/// A reported signal of a candidate is subtracted: with refined timing in the full stage of
/// the deepest search, and saved for later stages where it was found early and is new there.
/// A second observation of a subtracted one is subtracted again, but not in the full stage.
pub proof fn found_signals_are_subtracted(m: Ft8Model, signal: Identity)
    requires
        ft8::is_search(m),
        m.task is Examine,
    ensures
        ({
            let found = ft8::stepped(m, false, ft8::Outcome::Signal(signal));
            let after = if found.task is Report {
                ft8::stepped(found, false, ft8::Outcome::Nothing)
            } else {
                found
            };
            let known = was_met(
                m.seen,
                signal,
                crate::quantities::HZ_4,
                crate::quantities::SECONDS_0_08,
            );
            let full = m.depth == 1 || m.stage == 2;
            let early = m.depth != 1 && m.stage == 0;
            &&& !(known && full) ==> after.task == (ft8::Task::Subtract {
                refined: full && m.depth == 3,
                save: early && !known,
            })
            &&& known && full ==> !(after.task is Subtract) && !(found.task is Report)
            &&& !known ==> found.seen == m.seen.push(signal)
        }),
{
}

/// The stage in the order in which they come: one at depth one, three beyond.
pub open spec fn stages(depth: u8) -> Seq<AcquisitionStage> {
    if depth == 1 {
        seq![AcquisitionStage::Full]
    } else {
        seq![AcquisitionStage::Early, AcquisitionStage::Final, AcquisitionStage::Full]
    }
}

pub open spec fn goes_to_stage(m: Ft8Model, after: Ft8Model, k: int) -> bool {
    if k < stages(m.depth).len() {
        after.task == ft8::Task::Load(stages(m.depth)[k]) && after.stage == k
    } else {
        after.task == ft8::Task::Finish
    }
}

/// Behind the passes of a stage comes the list where that is wanted, but not early, and then
/// the next stage.
pub open spec fn goes_behind_stage(m: Ft8Model, after: Ft8Model) -> bool {
    if m.lists && stages(m.depth)[m.stage] != AcquisitionStage::Early {
        after.task == ft8::Task::List && after.stage == m.stage
    } else {
        goes_to_stage(m, after, m.stage + 1)
    }
}

/// Every stage has two passes, and beyond depth one a third where anything was subtracted.
pub open spec fn goes_to_pass(m: Ft8Model, after: Ft8Model, p: int, subtracted: bool) -> bool {
    if p < 2 || (p == 2 && m.depth != 1 && subtracted) {
        after.task == ft8::Task::Acquire && after.pass == p && after.stage == m.stage
    } else {
        goes_behind_stage(m, after)
    }
}

/// Candidates are examined one after the other; a pass ends behind its last one.
pub open spec fn goes_to_candidate(m: Ft8Model, after: Ft8Model, i: int, subtracted: bool) -> bool {
    if i < after.count {
        after.task == ft8::Task::Examine(i as usize) && after.pass == m.pass && after.stage
            == m.stage
    } else {
        goes_to_pass(m, after, m.pass + 1, subtracted)
    }
}

/// Results of the list are taken up one after the other; then comes the next stage.
pub open spec fn goes_to_result(m: Ft8Model, after: Ft8Model, i: int) -> bool {
    if i < after.count {
        after.task == ft8::Task::Offer(i as usize) && after.stage == m.stage
    } else {
        goes_to_stage(m, after, m.stage + 1)
    }
}

/// Which task follows where the search goes on.
pub open spec fn is_next_ft8(m: Ft8Model, after: Ft8Model, subtracted: bool) -> bool {
    match m.task {
        ft8::Task::Begin => goes_to_stage(m, after, 0),
        ft8::Task::Load(_) => goes_to_pass(m, after, 0, subtracted),
        ft8::Task::Acquire => after.task == ft8::Task::Prepare && after.pass == m.pass,
        ft8::Task::Prepare => goes_to_candidate(m, after, 0, subtracted),
        ft8::Task::Examine(i) => after.task is Report || after.task is Subtract
            || goes_to_candidate(m, after, i + 1, subtracted),
        ft8::Task::Report => after.task is Subtract || goes_to_candidate(
            m,
            after,
            m.index + 1,
            subtracted,
        ),
        ft8::Task::Subtract { .. } => goes_to_candidate(m, after, m.index + 1, subtracted),
        ft8::Task::List => goes_to_result(m, after, 0),
        ft8::Task::Offer(i) => after.task is ReportListed || goes_to_result(m, after, i + 1),
        ft8::Task::ReportListed => goes_to_result(m, after, m.index + 1),
        ft8::Task::Finish => after.task == ft8::Task::Finish,
    }
}

proof fn lemma_to_stage(m: Ft8Model, now: Ft8Model, k: int)
    requires
        now.depth == m.depth,
        0 <= k,
    ensures
        goes_to_stage(m, ft8::to_stage(now, k), k),
        ft8::to_stage(now, k).count == now.count,
        k < stages(m.depth).len() ==> ft8::to_stage(now, k).stage == k,
        k >= stages(m.depth).len() ==> ft8::to_stage(now, k).stage == now.stage,
{
}

proof fn lemma_to_pass(m: Ft8Model, now: Ft8Model, p: int)
    requires
        now.depth == m.depth,
        now.stage == m.stage,
        now.lists == m.lists,
        0 <= m.stage < stages(m.depth).len(),
        0 <= p <= 3,
    ensures
        goes_to_pass(m, ft8::to_pass(now, p), p, now.seen.len() > 0),
        ft8::to_pass(now, p).count == now.count,
        ft8::to_pass(now, p).stage < stages(m.depth).len(),
{
    lemma_to_stage(m, now, m.stage + 1);
    assert(stages(m.depth)[m.stage] == ft8::stage_at(m.depth, m.stage));
}

proof fn lemma_to_candidate(m: Ft8Model, now: Ft8Model, i: int)
    requires
        now.depth == m.depth,
        now.stage == m.stage,
        now.lists == m.lists,
        now.pass == m.pass,
        0 <= m.stage < stages(m.depth).len(),
        0 <= m.pass < 3,
    ensures
        goes_to_candidate(m, ft8::to_candidate(now, i), i, now.seen.len() > 0),
        ft8::to_candidate(now, i).count == now.count,
        ft8::to_candidate(now, i).stage < stages(m.depth).len(),
{
    lemma_to_pass(m, now, m.pass + 1);
}

/// Every candidate of every pass of every stage is examined, and every result of the list is
/// taken up, in order.
pub proof fn ft8_searches_leave_nothing_out(m: Ft8Model, outcome: ft8::Outcome)
    requires
        ft8::is_search(m),
        m.stage < stages(m.depth).len(),
    ensures
        ({
            let after = ft8::stepped(m, false, outcome);
            let subtracted = m.seen.len() > 0 || (m.task is Examine && outcome is Signal);
            &&& is_next_ft8(m, after, subtracted)
            &&& after.stage < stages(m.depth).len()
            &&& after.count == (if m.task is Acquire || m.task is List {
                match outcome {
                    ft8::Outcome::Count(n) => n as int,
                    _ => 0,
                }
            } else {
                m.count
            })
            &&& m.task is Examine && !(outcome is Signal) ==> !(after.task is Report) && !(
            after.task is Subtract)
            &&& m.task is Offer && !(outcome is Signal) ==> !(after.task is ReportListed)
        }),
{
    let now = ft8::informed(m, outcome);
    match m.task {
        ft8::Task::Begin => {
            lemma_to_stage(m, now, 0);
        },
        ft8::Task::Load(_) => {
            lemma_to_pass(m, now, 0);
        },
        ft8::Task::Acquire => {},
        ft8::Task::Prepare => {
            lemma_to_candidate(m, now, 0);
        },
        ft8::Task::Examine(i) => {
            lemma_to_candidate(m, now, m.index + 1);
        },
        ft8::Task::Report => {
            lemma_to_candidate(m, now, m.index + 1);
        },
        ft8::Task::Subtract { .. } => {
            lemma_to_candidate(m, now, m.index + 1);
        },
        ft8::Task::List => {
            lemma_to_stage(m, now, m.stage + 1);
        },
        ft8::Task::Offer(i) => {
            lemma_to_stage(m, now, m.stage + 1);
        },
        ft8::Task::ReportListed => {
            lemma_to_stage(m, now, m.stage + 1);
        },
        ft8::Task::Finish => {},
    }
}

// ---------------------------------------------------------------------------
// FT4
// ---------------------------------------------------------------------------

/// A signal whose payload was not accepted yet is counted, accepted and reported: next at
/// depth one, and behind its subtraction beyond, even where the search is cancelled.
pub proof fn new_ft4_payloads_are_reported(
    m: Ft4Model,
    cancel: bool,
    bits: [bool; 77],
    time: u32,
    outcome: ft4::Outcome,
)
    requires
        !has_payload(m.accepted, bits@),
        m.task is Attempt,
    ensures
        ({
            let found = ft4::stepped(m, cancel, ft4::Outcome::Signal { bits, time });
            let signal = Identity { bits, frequency: m.frequency, time };
            &&& found.accepted == m.accepted.push(signal)
            &&& found.decoded == m.decoded + 1
            &&& m.depth <= 1 ==> found.task == ft4::Task::Report
            &&& m.depth > 1 ==> found.task == ft4::Task::Subtract && ft4::stepped(
                found,
                cancel,
                outcome,
            ).task == ft4::Task::Report
        }),
{
    let signal = Identity { bits, frequency: m.frequency, time };
    if was_met(m.accepted, signal, crate::quantities::HZ_6, crate::quantities::SECONDS_0_12) {
        let k = choose|k: int|
            0 <= k < m.accepted.len() && are_one(
                #[trigger] m.accepted[k],
                signal,
                crate::quantities::HZ_6,
                crate::quantities::SECONDS_0_12,
            );
        assert(m.accepted[k].bits@ == signal.bits@);
    }
}

/// Which task follows where the search goes on: candidates, the three segments of each, and
/// the attempts on a segment, one after the other; a pass follows where the last one has
/// found anything new, up to three beyond depth one.
pub open spec fn is_next_ft4(m: Ft4Model, after: Ft4Model) -> bool {
    let behind_pass = if after.new_signals > 0 && m.pass + 1 < (if m.depth == 1 {
        1int
    } else {
        3
    }) {
        after.task == ft4::Task::Acquire && after.pass == m.pass + 1
    } else {
        after.task == ft4::Task::Finish || (after.task == ft4::Task::Acquire && after.pass == m.pass
            + 1 && after.new_signals == 0)
    };
    let to_candidate = |i: int|
        if i < after.count {
            after.task == ft4::Task::Extract(i as usize) && after.pass == m.pass
        } else {
            behind_pass
        };
    let to_segment = |k: int|
        if k < 3 {
            after.task == ft4::Task::Synchronize(k as usize) && after.index == m.index
        } else {
            to_candidate(m.index + 1)
        };
    let to_attempt = |k: int|
        if k < after.attempts {
            after.task == ft4::Task::Attempt(k as usize) && after.segment == m.segment
                && after.index == m.index
        } else {
            to_segment(m.segment + 1)
        };
    match m.task {
        ft4::Task::Begin => after.task == ft4::Task::Acquire && after.pass == 0,
        ft4::Task::Acquire => after.task == ft4::Task::Prepare,
        ft4::Task::Prepare => to_candidate(0),
        ft4::Task::Extract(_) => to_segment(0),
        ft4::Task::Synchronize(k) => after.task == ft4::Task::Align || to_segment(k + 1),
        ft4::Task::Align => to_attempt(0),
        ft4::Task::Attempt(k) => after.task is Subtract || after.task is Report || to_attempt(k + 1)
            || to_candidate(m.index + 1),
        ft4::Task::Subtract => after.task is Report || to_candidate(m.index + 1),
        ft4::Task::Report => to_candidate(m.index + 1),
        ft4::Task::Finish => after.task == ft4::Task::Finish,
    }
}

/// Every candidate is tried in all its segments, and every segment that is worth it by every
/// metric and hypothesis, until a signal is found.
pub proof fn ft4_searches_leave_nothing_out(m: Ft4Model, outcome: ft4::Outcome)
    requires
        ft4::is_search(m),
    ensures
        is_next_ft4(m, ft4::stepped(m, false, outcome)),
        m.task is Acquire ==> ft4::stepped(m, false, outcome).count == (match outcome {
            ft4::Outcome::Count(n) => n as int,
            _ => 0,
        }),
        m.task is Align && outcome is Count ==> ft4::stepped(m, false, outcome).attempts >= 3,
        m.task is Align ==> (outcome matches ft4::Outcome::Count(n) ==> n <= usize::MAX - 3
            ==> ft4::stepped(m, false, outcome).attempts == n + 3),
        m.task is Attempt && outcome is Nothing && m.attempt + 1 < m.attempts ==> ft4::stepped(
            m,
            false,
            outcome,
        ).task == ft4::Task::Attempt((m.attempt + 1) as usize),
        m.task is Attempt && outcome is Abandoned && m.segment < 2 ==> ft4::stepped(
            m,
            false,
            outcome,
        ).task == ft4::Task::Synchronize((m.segment + 1) as usize),
        m.task is Report && m.index + 1 >= m.count && m.new_signals > 0 && m.pass < 2 && m.depth
            != 1 ==> ft4::stepped(m, false, outcome).task == ft4::Task::Acquire,
        m.task is Prepare && m.count == 0 && m.new_signals == 0 ==> ft4::stepped(
            m,
            false,
            outcome,
        ).task == ft4::Task::Finish,
{
}

/// A segment is decoded exactly where its sync is at least 1.2 strong, no weaker than that of
/// the first segment, and within the band and 0 to 5000 Hz.
pub proof fn strong_segments_are_decoded(m: Ft4Model, power: u32, frequency: u32)
    requires
        m.task is Synchronize,
        ft4::is_search(m),
        crate::single::finite(power),
        crate::single::finite(frequency),
        crate::single::finite(m.first_power),
        crate::single::finite(m.low_hz),
        crate::single::finite(m.high_hz),
    ensures
        ({
            let key = |bits: u32| crate::single::order_key(bits);
            (ft4::stepped(m, false, ft4::Outcome::Sync { power, frequency }).task
                == ft4::Task::Align) <==> {
                &&& key(power) >= 0x3f99_999a
                &&& m.segment > 0 ==> key(power) >= key(m.first_power)
                &&& 0 <= key(frequency) <= 0x459c_4000
                &&& key(m.low_hz) <= key(frequency) <= key(m.high_hz)
            }
        }),
{
}

} // verus!
