//! Which candidates are decoded, in which ways, and what is accepted.
use vstd::arithmetic::power2::{lemma2_to64, lemma_pow2_adds, pow2};
use vstd::prelude::*;
use crate::ft8_candidate::{stepped, CandidateModel, Outcome, Task};
use crate::list_choice::{best_fit, fit_to, is_accepted, Fit, LARGEST_DISTANCE};
use crate::search::{assisted, ft8_plan, unassisted, Attempt};
use crate::single::{
    at_most, below_1_3_times, exponent, finite, signed_units, significand, units, FACTOR_1_3,
};
use crate::sums::{lemma_reach_between, lemma_units_increase};
use crate::text::starts_with;

verus! {

/// Finite values are compared by what they stand for.
pub proof fn comparisons_go_by_value(a: u32, b: u32)
    requires
        finite(a),
        finite(b),
    ensures
        at_most(a, b) <==> signed_units(a) <= signed_units(b),
{
    let x = a % 0x8000_0000;
    let y = b % 0x8000_0000;
    if x < y {
        lemma_units_increase(x, y);
    } else if y < x {
        lemma_units_increase(y, x);
    }
    assert(units(0) == 0) by {
        assert(significand(0) == 0);
        assert(0 * pow2(0) == 0) by (nonlinear_arith);
    }
    if 0 < x {
        lemma_units_increase(0, x);
    }
    if 0 < y {
        lemma_units_increase(0, y);
    }
}

// ---------------------------------------------------------------------------
// Plans
// ---------------------------------------------------------------------------

/// Each of the five metrics is tried alone, the plain ones too in the deepest search, and two
/// of them under every hypothesis but in the early stage.
pub proof fn every_way_is_tried(
    squared: bool,
    depth: u8,
    early: bool,
    hypotheses: nat,
    metric: usize,
    h: usize,
)
    requires
        hypotheses <= usize::MAX,
    ensures
        ({
            let plan = ft8_plan(squared, depth, early, hypotheses);
            &&& metric < 5 ==> plan.contains(Attempt { squared, metric, hypothesis: None })
            &&& metric < 5 && depth == 3 ==> plan.contains(
                Attempt { squared: false, metric, hypothesis: None },
            )
            &&& !early && h < hypotheses ==> plan.contains(
                Attempt { squared, metric: 0, hypothesis: Some(h) },
            ) && plan.contains(Attempt { squared, metric: 2, hypothesis: Some(h) })
            &&& plan.len() == 5 + (if squared && depth == 3 {
                5int
            } else {
                0
            }) + (if early {
                0
            } else {
                2 * hypotheses
            })
        }),
{
    let plan = ft8_plan(squared, depth, early, hypotheses);
    let more = if squared && depth == 3 {
        unassisted(false)
    } else {
        Seq::empty()
    };
    let n = 5 + more.len();
    if metric < 5 {
        assert(plan[metric as int] == unassisted(squared)[metric as int]);
        if squared && depth == 3 {
            assert(plan[5 + metric] == unassisted(false)[metric as int]);
        }
    }
    if !early && h < hypotheses {
        assert(plan[n + 2 * h] == assisted(squared, hypotheses)[2 * h as int]);
        assert(plan[n + 2 * h + 1] == assisted(squared, hypotheses)[2 * h + 1]);
    }
}

/// Nothing is assumed before everything was tried without, and hypotheses come in order.
pub proof fn hypotheses_come_last(
    squared: bool,
    depth: u8,
    early: bool,
    hypotheses: nat,
    i: int,
    j: int,
)
    requires
        0 <= i < j < ft8_plan(squared, depth, early, hypotheses).len(),
        ft8_plan(squared, depth, early, hypotheses)[i].hypothesis is Some,
        hypotheses <= usize::MAX,
    ensures
        ({
            let plan = ft8_plan(squared, depth, early, hypotheses);
            &&& plan[j].hypothesis is Some
            &&& plan[i].hypothesis->0 <= plan[j].hypothesis->0
            &&& !early
        }),
{
}

// ---------------------------------------------------------------------------
// Candidates
// ---------------------------------------------------------------------------

/// A candidate goes on exactly where its refined frequency lies within the band.
pub proof fn candidates_in_the_band_go_on(m: CandidateModel, cancel: bool, frequency: u32)
    requires
        m.task == Task::Refine,
        finite(m.low_hz),
        finite(m.high_hz),
        finite(frequency),
    ensures
        ({
            let next = stepped(m, cancel, Outcome::Frequency(frequency));
            &&& next.frequency == frequency
            &&& signed_units(m.low_hz) <= signed_units(frequency) <= signed_units(m.high_hz)
                ==> next.task == Task::Align
            &&& !(signed_units(m.low_hz) <= signed_units(frequency) <= signed_units(m.high_hz))
                ==> next.task == Task::GiveUp
        }),
{
    comparisons_go_by_value(m.low_hz, frequency);
    comparisons_go_by_value(frequency, m.high_hz);
}

/// Nine matching sync symbols are always enough to decode a candidate. The deepest search
/// takes eight, and seven where it does not start with squares; fewer are never enough.
pub proof fn synced_candidates_are_decoded(m: CandidateModel, matches: usize, hypotheses: usize)
    requires
        m.task == Task::Align,
        1 <= m.depth <= 3,
    ensures
        ({
            let next = stepped(m, false, Outcome::Symbols { matches, hypotheses });
            let enough = matches >= 9 || (matches == 8 && m.depth == 3) || (matches == 7 && m.depth
                == 3 && !m.squared);
            &&& enough ==> next.task is Attempt && next.attempt == 0 && next.attempts == ft8_plan(
                m.squared,
                m.depth,
                m.early,
                hypotheses as nat,
            ) && next.task == Task::Attempt(next.attempts[0])
            &&& !enough ==> next.task == Task::GiveUp
            &&& next.matches == matches
            &&& next.frequency == m.frequency
        }),
{
}

/// An attempt that fails is followed by the next of the plan, and the last by giving up. A
/// message is accepted unless it is faint and ten sync symbols or fewer match; then the next
/// attempt follows too.
pub proof fn attempts_go_on(m: CandidateModel, failed: Outcome, faint: bool)
    requires
        m.task is Attempt || m.task == Task::Weigh,
        0 <= m.attempt < m.attempts.len(),
        failed != Outcome::Message,
    ensures
        ({
            let weighed = stepped(m, false, Outcome::Strength { faint });
            let missed = stepped(m, false, failed);
            &&& m.task is Attempt ==> stepped(m, false, Outcome::Message).task == Task::Weigh
            &&& m.task is Attempt ==> goes_on(m, missed)
            &&& m.task is Weigh && (m.matches > 10 || !faint) ==> weighed.task == Task::Accept
            &&& m.task is Weigh && m.matches <= 10 && faint ==> goes_on(m, weighed)
        }),
{
}

/// The next attempt follows, if there is one.
pub open spec fn goes_on(m: CandidateModel, next: CandidateModel) -> bool {
    if m.attempt + 1 < m.attempts.len() {
        next.task == Task::Attempt(m.attempts[m.attempt + 1]) && next.attempt == m.attempt + 1
            && next.attempts == m.attempts
    } else {
        next.task == Task::GiveUp
    }
}

// ---------------------------------------------------------------------------
// Choices
// ---------------------------------------------------------------------------

/// A codeword is judged by the metric that it fits best: none of the others is closer.
pub proof fn the_best_metric_counts(metrics: Seq<[u32; 174]>, word: Seq<bool>, n: nat)
    requires
        n <= metrics.len(),
    ensures
        ({
            let best = best_fit(metrics, word, n);
            &&& forall|k: int|
                0 <= k < n ==> best.distance <= fit_to((#[trigger] metrics[k])@, word).distance
                    || fit_to(metrics[k]@, word).distance >= 0x7f80_0000
            &&& best.distance < 0x7f80_0000 ==> exists|k: int|
                0 <= k < n && best == fit_to((#[trigger] metrics[k])@, word)
            &&& best.distance <= 0x7f80_0000
        }),
    decreases n,
{
    if n > 0 {
        the_best_metric_counts(metrics, word, (n - 1) as nat);
        let before = best_fit(metrics, word, (n - 1) as nat);
        let now = fit_to(metrics[n - 1]@, word);
        let best = best_fit(metrics, word, n);
        if now.distance < before.distance {
            assert(best == fit_to(metrics[n - 1]@, word));
        }
    }
}

proof fn lemma_hundred()
    ensures
        units(LARGEST_DISTANCE) == 100 * pow2(149),
{
    lemma2_to64();
    lemma_pow2_adds(17, 132);
    let a = pow2(132) as int;
    assert(exponent(LARGEST_DISTANCE) == 133 && significand(LARGEST_DISTANCE) == 100 * 0x2_0000);
    assert(100 * 0x2_0000 * a == 100 * (0x2_0000 * a)) by (nonlinear_arith);
}

proof fn lemma_factor(second: u32, best: u32)
    requires
        second < 0x7f80_0000,
        best < 0x7f80_0000,
    ensures
        10 * units(second) >= 13 * units(best) ==> !below_1_3_times(second, best),
        100 * units((second + 1) as u32) <= 129 * units(best) ==> below_1_3_times(second, best),
{
    lemma2_to64();
    lemma_reach_between(second);
    lemma_reach_between(best);
    let a = units(second);
    let b = units(best);
    let c = units((second + 1) as u32);
    let f = FACTOR_1_3 as int;
    assert(pow2(23) == 0x80_0000);
    assert(f == 10905190);
    if 10 * a >= 13 * b {
        assert(2 * f * b < (a + c) * 0x80_0000) by (nonlinear_arith)
            requires
                10 * a >= 13 * b,
                0 <= a < c,
                f == 10905190,
        ;
    }
    if 100 * c <= 129 * b {
        assert(2 * f * b > (a + c) * 0x80_0000) by (nonlinear_arith)
            requires
                100 * c <= 129 * b,
                0 <= a < c,
                f == 10905190,
        ;
    }
}

/// The best hypothesis is accepted where its distance is at most 100 and the next one is 1.3
/// times as far or further; never beyond 100, without another to compare with, or where
/// another is no more than 1.29 times as far. Placeholders are never accepted, nor is a CQ
/// without a locator.
pub proof fn clear_winners_are_accepted(
    best: Fit,
    second: Option<u32>,
    text: Seq<char>,
    grid: Seq<char>,
)
    requires
        best.distance <= 0x7f80_0000,
        second matches Some(distance) ==> distance <= 0x7f80_0000,
    ensures
        ({
            let barred = starts_with(text, "QU1RK "@) || (starts_with(text, "CQ "@) && grid.len()
                == 0);
            let close = finite(best.distance) && units(best.distance) <= 100 * pow2(149);
            &&& is_accepted(best, second, text, grid) ==> !barred && close && second is Some
            &&& !barred && close ==> (second matches Some(distance) ==> {
                &&& distance == 0x7f80_0000 || 10 * units(distance) >= 13 * units(best.distance)
                    ==> is_accepted(best, second, text, grid)
                &&& distance < 0x7f80_0000 && 100 * units((distance + 1) as u32) <= 129 * units(
                    best.distance,
                ) ==> !is_accepted(best, second, text, grid)
            })
        }),
{
    lemma_hundred();
    if best.distance < LARGEST_DISTANCE {
        lemma_units_increase(best.distance, LARGEST_DISTANCE);
    } else if LARGEST_DISTANCE < best.distance {
        lemma_units_increase(LARGEST_DISTANCE, best.distance);
    }
    if let Some(distance) = second {
        if distance < 0x7f80_0000 && best.distance < 0x7f80_0000 {
            lemma_factor(distance, best.distance);
        }
    }
}

} // verus!
