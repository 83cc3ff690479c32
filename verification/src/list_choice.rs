//! Which of the messages that an earlier station may have sent fits best. Metrics and
//! distances are bit patterns of single precision values.
use vstd::prelude::*;
use crate::fec::no_evidence;
use crate::ft8_list::{may_win, Hypothesis};
use crate::hybrid::channel_distance;
use crate::osd::{are_light, magnitude, LARGEST_MAGNITUDE};
use crate::single::{
    at_least_zero, below_1_3_times, finite, is_at_least_zero, is_below_1_3_times, is_zero, zero,
};
use crate::sums::{
    light_values_are_within_a_part, sums_within_parts_are_finite, wide_plus, wide_sum, INFINITE,
};
use crate::text::starts_with;

verus! {

/// Bit pattern of 100, the largest distance of a message that is returned.
pub const LARGEST_DISTANCE: u32 = 0x42c8_0000;

/// How a codeword fits.
#[derive(Clone, Copy, Debug, PartialEq, Eq)]
pub struct Fit {
    pub distance: u32,
    /// Bits that contradict the evidence.
    pub errors: usize,
}

/// Bits among the first `n` that contradict a metric that tells something.
pub open spec fn contradicted(metric: Seq<u32>, word: Seq<bool>, n: nat) -> nat
    decreases n,
{
    if n == 0 {
        0
    } else {
        contradicted(metric, word, (n - 1) as nat) + (if word[n - 1] != at_least_zero(metric[n - 1])
            && !zero(metric[n - 1]) {
            1nat
        } else {
            0nat
        })
    }
}

/// The magnitudes of the metric at the bits that a word contradicts, the first `n` of them
/// summed in order. The sum is infinite once it or a magnitude is not finite.
pub open spec fn wide_distance(metric: Seq<u32>, word: Seq<bool>, n: nat) -> u32
    decreases n,
{
    if n == 0 {
        0
    } else {
        let rest = wide_distance(metric, word, (n - 1) as nat);
        if word[n - 1] != at_least_zero(metric[n - 1]) {
            wide_sum(rest, magnitude(metric[n - 1]))
        } else {
            rest
        }
    }
}

/// How a codeword fits one metric.
pub open spec fn fit_to(metric: Seq<u32>, word: Seq<bool>) -> Fit {
    Fit {
        distance: wide_distance(metric, word, 174),
        errors: contradicted(metric, word, 174) as usize,
    }
}

/// The first of the first `n` metrics that the codeword fits best, at a finite distance; an
/// infinite distance without any.
pub open spec fn best_fit(metrics: Seq<[u32; 174]>, word: Seq<bool>, n: nat) -> Fit
    decreases n,
{
    if n == 0 {
        Fit { distance: INFINITE, errors: 0 }
    } else {
        let before = best_fit(metrics, word, (n - 1) as nat);
        let now = fit_to(metrics[n - 1]@, word);
        if now.distance < before.distance {
            now
        } else {
            before
        }
    }
}

fn fit(metric: &[u32; 174], word: &[bool; 174]) -> (r: Fit)
    ensures
        r == fit_to(metric@, word@),
{
    let mut distance: u32 = 0;
    let mut errors: usize = 0;
    let mut i: usize = 0;
    while i < 174
        invariant
            i <= 174,
            errors <= i,
            errors == contradicted(metric@, word@, i as nat),
            distance == wide_distance(metric@, word@, i as nat),
        decreases 174 - i,
    {
        if word[i] != is_at_least_zero(metric[i]) {
            distance = wide_plus(distance, metric[i] % 0x8000_0000);
            if !is_zero(metric[i]) {
                errors = errors + 1;
            }
        }
        i = i + 1;
    }
    Fit { distance, errors }
}

fn fit_best(metrics: &[[u32; 174]; 4], word: &[bool; 174]) -> (r: Fit)
    ensures
        r == best_fit(metrics@, word@, 4),
{
    let mut best: Fit = Fit { distance: INFINITE, errors: 0 };
    let mut k: usize = 0;
    while k < 4
        invariant
            k <= 4,
            best == best_fit(metrics@, word@, k as nat),
        decreases 4 - k,
    {
        let now: Fit = fit(&metrics[k], word);
        if now.distance < best.distance {
            best = now;
        }
        k = k + 1;
    }
    best
}

/// How every hypothesis fits.
pub open spec fn fits(metrics: Seq<[u32; 174]>, hypotheses: Seq<Hypothesis>) -> Seq<Fit> {
    Seq::new(hypotheses.len(), |i: int| best_fit(metrics, hypotheses[i].codeword@, 4))
}

/// The first of the first `n` that fits best.
pub open spec fn winner(all: Seq<Fit>, n: nat) -> int
    decreases n,
{
    if n <= 1 {
        0
    } else {
        let before = winner(all, (n - 1) as nat);
        if all[n - 1].distance < all[before].distance {
            n - 1
        } else {
            before
        }
    }
}

/// The least distance among the first `n`, but for one of them.
pub open spec fn runner_up(all: Seq<Fit>, but: int, n: nat) -> Option<u32>
    decreases n,
{
    if n == 0 {
        None
    } else {
        let before = runner_up(all, but, (n - 1) as nat);
        if n - 1 == but {
            before
        } else {
            match before {
                Some(distance) if distance <= all[n - 1].distance => Some(distance),
                _ => Some(all[n - 1].distance),
            }
        }
    }
}

/// The winner is accepted: its distance is finite and small enough, clearly less than the
/// next, and it may be returned.
pub open spec fn is_accepted(
    best: Fit,
    second: Option<u32>,
    text: Seq<char>,
    grid: Seq<char>,
) -> bool {
    &&& finite(best.distance)
    &&& best.distance <= LARGEST_DISTANCE
    &&& second matches Some(distance) && !(finite(distance) && below_1_3_times(
        distance,
        best.distance,
    ))
    &&& !starts_with(text, "QU1RK "@)
    &&& !(starts_with(text, "CQ "@) && grid.len() == 0)
}

/// No metric tells anything.
pub open spec fn is_silent(metrics: Seq<[u32; 174]>) -> bool {
    forall|k: int, i: int| 0 <= k < 4 && 0 <= i < 174 ==> zero(#[trigger] metrics[k]@[i])
}

proof fn lemma_winner(all: Seq<Fit>, n: nat)
    requires
        1 <= n <= all.len(),
    ensures
        0 <= winner(all, n) < n,
        forall|i: int| 0 <= i < n ==> all[winner(all, n)].distance <= (#[trigger] all[i]).distance,
        forall|i: int|
            0 <= i < winner(all, n) ==> all[winner(all, n)].distance < (#[trigger] all[i]).distance,
    decreases n,
{
    if n > 1 {
        lemma_winner(all, (n - 1) as nat);
    }
}

/// The winner is the first of those that fit best.
pub proof fn winners_fit_best(all: Seq<Fit>)
    requires
        all.len() > 0,
    ensures
        0 <= winner(all, all.len()) < all.len(),
        forall|i: int|
            0 <= i < all.len() ==> all[winner(all, all.len())].distance <= (
            #[trigger] all[i]).distance,
        forall|i: int|
            0 <= i < winner(all, all.len()) ==> all[winner(all, all.len())].distance < (
            #[trigger] all[i]).distance,
{
    lemma_winner(all, all.len());
}

fn all_silent(metrics: &[[u32; 174]; 4]) -> (r: bool)
    ensures
        r == is_silent(metrics@),
{
    let mut k: usize = 0;
    while k < 4
        invariant
            k <= 4,
            forall|j: int, i: int| 0 <= j < k && 0 <= i < 174 ==> zero(#[trigger] metrics@[j]@[i]),
        decreases 4 - k,
    {
        if !no_evidence(&metrics[k]) {
            assert(exists|i: int| 0 <= i < 174 && !zero(#[trigger] metrics@[k as int]@[i]));
            return false;
        }
        k = k + 1;
    }
    true
}

/// Chooses the hypothesis that fits best by any of four metrics, and tells how many
/// bits contradict it. Without evidence, every distance would be zero and none is
/// chosen.
pub fn choose_hypothesis(
    metrics: &[[u32; 174]; 4],
    hypotheses: &Vec<Hypothesis>,
    grid: &str,
) -> (r: Option<(usize, usize)>)
    ensures
        ({
            let all = fits(metrics@, hypotheses@);
            let at = winner(all, all.len());
            let chosen = !is_silent(metrics@) && all.len() > 0 && is_accepted(
                all[at],
                runner_up(all, at, all.len()),
                hypotheses@[at].text@,
                grid@,
            );
            &&& r is Some <==> chosen
            &&& r matches Some(found) ==> found == (at as usize, all[at].errors)
        }),
{
    let ghost all = fits(metrics@, hypotheses@);
    if all_silent(metrics) {
        return None;
    }
    let n: usize = hypotheses.len();
    if n == 0 {
        return None;
    }
    let mut found: Vec<Fit> = Vec::new();
    let mut i: usize = 0;
    while i < n
        invariant
            i <= n,
            n == hypotheses.len(),
            all == fits(metrics@, hypotheses@),
            found@ =~= all.take(i as int),
        decreases n - i,
    {
        found.push(fit_best(metrics, &hypotheses[i].codeword));
        i = i + 1;
    }
    assert(found@ =~= all);
    let mut best: usize = 0;
    i = 1;
    while i < n
        invariant
            1 <= i <= n,
            n == all.len(),
            found@ == all,
            best < n,
            best == winner(all, i as nat),
        decreases n - i,
    {
        if found[i].distance < found[best].distance {
            best = i;
        }
        i = i + 1;
    }
    let mut second: Option<u32> = None;
    i = 0;
    while i < n
        invariant
            i <= n,
            n == all.len(),
            found@ == all,
            best < n,
            second == runner_up(all, best as int, i as nat),
        decreases n - i,
    {
        if i != best {
            second = match second {
                Some(distance) => if distance <= found[i].distance {
                    Some(distance)
                } else {
                    Some(found[i].distance)
                },
                None => Some(found[i].distance),
            };
        }
        i = i + 1;
    }
    if found[best].distance > LARGEST_DISTANCE {
        return None;
    }
    match second {
        None => {
            return None;
        },
        Some(distance) => {
            proof {
                lemma_distances_have_no_sign(metrics@, hypotheses@);
                lemma_runner_up(all, best as int, n as nat);
            }
            if distance < INFINITE && is_below_1_3_times(distance, found[best].distance) {
                return None;
            }
        },
    }
    if !may_win(hypotheses[best].text.as_str(), grid) {
        return None;
    }
    Some((best, found[best].errors))
}

proof fn lemma_runner_up(all: Seq<Fit>, but: int, n: nat)
    requires
        n <= all.len(),
    ensures
        runner_up(all, but, n) matches Some(distance) ==> exists|i: int|
            0 <= i < n && (#[trigger] all[i]).distance == distance,
    decreases n,
{
    if n > 0 {
        lemma_runner_up(all, but, (n - 1) as nat);
        assert(all[n - 1].distance == all[n - 1].distance);
    }
}

proof fn lemma_best_has_no_sign(metrics: Seq<[u32; 174]>, word: Seq<bool>, n: nat)
    ensures
        best_fit(metrics, word, n).distance <= INFINITE,
    decreases n,
{
    if n > 0 {
        lemma_best_has_no_sign(metrics, word, (n - 1) as nat);
    }
}

proof fn lemma_distances_have_no_sign(metrics: Seq<[u32; 174]>, hypotheses: Seq<Hypothesis>)
    ensures
        forall|i: int|
            0 <= i < hypotheses.len() ==> (#[trigger] fits(metrics, hypotheses)[i]).distance
                <= INFINITE,
{
    assert forall|i: int| 0 <= i < hypotheses.len() implies (#[trigger] fits(
        metrics,
        hypotheses,
    )[i]).distance <= INFINITE by {
        lemma_best_has_no_sign(metrics, hypotheses[i].codeword@, 4);
    }
}

/// A hypothesis that fits no metric at a finite distance is not chosen.
pub proof fn infinite_distances_are_not_chosen(
    best: Fit,
    second: Option<u32>,
    text: Seq<char>,
    grid: Seq<char>,
)
    requires
        !finite(best.distance),
    ensures
        !is_accepted(best, second, text, grid),
{
}

/// Where a metric is light, its distances are finite, and those of the channel likelihoods.
pub proof fn light_distances_are_finite(metric: Seq<u32>, word: Seq<bool>, n: nat)
    requires
        are_light(metric),
        n <= 174,
    ensures
        wide_distance(metric, word, n) == channel_distance(metric, word, n),
        finite(wide_distance(metric, word, n)),
    decreases n,
{
    crate::hybrid::distances_are_bounded(metric, word, n);
    if n > 0 {
        light_distances_are_finite(metric, word, (n - 1) as nat);
        let rest = channel_distance(metric, word, (n - 1) as nat);
        crate::hybrid::distances_are_bounded(metric, word, (n - 1) as nat);
        assert(magnitude(metric[n - 1]) <= LARGEST_MAGNITUDE);
        light_values_are_within_a_part(magnitude(metric[n - 1]));
        sums_within_parts_are_finite(rest, (n - 1) as nat, magnitude(metric[n - 1]), 1);
    }
}

} // verus!
