//! That every peak of a spectrum is searched, and in which order.
use vstd::arithmetic::power2::{lemma2_to64, lemma_pow2_adds, lemma_pow2_pos, pow2};
use vstd::prelude::*;
use crate::attempt_laws::comparisons_go_by_value;
use crate::candidates::{
    best_peaks, distinct, every_peak_is_represented, has_peak, is_preferred, is_same_peak,
    least_score, picked, preferred_first, ranking, rankings_keep_every_candidate, total_key,
    Candidate, DEEP_SCORE, SHALLOW_SCORE,
};
use crate::quantities::{HZ_4, SECONDS_0_04};
use crate::search_laws::closeness_goes_by_distance;
use crate::single::{at_most, exponent, finite, signed_units, significand, units};
use crate::sums::{lemma_reach_between, lemma_units_increase};
use crate::worker_laws::distance;

verus! {

// ---------------------------------------------------------------------------
// Order
// ---------------------------------------------------------------------------

/// Scores are ranked by their value.
pub proof fn keys_go_by_value(a: u32, b: u32)
    requires
        finite(a),
        finite(b),
        signed_units(a) < signed_units(b),
    ensures
        total_key(a) < total_key(b),
{
    let x = a % 0x8000_0000;
    let y = b % 0x8000_0000;
    if x < y {
        lemma_units_increase(x, y);
    } else if y < x {
        lemma_units_increase(y, x);
    }
    assert(units(0) == 0) by {
        assert(significand(0) == 0);
        assert(0 * pow2(0) == 0) by (nonlinear_arith);
    }
    if 0 < x {
        lemma_units_increase(0, x);
    }
    if 0 < y {
        lemma_units_increase(0, y);
    }
}

/// The number of preferred candidates.
pub open spec fn front(all: Seq<Candidate>, priority: u32, tolerance: u32) -> int {
    picked(all, priority, tolerance, true, all.len()).len() as int
}

proof fn lemma_picked(all: Seq<Candidate>, priority: u32, tolerance: u32, n: nat)
    requires
        n <= all.len(),
    ensures
        picked(all, priority, tolerance, true, n).to_multiset().add(
            picked(all, priority, tolerance, false, n).to_multiset(),
        ) == all.take(n as int).to_multiset(),
        forall|i: int|
            0 <= i < picked(all, priority, tolerance, true, n).len() ==> is_preferred(
                #[trigger] picked(all, priority, tolerance, true, n)[i],
                priority,
                tolerance,
            ),
        forall|i: int|
            0 <= i < picked(all, priority, tolerance, false, n).len() ==> !is_preferred(
                #[trigger] picked(all, priority, tolerance, false, n)[i],
                priority,
                tolerance,
            ),
    decreases n,
{
    broadcast use vstd::seq_lib::group_to_multiset_ensures;

    let yes = picked(all, priority, tolerance, true, n);
    let no = picked(all, priority, tolerance, false, n);
    if n == 0 {
        assert(all.take(0) =~= Seq::empty());
        assert(yes.to_multiset().add(no.to_multiset()) =~= all.take(0).to_multiset());
    } else {
        lemma_picked(all, priority, tolerance, (n - 1) as nat);
        let last = all[n - 1];
        assert(all.take(n as int) =~= all.take(n - 1).push(last));
        assert(yes.to_multiset().add(no.to_multiset()) =~= all.take(n as int).to_multiset());
    }
}

/// Where a frequency is preferred, the candidates near it come before all others, and none
/// is lost.
pub proof fn preferred_candidates_come_first(all: Seq<Candidate>, priority: u32, tolerance: u32)
    ensures
        ({
            let sorted = preferred_first(all, Some(priority), tolerance);
            let n = front(all, priority, tolerance);
            &&& sorted.to_multiset() == all.to_multiset()
            &&& 0 <= n <= sorted.len()
            &&& forall|i: int|
                0 <= i < n ==> is_preferred(#[trigger] sorted[i], priority, tolerance)
            &&& forall|i: int|
                n <= i < sorted.len() ==> !is_preferred(#[trigger] sorted[i], priority, tolerance)
        }),
{
    broadcast use vstd::seq_lib::lemma_multiset_commutative;

    lemma_picked(all, priority, tolerance, all.len());
    assert(all.take(all.len() as int) =~= all);
    let yes = picked(all, priority, tolerance, true, all.len());
    let no = picked(all, priority, tolerance, false, all.len());
    let sorted = preferred_first(all, Some(priority), tolerance);
    assert(sorted =~= yes + no);
    assert forall|i: int| yes.len() <= i < sorted.len() implies !is_preferred(
        #[trigger] sorted[i],
        priority,
        tolerance,
    ) by {
        assert(sorted[i] == no[i - yes.len()]);
    }
}

/// Without a preferred frequency the order stays.
pub proof fn order_stays_without_preference(all: Seq<Candidate>, tolerance: u32)
    ensures
        preferred_first(all, None, tolerance) == all,
{
}

/// The scores of candidates never rise.
pub open spec fn falls(all: Seq<Candidate>) -> bool {
    forall|i: int, j: int|
        0 <= i <= j < all.len() ==> total_key((#[trigger] all[i]).score) >= total_key(
            (#[trigger] all[j]).score,
        )
}

/// All scores are at least that of a candidate.
spec fn none_below(all: Seq<Candidate>, c: Candidate) -> bool {
    forall|i: int| 0 <= i < all.len() ==> total_key((#[trigger] all[i]).score) >= total_key(c.score)
}

proof fn lemma_picked_falls(
    all: Seq<Candidate>,
    priority: u32,
    tolerance: u32,
    preferred: bool,
    n: nat,
    c: Candidate,
)
    requires
        n <= all.len(),
        falls(all),
        none_below(all.take(n as int), c),
    ensures
        falls(picked(all, priority, tolerance, preferred, n)),
        none_below(picked(all, priority, tolerance, preferred, n), c),
    decreases n,
{
    if n > 0 {
        let last = all[n - 1];
        let before = picked(all, priority, tolerance, preferred, (n - 1) as nat);
        let now = picked(all, priority, tolerance, preferred, n);
        assert(none_below(all.take(n - 1), last));
        assert(all.take(n as int)[n - 1] == last);
        lemma_picked_falls(all, priority, tolerance, preferred, (n - 1) as nat, last);
        if is_preferred(last, priority, tolerance) == preferred {
            assert forall|i: int, j: int| 0 <= i <= j < now.len() implies total_key(
                (#[trigger] now[i]).score,
            ) >= total_key((#[trigger] now[j]).score) by {
                if j < before.len() {
                    assert(now[j] == before[j]);
                }
                if i < before.len() {
                    assert(now[i] == before[i]);
                }
            }
            assert forall|i: int| 0 <= i < now.len() implies total_key((#[trigger] now[i]).score)
                >= total_key(c.score) by {
                if i < before.len() {
                    assert(now[i] == before[i]);
                }
            }
        }
    }
}

/// The preferred candidates and the others keep their order among themselves: scores that
/// fell still fall in both parts.
pub proof fn parts_keep_their_order(all: Seq<Candidate>, priority: u32, tolerance: u32)
    requires
        falls(all),
    ensures
        ({
            let sorted = preferred_first(all, Some(priority), tolerance);
            let n = front(all, priority, tolerance);
            falls(sorted.take(n)) && falls(sorted.skip(n))
        }),
{
    let n = all.len();
    let yes = picked(all, priority, tolerance, true, n);
    let no = picked(all, priority, tolerance, false, n);
    if n > 0 {
        let c = all[n - 1];
        assert(none_below(all.take(n as int), c));
        lemma_picked_falls(all, priority, tolerance, true, n, c);
        lemma_picked_falls(all, priority, tolerance, false, n, c);
    }
    let sorted = preferred_first(all, Some(priority), tolerance);
    assert(sorted.take(yes.len() as int) =~= yes);
    assert(sorted.skip(yes.len() as int) =~= no);
}

/// A candidate is preferred where it lies within the tolerance, and is not from the next
/// greater value of the tolerance on.
pub proof fn preference_goes_by_distance(c: Candidate, priority: u32, tolerance: u32)
    requires
        finite(c.frequency),
        finite(priority),
        tolerance < 0x7f7f_ffff,
    ensures
        distance(c.frequency, priority) <= units(tolerance) ==> is_preferred(
            c,
            priority,
            tolerance,
        ),
        distance(c.frequency, priority) >= units((tolerance + 1) as u32) ==> !is_preferred(
            c,
            priority,
            tolerance,
        ),
{
    lemma_reach_between(tolerance);
}

// ---------------------------------------------------------------------------
// Peaks
// ---------------------------------------------------------------------------

proof fn lemma_widths()
    ensures
        units(HZ_4) == 4 * pow2(149),
        units((HZ_4 - 1) as u32) * 10 >= 39 * pow2(149),
        units(SECONDS_0_04) * 100 <= 4 * pow2(149),
        units((SECONDS_0_04 - 1) as u32) * 1000 >= 39 * pow2(149),
{
    lemma2_to64();
    lemma_pow2_adds(21, 128);
    lemma_pow2_adds(22, 127);
    lemma_pow2_adds(28, 121);
    let a = pow2(128) as int;
    let b = pow2(127) as int;
    let c = pow2(121) as int;
    lemma_pow2_pos(127);
    lemma_pow2_pos(121);
    assert(exponent(HZ_4) == 129 && significand(HZ_4) == 0x80_0000);
    assert(exponent((HZ_4 - 1) as u32) == 128 && significand((HZ_4 - 1) as u32) == 0xff_ffff);
    assert(exponent(SECONDS_0_04) == 122 && significand(SECONDS_0_04) == 0xa3_d70a);
    assert(exponent((SECONDS_0_04 - 1) as u32) == 122 && significand((SECONDS_0_04 - 1) as u32)
        == 0xa3_d709);
    assert(0x80_0000 * a == 4 * (0x20_0000 * a)) by (nonlinear_arith);
    assert(0xff_ffff * b * 10 >= 39 * (0x40_0000 * b)) by (nonlinear_arith)
        requires
            b > 0,
    ;
    assert(0xa3_d70a * c * 100 <= 4 * (0x1000_0000 * c)) by (nonlinear_arith)
        requires
            c > 0,
    ;
    assert(0xa3_d709 * c * 1000 >= 39 * (0x1000_0000 * c)) by (nonlinear_arith)
        requires
            c > 0,
    ;
}

/// Two candidates are one peak only from less than 4 Hz and less than 0.04 s apart, and are
/// one up to 3.9 Hz and 0.039 s.
pub proof fn peaks_are_close(a: Candidate, b: Candidate)
    requires
        finite(a.frequency),
        finite(b.frequency),
        finite(a.start),
        finite(b.start),
    ensures
        is_same_peak(a, b) ==> distance(a.frequency, b.frequency) < 4 * pow2(149) && distance(
            a.start,
            b.start,
        ) * 100 < 4 * pow2(149),
        distance(a.frequency, b.frequency) * 10 <= 39 * pow2(149) && distance(a.start, b.start)
            * 1000 <= 39 * pow2(149) ==> is_same_peak(a, b),
{
    lemma_widths();
    closeness_goes_by_distance(a.frequency, b.frequency, HZ_4);
    closeness_goes_by_distance(a.start, b.start, SECONDS_0_04);
}

/// Of up to 1000 candidates each is searched, or another that is the same peak.
pub proof fn every_candidate_is_searched(
    all: Seq<Candidate>,
    priority: Option<u32>,
    tolerance: u32,
    k: int,
)
    requires
        0 <= k < all.len() <= 1000,
    ensures
        ({
            let searched = preferred_first(best_peaks(all), priority, tolerance);
            searched.contains(all[k]) || has_peak(searched, all[k])
        }),
{
    broadcast use vstd::seq_lib::group_to_multiset_ensures;

    let n = all.len();
    let ranked = ranking(all, n);
    let kept = best_peaks(all);
    rankings_keep_every_candidate(all, n);
    assert(all.take(n as int) =~= all);
    assert(all.to_multiset().count(all[k]) > 0);
    assert(ranked.contains(all[k]));
    assert(ranked.len() == n) by {
        assert(ranked.to_multiset().len() == ranked.len());
        assert(all.to_multiset().len() == all.len());
    }
    let p = choose|p: int| 0 <= p < ranked.len() && ranked[p] == all[k];
    every_peak_is_represented(ranked, n, p);
    assert(kept == distinct(ranked, n));
    let searched = preferred_first(kept, priority, tolerance);
    if let Some(hz) = priority {
        preferred_candidates_come_first(kept, hz, tolerance);
    }
    assert(searched.to_multiset() == kept.to_multiset());
    if kept.contains(all[k]) {
        assert(kept.to_multiset().count(all[k]) > 0);
        assert(searched.contains(all[k]));
    } else {
        let i = choose|i: int| 0 <= i < kept.len() && is_same_peak(#[trigger] kept[i], all[k]);
        assert(kept.to_multiset().count(kept[i]) > 0);
        assert(searched.contains(kept[i]));
        let j = choose|j: int| 0 <= j < searched.len() && searched[j] == kept[i];
        assert(is_same_peak(searched[j], all[k]));
    }
}

// ---------------------------------------------------------------------------
// Scores
// ---------------------------------------------------------------------------

proof fn lemma_scores()
    ensures
        209 * pow2(149) < units(SHALLOW_SCORE) * 100 <= 210 * pow2(149),
        129 * pow2(149) < units(DEEP_SCORE) * 100 <= 130 * pow2(149),
{
    lemma2_to64();
    lemma_pow2_adds(22, 127);
    lemma_pow2_adds(23, 126);
    lemma_pow2_pos(127);
    lemma_pow2_pos(126);
    let a = pow2(127) as int;
    let b = pow2(126) as int;
    assert(exponent(SHALLOW_SCORE) == 128 && significand(SHALLOW_SCORE) == 0x86_6666);
    assert(exponent(DEEP_SCORE) == 127 && significand(DEEP_SCORE) == 0xa6_6666);
    assert(209 * (0x40_0000 * a) < 0x86_6666 * a * 100 <= 210 * (0x40_0000 * a))
        by (nonlinear_arith)
        requires
            a > 0,
    ;
    assert(129 * (0x80_0000 * b) < 0xa6_6666 * b * 100 <= 130 * (0x80_0000 * b))
        by (nonlinear_arith)
        requires
            b > 0,
    ;
}

/// A peak that scores 1.3 is enough at full depth, and one that scores 2.1 at any; scores up
/// to 1.29 and 2.09 are not.
pub proof fn high_scores_are_enough(score: u32, depth: u8)
    requires
        finite(score),
        1 <= depth <= 3,
    ensures
        depth == 3 && signed_units(score) * 100 >= 130 * pow2(149) ==> at_most(
            least_score(depth),
            score,
        ),
        signed_units(score) * 100 >= 210 * pow2(149) ==> at_most(least_score(depth), score),
        signed_units(score) * 100 <= 129 * pow2(149) ==> !at_most(least_score(depth), score),
        depth <= 2 && signed_units(score) * 100 <= 209 * pow2(149) ==> !at_most(
            least_score(depth),
            score,
        ),
{
    lemma_scores();
    lemma_pow2_pos(149);
    comparisons_go_by_value(least_score(depth), score);
}

} // verus!
