//! Which peaks of a spectrum become candidates, and in which order. Frequencies,
//! times and scores are bit patterns of single precision values.
use vstd::prelude::*;
use crate::quantities::{HZ_4, SECONDS_0_04};
use crate::single::{at_most, closer_than, is_at_most, is_closer_than, is_within, within};

verus! {

#[derive(Clone, Copy, Debug, PartialEq, Eq)]
pub struct Candidate {
    pub frequency: u32,
    pub start: u32,
    pub score: u32,
}

/// Most candidates of one search.
pub const MAX_CANDIDATES: usize = 1000;

/// Bit patterns of 2.1 and 1.3, the least scores of shallow and of full depth.
pub const SHALLOW_SCORE: u32 = 0x4006_6666;

pub const DEEP_SCORE: u32 = 0x3fa6_6666;

pub open spec fn least_score(depth: u8) -> u32 {
    if depth <= 2 {
        SHALLOW_SCORE
    } else {
        DEEP_SCORE
    }
}

/// Whether a peak scores enough.
pub fn scores_enough(score: u32, depth: u8) -> (r: bool)
    ensures
        r == at_most(least_score(depth), score),
{
    is_at_most(if depth <= 2 { SHALLOW_SCORE } else { DEEP_SCORE }, score)
}

// ---------------------------------------------------------------------------
// Ranking
// ---------------------------------------------------------------------------

/// The place of a pattern in the total order of single precision values, where
/// minus zero stands before zero and NaNs stand at the ends.
pub open spec fn total_key(bits: u32) -> int {
    if bits < 0x8000_0000 {
        bits as int
    } else {
        0x7fff_ffff - bits
    }
}

fn key(bits: u32) -> (r: i64)
    ensures
        r == total_key(bits),
{
    if bits < 0x8000_0000 {
        bits as i64
    } else {
        0x7fff_ffff - bits as i64
    }
}

/// How many of the first `n` ranked candidates stay before one of the given score:
/// all up to the last that scores no less.
pub open spec fn rank(ranked: Seq<Candidate>, score: u32, n: nat) -> nat
    decreases n,
{
    if n == 0 {
        0
    } else if total_key(ranked[n - 1].score) >= total_key(score) {
        n
    } else {
        rank(ranked, score, (n - 1) as nat)
    }
}

/// The first `n` candidates by falling score, equal ones in their order.
pub open spec fn ranking(all: Seq<Candidate>, n: nat) -> Seq<Candidate>
    decreases n,
{
    if n == 0 {
        Seq::empty()
    } else {
        let before = ranking(all, (n - 1) as nat);
        before.insert(rank(before, all[n - 1].score, before.len()) as int, all[n - 1])
    }
}

proof fn lemma_rank(ranked: Seq<Candidate>, score: u32, n: nat)
    requires
        n <= ranked.len(),
    ensures
        rank(ranked, score, n) <= n,
        rank(ranked, score, n) > 0 ==> total_key(
            ranked[rank(ranked, score, n) - 1].score,
        ) >= total_key(score),
        forall|i: int|
            rank(ranked, score, n) <= i < n ==> total_key((#[trigger] ranked[i]).score) < total_key(
                score,
            ),
    decreases n,
{
    if n > 0 && total_key(ranked[n - 1].score) < total_key(score) {
        lemma_rank(ranked, score, (n - 1) as nat);
    }
}

proof fn lemma_ranking_length(all: Seq<Candidate>, n: nat)
    requires
        n <= all.len(),
    ensures
        ranking(all, n).len() == n,
    decreases n,
{
    if n > 0 {
        lemma_ranking_length(all, (n - 1) as nat);
        lemma_rank(ranking(all, (n - 1) as nat), all[n - 1].score, (n - 1) as nat);
    }
}

/// Scores never rise along a ranking.
pub proof fn rankings_are_sorted(all: Seq<Candidate>, n: nat)
    requires
        n <= all.len(),
    ensures
        forall|i: int, j: int|
            0 <= i <= j < ranking(all, n).len() ==> total_key((#[trigger] ranking(all, n)[i]).score)
                >= total_key((#[trigger] ranking(all, n)[j]).score),
    decreases n,
{
    if n > 0 {
        let before = ranking(all, (n - 1) as nat);
        let c = all[n - 1];
        rankings_are_sorted(all, (n - 1) as nat);
        lemma_ranking_length(all, (n - 1) as nat);
        lemma_rank(before, c.score, before.len());
        let at = rank(before, c.score, before.len()) as int;
        let after = ranking(all, n);
        assert forall|i: int, j: int| 0 <= i <= j < after.len() implies total_key(
            (#[trigger] after[i]).score,
        ) >= total_key((#[trigger] after[j]).score) by {
            if i < at {
                assert(after[i] == before[i]);
                assert(total_key(before[i].score) >= total_key(before[at - 1].score));
            }
            if i > at {
                assert(after[i] == before[i - 1]);
            }
            if j < at {
                assert(after[j] == before[j]);
            }
            if j > at {
                assert(after[j] == before[j - 1]);
            }
        }
    }
}

/// A ranking holds every candidate as often as it came.
pub proof fn rankings_keep_every_candidate(all: Seq<Candidate>, n: nat)
    requires
        n <= all.len(),
    ensures
        ranking(all, n).to_multiset() == all.take(n as int).to_multiset(),
    decreases n,
{
    broadcast use vstd::seq_lib::group_to_multiset_ensures;

    if n > 0 {
        let before = ranking(all, (n - 1) as nat);
        rankings_keep_every_candidate(all, (n - 1) as nat);
        lemma_ranking_length(all, (n - 1) as nat);
        lemma_rank(before, all[n - 1].score, before.len());
        let at = rank(before, all[n - 1].score, before.len()) as int;
        vstd::seq_lib::to_multiset_insert(before, at, all[n - 1]);
        assert(all.take(n as int) =~= all.take(n - 1).push(all[n - 1]));
    } else {
        assert(ranking(all, 0) =~= all.take(0));
    }
}

fn ranked_place(ranked: &Vec<Candidate>, score: u32) -> (r: usize)
    ensures
        r == rank(ranked@, score, ranked@.len()),
        r <= ranked.len(),
{
    let mut n: usize = ranked.len();
    while n > 0
        invariant
            n <= ranked.len(),
            rank(ranked@, score, ranked@.len()) == rank(ranked@, score, n as nat),
        decreases n,
    {
        if key(ranked[n - 1].score) >= key(score) {
            return n;
        }
        n = n - 1;
    }
    0
}

fn by_score(all: &Vec<Candidate>) -> (r: Vec<Candidate>)
    ensures
        r@ == ranking(all@, all@.len()),
{
    let mut ranked: Vec<Candidate> = Vec::new();
    let mut i: usize = 0;
    while i < all.len()
        invariant
            i <= all.len(),
            ranked@ == ranking(all@, i as nat),
        decreases all.len() - i,
    {
        let place: usize = ranked_place(&ranked, all[i].score);
        ranked.insert(place, all[i]);
        i = i + 1;
    }
    ranked
}

// ---------------------------------------------------------------------------
// Distinct peaks
// ---------------------------------------------------------------------------

/// Two peaks of one signal: closer than 4 Hz and 0.04 s.
pub open spec fn is_same_peak(a: Candidate, b: Candidate) -> bool {
    closer_than(a.frequency, b.frequency, HZ_4) && closer_than(a.start, b.start, SECONDS_0_04)
}

/// One of the peaks is the same.
pub open spec fn has_peak(kept: Seq<Candidate>, c: Candidate) -> bool {
    exists|i: int| 0 <= i < kept.len() && is_same_peak(#[trigger] kept[i], c)
}

/// Of the first `n` candidates, those that no better one stands for.
pub open spec fn distinct(all: Seq<Candidate>, n: nat) -> Seq<Candidate>
    decreases n,
{
    if n == 0 {
        Seq::empty()
    } else {
        let kept = distinct(all, (n - 1) as nat);
        if has_peak(kept, all[n - 1]) {
            kept
        } else {
            kept.push(all[n - 1])
        }
    }
}

/// No kept candidate is a peak that an earlier one stands for.
pub proof fn kept_peaks_are_distinct(all: Seq<Candidate>, n: nat)
    requires
        n <= all.len(),
    ensures
        forall|i: int, j: int|
            0 <= i < j < distinct(all, n).len() ==> !is_same_peak(
                #[trigger] distinct(all, n)[i],
                #[trigger] distinct(all, n)[j],
            ),
    decreases n,
{
    if n > 0 {
        kept_peaks_are_distinct(all, (n - 1) as nat);
        let kept = distinct(all, (n - 1) as nat);
        let now = distinct(all, n);
        assert forall|i: int, j: int| 0 <= i < j < now.len() implies !is_same_peak(
            #[trigger] now[i],
            #[trigger] now[j],
        ) by {
            assert(now[i] == kept[i]);
            if j < kept.len() {
                assert(now[j] == kept[j]);
                assert(!is_same_peak(kept[i], kept[j]));
            } else {
                assert(!is_same_peak(kept[i], all[n - 1]));
            }
        }
    }
}

/// Every candidate is kept, or a kept one stands for it.
pub proof fn every_peak_is_represented(all: Seq<Candidate>, n: nat, k: int)
    requires
        0 <= k < n <= all.len(),
    ensures
        distinct(all, n).contains(all[k]) || has_peak(distinct(all, n), all[k]),
    decreases n,
{
    let kept = distinct(all, (n - 1) as nat);
    let now = distinct(all, n);
    if k == n - 1 {
        if !has_peak(kept, all[k]) {
            assert(now[kept.len() as int] == all[k]);
        }
    } else {
        every_peak_is_represented(all, (n - 1) as nat, k);
        assert(forall|i: int| 0 <= i < kept.len() ==> now[i] == kept[i]);
        if kept.contains(all[k]) {
            let i = choose|i: int| 0 <= i < kept.len() && kept[i] == all[k];
            assert(now[i] == all[k]);
        } else {
            let i = choose|i: int| 0 <= i < kept.len() && is_same_peak(#[trigger] kept[i], all[k]);
            assert(is_same_peak(now[i], all[k]));
        }
    }
}

fn peak_kept(kept: &Vec<Candidate>, c: &Candidate) -> (r: bool)
    ensures
        r == has_peak(kept@, *c),
{
    let mut i: usize = 0;
    while i < kept.len()
        invariant
            i <= kept.len(),
            forall|k: int| 0 <= k < i ==> !is_same_peak(#[trigger] kept@[k], *c),
        decreases kept.len() - i,
    {
        if is_closer_than(kept[i].frequency, c.frequency, HZ_4) && is_closer_than(
            kept[i].start,
            c.start,
            SECONDS_0_04,
        ) {
            assert(is_same_peak(kept@[i as int], *c));
            return true;
        }
        i = i + 1;
    }
    false
}

// ---------------------------------------------------------------------------
// Priority
// ---------------------------------------------------------------------------

/// The candidate lies within the tolerance of the priority frequency.
pub open spec fn is_preferred(c: Candidate, priority: u32, tolerance: u32) -> bool {
    within(c.frequency, priority, tolerance)
}

/// Of the first `n` candidates, those that are preferred or those that are not, in
/// their order.
pub open spec fn picked(
    all: Seq<Candidate>,
    priority: u32,
    tolerance: u32,
    preferred: bool,
    n: nat,
) -> Seq<Candidate>
    decreases n,
{
    if n == 0 {
        Seq::empty()
    } else {
        let rest = picked(all, priority, tolerance, preferred, (n - 1) as nat);
        if is_preferred(all[n - 1], priority, tolerance) == preferred {
            rest.push(all[n - 1])
        } else {
            rest
        }
    }
}

/// The candidates with the preferred ones first.
pub open spec fn preferred_first(all: Seq<Candidate>, priority: Option<u32>, tolerance: u32) -> Seq<
    Candidate,
> {
    match priority {
        Some(hz) => picked(all, hz, tolerance, true, all.len()) + picked(
            all,
            hz,
            tolerance,
            false,
            all.len(),
        ),
        None => all,
    }
}

fn pick(all: &Vec<Candidate>, priority: u32, tolerance: u32, preferred: bool, out: &mut Vec<
    Candidate,
>)
    ensures
        final(out)@ == old(out)@ + picked(all@, priority, tolerance, preferred, all@.len()),
{
    let ghost start = out@;
    let mut i: usize = 0;
    assert(out@ =~= start + picked(all@, priority, tolerance, preferred, 0));
    while i < all.len()
        invariant
            i <= all.len(),
            out@ == start + picked(all@, priority, tolerance, preferred, i as nat),
        decreases all.len() - i,
    {
        let ghost before = picked(all@, priority, tolerance, preferred, i as nat);
        if is_within(all[i].frequency, priority, tolerance) == preferred {
            out.push(all[i]);
            assert(out@ =~= start + before.push(all@[i as int]));
        }
        i = i + 1;
    }
}

/// Puts the candidates near the priority frequency first, each group in its order.
pub fn prioritize(all: Vec<Candidate>, priority: Option<u32>, tolerance: u32) -> (r: Vec<Candidate>)
    ensures
        r@ == preferred_first(all@, priority, tolerance),
{
    match priority {
        None => all,
        Some(hz) => {
            let mut out: Vec<Candidate> = Vec::new();
            pick(&all, hz, tolerance, true, &mut out);
            pick(&all, hz, tolerance, false, &mut out);
            assert(out@ =~= preferred_first(all@, priority, tolerance));
            out
        },
    }
}

// ---------------------------------------------------------------------------
// Selection
// ---------------------------------------------------------------------------

/// The best candidates, each standing for one peak.
pub open spec fn best_peaks(all: Seq<Candidate>) -> Seq<Candidate> {
    let ranked = ranking(all, all.len());
    let n = if ranked.len() < MAX_CANDIDATES {
        ranked.len()
    } else {
        MAX_CANDIDATES as nat
    };
    distinct(ranked, n)
}

/// Selects FT8 candidates: the best by score, each standing for one peak, and those
/// near the priority frequency first.
pub fn select(all: &Vec<Candidate>, priority: Option<u32>, tolerance: u32) -> (r: Vec<Candidate>)
    ensures
        r@ == preferred_first(best_peaks(all@), priority, tolerance),
{
    let ranked: Vec<Candidate> = by_score(all);
    let n: usize = if ranked.len() < MAX_CANDIDATES { ranked.len() } else { MAX_CANDIDATES };
    let mut kept: Vec<Candidate> = Vec::new();
    let mut i: usize = 0;
    while i < n
        invariant
            i <= n <= ranked.len(),
            kept@ == distinct(ranked@, i as nat),
        decreases n - i,
    {
        if !peak_kept(&kept, &ranked[i]) {
            kept.push(ranked[i]);
        }
        i = i + 1;
    }
    prioritize(kept, priority, tolerance)
}

} // verus!
