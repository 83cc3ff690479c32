//! What error correction counts and chooses.
use vstd::prelude::*;
use crate::fec::{
    accepted, check_fails, contradictions, contradicts, crc_holds, failures, stagnates, stagnation,
    BpProgress,
};
use crate::hybrid::{attempt_input, channel_distance, distances_are_bounded, fallback};
use crate::list_choice::{contradicted, runner_up, wide_distance, Fit};
use crate::osd::{
    are_light, decisions, decode_result, magnitude, mismatches, refusal, LARGEST_MAGNITUDE,
};
use crate::single::{at_least_zero, zero};
use crate::sums::{
    light_values_are_within_a_part, sums_are_not_below_their_terms, sums_stay_within_parts,
    INFINITE,
};

verus! {

// ---------------------------------------------------------------------------
// Counts
// ---------------------------------------------------------------------------

/// The bits below `n` that contradict a likelihood that tells something.
pub open spec fn contradicting_bits(word: Seq<bool>, llr: Seq<u32>, n: int) -> Set<int> {
    Set::new(
        |i: int|
            0 <= i < n && ((word[i] && 0x8000_0000 < llr[i] <= 0xff80_0000) || (!word[i] && 0
                < llr[i] <= 0x7f80_0000)),
    )
}

/// The hard errors of a result by propagation are the bits that contradict the channel.
pub proof fn contradictions_are_counted(word: Seq<bool>, llr: Seq<u32>, n: nat)
    ensures
        contradicting_bits(word, llr, n as int).finite(),
        contradictions(word, llr, n) == contradicting_bits(word, llr, n as int).len(),
    decreases n,
{
    let all = contradicting_bits(word, llr, n as int);
    if n == 0 {
        assert(all =~= Set::empty());
    } else {
        contradictions_are_counted(word, llr, (n - 1) as nat);
        let rest = contradicting_bits(word, llr, n - 1);
        if contradicts(word[n - 1], llr[n - 1]) {
            assert(all =~= rest.insert(n - 1));
        } else {
            assert(all =~= rest);
        }
    }
}

/// The bits below `n` in which two words differ.
pub open spec fn differing_bits(a: Seq<bool>, b: Seq<bool>, n: int) -> Set<int> {
    Set::new(|i: int| 0 <= i < n && a[i] != b[i])
}

/// The hard errors of a result by order statistics are the bits that differ from the
/// decisions.
pub proof fn mismatches_are_counted(word: Seq<bool>, hard: Seq<bool>, n: nat)
    ensures
        differing_bits(word, hard, n as int).finite(),
        mismatches(word, hard, n) == differing_bits(word, hard, n as int).len(),
    decreases n,
{
    let all = differing_bits(word, hard, n as int);
    if n == 0 {
        assert(all =~= Set::empty());
    } else {
        mismatches_are_counted(word, hard, (n - 1) as nat);
        let rest = differing_bits(word, hard, n - 1);
        if word[n - 1] != hard[n - 1] {
            assert(all =~= rest.insert(n - 1));
        } else {
            assert(all =~= rest);
        }
    }
}

/// The checks below `m` that a word fails.
pub open spec fn failing_checks(word: Seq<bool>, m: int) -> Set<int> {
    Set::new(|i: int| 0 <= i < m && check_fails(word, i))
}

/// Failed checks are counted, and a word is accepted where none fails and its checksum holds.
pub proof fn failures_are_counted(word: Seq<bool>, m: nat)
    ensures
        failing_checks(word, m as int).finite(),
        failures(word, m) == failing_checks(word, m as int).len(),
        accepted(word) <==> (forall|i: int| 0 <= i < 83 ==> !check_fails(word, i)) && crc_holds(word),
    decreases m,
{
    lemma_failures(word, m);
    lemma_failures(word, 83);
    let all = failing_checks(word, 83);
    if failures(word, 83) == 0 {
        assert forall|i: int| 0 <= i < 83 implies !check_fails(word, i) by {
            if check_fails(word, i) {
                assert(all.contains(i));
                assert(all.len() > 0) by {
                    if all.len() == 0 {
                        assert(all =~= Set::empty());
                    }
                }
            }
        }
    } else if forall|i: int| 0 <= i < 83 ==> !check_fails(word, i) {
        assert(all =~= Set::empty());
    }
}

proof fn lemma_failures(word: Seq<bool>, m: nat)
    ensures
        failing_checks(word, m as int).finite(),
        failures(word, m) == failing_checks(word, m as int).len(),
    decreases m,
{
    let all = failing_checks(word, m as int);
    if m == 0 {
        assert(all =~= Set::empty());
    } else {
        lemma_failures(word, (m - 1) as nat);
        let rest = failing_checks(word, m - 1);
        if check_fails(word, m - 1) {
            assert(all =~= rest.insert(m - 1));
        } else {
            assert(all =~= rest);
        }
    }
}

// ---------------------------------------------------------------------------
// Propagation
// ---------------------------------------------------------------------------

/// Propagation gives up before its budget is spent only behind ten iterations, with more than
/// fifteen checks failing, and where the last five iterations have not each left fewer checks
/// failing than the one before.
pub proof fn propagation_gives_up_late(progress: BpProgress, iteration: u8, checks: nat)
    ensures
        stagnates(progress, iteration, checks) ==> iteration >= 10 && checks > 15 && checks
            >= progress.last_checks && progress.stagnant >= 4,
        iteration >= 10 && checks > 15 && checks >= progress.last_checks && progress.stagnant >= 4
            ==> stagnates(progress, iteration, checks),
        iteration > 0 && checks < progress.last_checks ==> stagnation(progress, iteration, checks)
            == 0 && !stagnates(progress, iteration, checks),
        iteration > 0 && checks >= progress.last_checks ==> stagnation(progress, iteration, checks)
            == progress.stagnant + 1,
{
}

// ---------------------------------------------------------------------------
// Attempts behind propagation
// ---------------------------------------------------------------------------

/// What one attempt gives: an error, nothing, or a codeword that contradicts its input.
pub open spec fn succeeds(input: Seq<u32>, mask: Seq<bool>, depth: u8) -> bool {
    decode_result(input, mask, depth) matches Some(choice) && choice.codeword != decisions(input)
}

proof fn lemma_some_mismatch(word: Seq<bool>, hard: Seq<bool>)
    requires
        word.len() == 174,
        hard.len() == 174,
    ensures
        mismatches(word, hard, 174) == 0 <==> word == hard,
{
    mismatches_are_counted(word, hard, 174);
    let all = differing_bits(word, hard, 174);
    if mismatches(word, hard, 174) == 0 {
        assert forall|i: int| 0 <= i < 174 implies word[i] == hard[i] by {
            if word[i] != hard[i] {
                assert(all.contains(i));
                if all.len() == 0 {
                    assert(all =~= Set::empty());
                }
            }
        }
        assert(word =~= hard);
    } else if word == hard {
        assert(all =~= Set::empty());
    }
}

/// Attempts are made in order. The first that succeeds gives the result, and no earlier one
/// has; without any there is none; and a refused input ends the attempts with its error.
pub proof fn the_first_success_counts(
    llr: Seq<u32>,
    saved: Seq<[u32; 174]>,
    mask: Seq<bool>,
    max_osd: u8,
    depth: u8,
    attempts: int,
    pass: int,
)
    requires
        llr.len() == 174,
        0 <= pass,
        forall|p: int|
            pass <= p < attempts ==> (decode_result(
                #[trigger] attempt_input(llr, saved, max_osd, p),
                mask,
                depth,
            ) matches Some(choice) ==> choice.codeword.len() == 174),
    ensures
        match fallback(llr, saved, mask, max_osd, depth, attempts, pass) {
            Ok(Some(found)) => {
                let input = attempt_input(llr, saved, max_osd, found.pass);
                &&& pass <= found.pass < attempts
                &&& succeeds(input, mask, depth)
                &&& found.codeword == decode_result(input, mask, depth)->0.codeword
                &&& found.hard_errors == differing_bits(found.codeword, decisions(input), 174).len()
                &&& found.distance == channel_distance(llr, found.codeword, 174)
                &&& forall|p: int|
                    pass <= p < found.pass ==> !succeeds(
                        #[trigger] attempt_input(llr, saved, max_osd, p),
                        mask,
                        depth,
                    )
            },
            Ok(None) => forall|p: int|
                pass <= p < attempts ==> !succeeds(
                    #[trigger] attempt_input(llr, saved, max_osd, p),
                    mask,
                    depth,
                ),
            Err(error) => exists|p: int|
                pass <= p < attempts && refusal(
                    #[trigger] attempt_input(llr, saved, max_osd, p),
                    depth,
                ) == Some(error),
        },
    decreases attempts - pass,
{
    if pass < attempts {
        let input = attempt_input(llr, saved, max_osd, pass);
        assert(input.len() == 174);
        if refusal(input, depth) is None {
            if let Some(choice) = decode_result(input, mask, depth) {
                lemma_some_mismatch(choice.codeword, decisions(input));
                mismatches_are_counted(choice.codeword, decisions(input), 174);
            }
            the_first_success_counts(llr, saved, mask, max_osd, depth, attempts, pass + 1);
            if !succeeds(input, mask, depth) {
                if let Err(error) = fallback(
                    llr,
                    saved,
                    mask,
                    max_osd,
                    depth,
                    attempts,
                    pass + 1,
                ) {
                    let p = choose|p: int|
                        pass + 1 <= p < attempts && refusal(
                            #[trigger] attempt_input(llr, saved, max_osd, p),
                            depth,
                        ) == Some(error);
                    assert(refusal(attempt_input(llr, saved, max_osd, p), depth) == Some(error));
                }
            }
        }
    }
}

/// Without attempts of its own the channel itself is the input, and else what was saved.
pub proof fn attempts_work_on_their_input(
    llr: Seq<u32>,
    saved: Seq<[u32; 174]>,
    max_osd: u8,
    pass: int,
)
    ensures
        max_osd == 0 ==> attempt_input(llr, saved, max_osd, pass) == llr,
        max_osd > 0 ==> attempt_input(llr, saved, max_osd, pass) == saved[pass]@,
{
}

// ---------------------------------------------------------------------------
// Distances
// ---------------------------------------------------------------------------

/// The word contradicts the likelihood of bit `i`; zero favors one.
pub open spec fn contradicts_bit(word: Seq<bool>, llr: Seq<u32>, i: int) -> bool {
    word[i] != (llr[i] <= 0x7f80_0000 || llr[i] == 0x8000_0000)
}

/// The distance of a word to the channel goes by the bits that it contradicts: it is no less
/// than any of their magnitudes, zero without any, and does not depend on the others.
pub proof fn channel_distances_go_by_contradictions(
    llr: Seq<u32>,
    other: Seq<u32>,
    word: Seq<bool>,
    n: nat,
)
    requires
        are_light(llr),
        n <= 174,
        forall|i: int|
            0 <= i < n ==> #[trigger] contradicts_bit(word, llr, i) == contradicts_bit(
                word,
                other,
                i,
            ) && (contradicts_bit(word, llr, i) ==> llr[i] % 0x8000_0000 == other[i]
                % 0x8000_0000),
    ensures
        forall|i: int|
            0 <= i < n && #[trigger] contradicts_bit(word, llr, i) ==> llr[i] % 0x8000_0000
                <= channel_distance(llr, word, n),
        (forall|i: int| 0 <= i < n ==> !#[trigger] contradicts_bit(word, llr, i))
            ==> channel_distance(llr, word, n) == 0,
        channel_distance(llr, word, n) == channel_distance(other, word, n),
    decreases n,
{
    if n > 0 {
        channel_distances_go_by_contradictions(llr, other, word, (n - 1) as nat);
        distances_are_bounded(llr, word, (n - 1) as nat);
        let rest = channel_distance(llr, word, (n - 1) as nat);
        let weight = magnitude(llr[n - 1]);
        assert(magnitude(llr[n - 1]) <= LARGEST_MAGNITUDE);
        light_values_are_within_a_part(weight);
        sums_stay_within_parts(rest, (n - 1) as nat, weight, 1);
        sums_are_not_below_their_terms(rest, weight);
        assert(contradicts_bit(word, llr, n - 1) == (word[n - 1] != at_least_zero(llr[n - 1])));
        assert(contradicts_bit(word, other, n - 1) == (word[n - 1] != at_least_zero(other[n - 1])));
        assert forall|i: int| 0 <= i < n && #[trigger] contradicts_bit(word, llr, i) implies llr[i]
            % 0x8000_0000 <= channel_distance(llr, word, n) by {
            if i < n - 1 {
                assert(llr[i] % 0x8000_0000 <= rest);
            }
        }
    }
}

/// The bits below `n` that contradict a metric other than zero.
pub open spec fn wrong_bits(metric: Seq<u32>, word: Seq<bool>, n: int) -> Set<int> {
    Set::new(
        |i: int| 0 <= i < n && contradicts_bit(word, metric, i) && metric[i] % 0x8000_0000 != 0,
    )
}

/// The errors that a hypothesis is told with are those bits.
pub proof fn list_errors_are_counted(metric: Seq<u32>, word: Seq<bool>, n: nat)
    ensures
        wrong_bits(metric, word, n as int).finite(),
        contradicted(metric, word, n) == wrong_bits(metric, word, n as int).len(),
    decreases n,
{
    let all = wrong_bits(metric, word, n as int);
    if n == 0 {
        assert(all =~= Set::empty());
    } else {
        list_errors_are_counted(metric, word, (n - 1) as nat);
        let rest = wrong_bits(metric, word, n - 1);
        assert(contradicts_bit(word, metric, n - 1) == (word[n - 1] != at_least_zero(
            metric[n - 1],
        )));
        assert(zero(metric[n - 1]) == (metric[n - 1] % 0x8000_0000 == 0));
        if contradicts_bit(word, metric, n - 1) && metric[n - 1] % 0x8000_0000 != 0 {
            assert(all =~= rest.insert(n - 1));
        } else {
            assert(all =~= rest);
        }
    }
}

/// A distance in the list is no less than any magnitude that the word contradicts, is
/// infinite where one of them is not finite, and is zero without any.
pub proof fn list_distances_go_by_contradictions(metric: Seq<u32>, word: Seq<bool>, n: nat)
    ensures
        wide_distance(metric, word, n) <= INFINITE,
        forall|i: int|
            0 <= i < n && #[trigger] contradicts_bit(word, metric, i) ==> wide_distance(
                metric,
                word,
                n,
            ) >= (if metric[i] % 0x8000_0000 < INFINITE {
                metric[i] % 0x8000_0000
            } else {
                INFINITE
            }),
        (forall|i: int| 0 <= i < n ==> !#[trigger] contradicts_bit(word, metric, i))
            ==> wide_distance(metric, word, n) == 0,
    decreases n,
{
    if n > 0 {
        list_distances_go_by_contradictions(metric, word, (n - 1) as nat);
        let rest = wide_distance(metric, word, (n - 1) as nat);
        let weight = magnitude(metric[n - 1]);
        assert(contradicts_bit(word, metric, n - 1) == (word[n - 1] != at_least_zero(
            metric[n - 1],
        )));
        crate::sums::wide_sums_are_not_below_their_terms(rest, weight);
        assert forall|i: int| 0 <= i < n && #[trigger] contradicts_bit(
            word,
            metric,
            i,
        ) implies wide_distance(metric, word, n) >= (if metric[i] % 0x8000_0000 < INFINITE {
            metric[i] % 0x8000_0000
        } else {
            INFINITE
        }) by {
            if i < n - 1 {
                assert(contradicts_bit(word, metric, i));
            }
        }
    }
}

/// The runner-up is the least distance among all others.
pub proof fn runners_up_come_next(all: Seq<Fit>, but: int, n: nat)
    requires
        n <= all.len(),
    ensures
        match runner_up(all, but, n) {
            Some(distance) => {
                &&& exists|i: int|
                    0 <= i < n && i != but && (#[trigger] all[i]).distance == distance
                &&& forall|i: int|
                    0 <= i < n && i != but ==> distance <= (#[trigger] all[i]).distance
            },
            None => n == 0 || (n == 1 && but == 0),
        },
    decreases n,
{
    if n > 0 {
        runners_up_come_next(all, but, (n - 1) as nat);
        let before = runner_up(all, but, (n - 1) as nat);
        if n - 1 != but {
            if let Some(distance) = before {
                if distance <= all[n - 1].distance {
                    let i = choose|i: int|
                        0 <= i < n - 1 && i != but && (#[trigger] all[i]).distance == distance;
                    assert(all[i].distance == distance);
                } else {
                    assert(all[n - 1].distance == runner_up(all, but, n)->0);
                }
            } else {
                assert(all[n - 1].distance == runner_up(all, but, n)->0);
            }
        } else if let Some(distance) = before {
            let i = choose|i: int|
                0 <= i < n - 1 && i != but && (#[trigger] all[i]).distance == distance;
            assert(all[i].distance == distance);
        }
    }
}

} // verus!
