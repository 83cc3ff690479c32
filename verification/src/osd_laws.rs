//! What a search by order statistics tries and finds.
use vstd::prelude::*;
use crate::code_laws::word_xor;
use crate::fec::{dot, extend};
use crate::osd::{
    all_trials, are_light, base_word, cleared, closest, decisions, is_codeword, is_mismatch,
    lemma_codeword_sum, magnitude, nothing_comes_closer, parity_mismatches, pivot_place, reduced,
    settled, tally, trial_distance, trials_under, unit_row, BasisModel, TrialModel,
    LARGEST_MAGNITUDE,
};
use crate::reliability::{is_order, swapped};
use crate::sums::{
    added, is_within_parts, light_values_are_within_a_part, parts_only_grow,
    sums_are_not_below_their_terms, sums_stay_within_parts, zero_is_within_no_part,
};
use crate::tables::generator;

verus! {

// ---------------------------------------------------------------------------
// Which words are tried
// ---------------------------------------------------------------------------

/// The places among the 40 behind the basis at which a word contradicts the decisions.
pub open spec fn contradicted_places(
    word: Seq<bool>,
    hard: Seq<bool>,
    order: Seq<usize>,
    n: int,
) -> Set<int> {
    Set::new(|k: int| 91 <= k < 91 + n && word[order[k] as int] != hard[order[k] as int])
}

proof fn lemma_counted_places(word: Seq<bool>, hard: Seq<bool>, order: Seq<usize>, n: nat)
    ensures
        contradicted_places(word, hard, order, n as int).finite(),
        contradicted_places(word, hard, order, n as int).len() == parity_mismatches(
            word,
            hard,
            order,
            n,
        ),
    decreases n,
{
    let all = contradicted_places(word, hard, order, n as int);
    if n == 0 {
        assert(all =~= Set::empty());
    } else {
        let rest = contradicted_places(word, hard, order, n - 1);
        lemma_counted_places(word, hard, order, (n - 1) as nat);
        let k = 91 + n - 1;
        if word[order[k] as int] != hard[order[k] as int] {
            assert(all =~= rest.insert(k));
        } else {
            assert(all =~= rest);
        }
    }
}

/// A trial is among the first ones under a row.
proof fn lemma_tried_under(
    basis: BasisModel,
    hard: Seq<bool>,
    base: Seq<bool>,
    mask: Seq<bool>,
    depth: u8,
    first: int,
    n: nat,
    second: int,
)
    requires
        first - n < second <= first,
        !mask[basis.order[second] as int],
        crate::osd::worth_trying(
            basis,
            hard,
            crate::osd::trial_word(basis, base, first, second),
            depth,
            first,
            second,
        ),
    ensures
        trials_under(basis, hard, base, mask, depth, first, n).contains(
            TrialModel {
                first,
                second,
                codeword: crate::osd::trial_word(basis, base, first, second),
            },
        ),
    decreases n,
{
    let trial = TrialModel {
        first,
        second,
        codeword: crate::osd::trial_word(basis, base, first, second),
    };
    let all = trials_under(basis, hard, base, mask, depth, first, n);
    let rest = trials_under(basis, hard, base, mask, depth, first, (n - 1) as nat);
    if second == first - (n - 1) {
        assert(all.last() == trial);
    } else {
        lemma_tried_under(basis, hard, base, mask, depth, first, (n - 1) as nat, second);
        let k = choose|k: int| 0 <= k < rest.len() && rest[k] == trial;
        assert(all[k] == trial);
    }
}

proof fn lemma_tried(
    basis: BasisModel,
    hard: Seq<bool>,
    base: Seq<bool>,
    mask: Seq<bool>,
    depth: u8,
    n: nat,
    first: int,
    second: int,
)
    requires
        n <= 91,
        91 - n <= first < 91,
        first - crate::osd::seconds(depth, first) < second <= first,
        !mask[basis.order[first] as int],
        !mask[basis.order[second] as int],
        crate::osd::worth_trying(
            basis,
            hard,
            crate::osd::trial_word(basis, base, first, second),
            depth,
            first,
            second,
        ),
    ensures
        all_trials(basis, hard, base, mask, depth, n).contains(
            TrialModel {
                first,
                second,
                codeword: crate::osd::trial_word(basis, base, first, second),
            },
        ),
    decreases n,
{
    let trial = TrialModel {
        first,
        second,
        codeword: crate::osd::trial_word(basis, base, first, second),
    };
    let all = all_trials(basis, hard, base, mask, depth, n);
    let rest = all_trials(basis, hard, base, mask, depth, (n - 1) as nat);
    if first == 91 - n {
        let count = crate::osd::seconds(depth, first) as nat;
        let under = trials_under(basis, hard, base, mask, depth, first, count);
        lemma_tried_under(basis, hard, base, mask, depth, first, count, second);
        let k = choose|k: int| 0 <= k < under.len() && under[k] == trial;
        assert(all[rest.len() + k] == trial);
    } else {
        lemma_tried(basis, hard, base, mask, depth, (n - 1) as nat, first, second);
        let k = choose|k: int| 0 <= k < rest.len() && rest[k] == trial;
        assert(all[k] == trial);
    }
}

/// A word is tried under two rows, which are one for a single row.
pub open spec fn is_tried(
    basis: BasisModel,
    hard: Seq<bool>,
    base: Seq<bool>,
    mask: Seq<bool>,
    depth: u8,
    first: int,
    second: int,
    word: Seq<bool>,
) -> bool {
    all_trials(basis, hard, base, mask, depth, 91).contains(
        TrialModel { first, second, codeword: word },
    )
}

/// At depth one and two every unmasked row is added alone, unless what that gives
/// contradicts more than 11 or 9 decisions in the 40 places behind the basis.
pub proof fn single_rows_are_tried(
    basis: BasisModel,
    hard: Seq<bool>,
    base: Seq<bool>,
    mask: Seq<bool>,
    depth: u8,
    row: int,
)
    requires
        1 <= depth <= 2,
        0 <= row < 91,
        !mask[basis.order[row] as int],
        contradicted_places(word_xor(base, basis.rows[row]), hard, basis.order, 40).len() <= (
        if depth == 1 {
            11int
        } else {
            9
        }),
    ensures
        is_tried(basis, hard, base, mask, depth, row, row, word_xor(base, basis.rows[row])),
{
    lemma_counted_places(word_xor(base, basis.rows[row]), hard, basis.order, 40);
    lemma_tried(basis, hard, base, mask, depth, 91, row, row);
}

/// At depth two every pair of unmasked rows is added, unless what that gives contradicts
/// more than 8 decisions in the 40 places behind the basis.
pub proof fn pairs_of_rows_are_tried(
    basis: BasisModel,
    hard: Seq<bool>,
    base: Seq<bool>,
    mask: Seq<bool>,
    a: int,
    b: int,
)
    requires
        0 <= b < a < 91,
        !mask[basis.order[a] as int],
        !mask[basis.order[b] as int],
        contradicted_places(
            word_xor(word_xor(base, basis.rows[a]), basis.rows[b]),
            hard,
            basis.order,
            40,
        ).len() <= 8,
    ensures
        is_tried(
            basis,
            hard,
            base,
            mask,
            2,
            a,
            b,
            word_xor(word_xor(base, basis.rows[a]), basis.rows[b]),
        ),
{
    let word = word_xor(word_xor(base, basis.rows[a]), basis.rows[b]);
    lemma_counted_places(word, hard, basis.order, 40);
    lemma_tried(basis, hard, base, mask, 2, 91, a, b);
}

/// What every trial is: a sum of one or, at depth two, two unmasked rows with the base word
/// that contradicts few enough decisions behind the basis.
pub open spec fn is_fair_trial(
    basis: BasisModel,
    hard: Seq<bool>,
    base: Seq<bool>,
    mask: Seq<bool>,
    depth: u8,
    t: TrialModel,
) -> bool {
    let count = contradicted_places(t.codeword, hard, basis.order, 40).len();
    &&& 0 <= t.second <= t.first < 91
    &&& !mask[basis.order[t.first] as int]
    &&& !mask[basis.order[t.second] as int]
    &&& t.first == t.second ==> t.codeword == word_xor(base, basis.rows[t.first]) && count <= (
    if depth == 1 {
        11int
    } else {
        9
    })
    &&& t.first != t.second ==> depth == 2 && t.codeword == word_xor(
        word_xor(base, basis.rows[t.first]),
        basis.rows[t.second],
    ) && count <= 8
}

proof fn lemma_fair_under(
    basis: BasisModel,
    hard: Seq<bool>,
    base: Seq<bool>,
    mask: Seq<bool>,
    depth: u8,
    first: int,
    n: nat,
)
    requires
        1 <= depth <= 2,
        0 <= first < 91,
        n <= first + 1,
        depth == 1 ==> n <= 1,
        !mask[basis.order[first] as int],
    ensures
        forall|k: int|
            0 <= k < trials_under(basis, hard, base, mask, depth, first, n).len() ==> is_fair_trial(
                basis,
                hard,
                base,
                mask,
                depth,
                #[trigger] trials_under(basis, hard, base, mask, depth, first, n)[k],
            ),
    decreases n,
{
    if n > 0 {
        let all = trials_under(basis, hard, base, mask, depth, first, n);
        let rest = trials_under(basis, hard, base, mask, depth, first, (n - 1) as nat);
        lemma_fair_under(basis, hard, base, mask, depth, first, (n - 1) as nat);
        let second = first - (n - 1);
        lemma_counted_places(
            crate::osd::trial_word(basis, base, first, second),
            hard,
            basis.order,
            40,
        );
        assert forall|k: int| 0 <= k < all.len() implies is_fair_trial(
            basis,
            hard,
            base,
            mask,
            depth,
            #[trigger] all[k],
        ) by {
            if k < rest.len() {
                assert(all[k] == rest[k]);
            }
        }
    }
}

/// Nothing else is tried, and no row of a masked bit is ever added.
pub proof fn trials_are_fair(
    basis: BasisModel,
    hard: Seq<bool>,
    base: Seq<bool>,
    mask: Seq<bool>,
    depth: u8,
    n: nat,
)
    requires
        1 <= depth <= 2,
        n <= 91,
    ensures
        forall|k: int|
            0 <= k < all_trials(basis, hard, base, mask, depth, n).len() ==> is_fair_trial(
                basis,
                hard,
                base,
                mask,
                depth,
                #[trigger] all_trials(basis, hard, base, mask, depth, n)[k],
            ),
    decreases n,
{
    if n > 0 {
        let all = all_trials(basis, hard, base, mask, depth, n);
        let rest = all_trials(basis, hard, base, mask, depth, (n - 1) as nat);
        trials_are_fair(basis, hard, base, mask, depth, (n - 1) as nat);
        let first = 91 - n;
        let count = crate::osd::seconds(depth, first) as nat;
        if !mask[basis.order[first] as int] {
            lemma_fair_under(basis, hard, base, mask, depth, first, count);
            let under = trials_under(basis, hard, base, mask, depth, first, count);
            assert forall|k: int| 0 <= k < all.len() implies is_fair_trial(
                basis,
                hard,
                base,
                mask,
                depth,
                #[trigger] all[k],
            ) by {
                if k < rest.len() {
                    assert(all[k] == rest[k]);
                } else {
                    assert(all[k] == under[k - rest.len()]);
                }
            }
        }
    }
}

// ---------------------------------------------------------------------------
// Bases of the code
// ---------------------------------------------------------------------------

/// The sum of those of the first `n` rows that are chosen.
pub open spec fn combined(rows: Seq<Seq<bool>>, chosen: Seq<bool>, n: nat) -> Seq<bool>
    decreases n,
{
    if n == 0 {
        Seq::new(174, |i: int| false)
    } else {
        let rest = combined(rows, chosen, (n - 1) as nat);
        if chosen[n - 1] {
            word_xor(rest, rows[n - 1])
        } else {
            rest
        }
    }
}

/// Every codeword is a sum of rows.
pub open spec fn is_spanning(rows: Seq<Seq<bool>>) -> bool {
    forall|word: Seq<bool>| #[trigger] is_codeword(word) ==> is_sum(rows, word)
}

pub open spec fn is_sum(rows: Seq<Seq<bool>>, word: Seq<bool>) -> bool {
    exists|chosen: Seq<bool>| chosen.len() == 91 && #[trigger] combined(rows, chosen, 91) == word
}

proof fn lemma_combined_length(rows: Seq<Seq<bool>>, chosen: Seq<bool>, n: nat)
    ensures
        combined(rows, chosen, n).len() == 174,
    decreases n,
{
    if n > 0 {
        lemma_combined_length(rows, chosen, (n - 1) as nat);
    }
}

proof fn lemma_unit_sum(chosen: Seq<bool>, n: nat, j: int)
    requires
        chosen.len() == 91,
        n <= 91,
        0 <= j < 174,
    ensures
        combined(Seq::new(91, |k: int| unit_row(k)), chosen, n)[j] == (if j < 91 {
            j < n && chosen[j]
        } else {
            dot(chosen, generator(j - 91), n)
        }),
    decreases n,
{
    let rows = Seq::new(91, |k: int| unit_row(k));
    lemma_combined_length(rows, chosen, n);
    if n > 0 {
        lemma_unit_sum(chosen, (n - 1) as nat, j);
        lemma_combined_length(rows, chosen, (n - 1) as nat);
    }
}

/// The rows of the generator matrix are a basis.
proof fn lemma_units_span()
    ensures
        is_spanning(Seq::new(91, |k: int| unit_row(k))),
{
    let rows = Seq::new(91, |k: int| unit_row(k));
    assert forall|word: Seq<bool>| #[trigger] is_codeword(word) implies is_sum(rows, word) by {
        let chosen = word.take(91);
        lemma_combined_length(rows, chosen, 91);
        assert forall|j: int| 0 <= j < 174 implies combined(rows, chosen, 91)[j] == word[j] by {
            lemma_unit_sum(chosen, 91, j);
            assert(word[j] == extend(chosen)[j]);
        }
        assert(combined(rows, chosen, 91) =~= word);
    }
}

/// Parity of the chosen ones among the first `n` rows with a one in a column, but for the
/// pivot.
spec fn cleared_parity(
    rows: Seq<Seq<bool>>,
    chosen: Seq<bool>,
    pivot: int,
    column: int,
    n: nat,
) -> bool
    decreases n,
{
    if n == 0 {
        false
    } else {
        cleared_parity(rows, chosen, pivot, column, (n - 1) as nat) != (chosen[n - 1] && n - 1
            != pivot && rows[n - 1][column])
    }
}

proof fn lemma_cleared_sum(
    rows: Seq<Seq<bool>>,
    chosen: Seq<bool>,
    pivot: int,
    column: int,
    n: nat,
    j: int,
)
    requires
        rows.len() == 91,
        forall|r: int| 0 <= r < 91 ==> (#[trigger] rows[r]).len() == 174,
        0 <= pivot < 91,
        n <= 91,
        0 <= j < 174,
    ensures
        combined(cleared(rows, pivot, column), chosen, n)[j] == (combined(rows, chosen, n)[j] != (
        cleared_parity(rows, chosen, pivot, column, n) && rows[pivot][j])),
    decreases n,
{
    lemma_combined_length(rows, chosen, n);
    lemma_combined_length(cleared(rows, pivot, column), chosen, n);
    if n > 0 {
        lemma_cleared_sum(rows, chosen, pivot, column, (n - 1) as nat, j);
        lemma_combined_length(rows, chosen, (n - 1) as nat);
        lemma_combined_length(cleared(rows, pivot, column), chosen, (n - 1) as nat);
        assert(rows[n - 1].len() == 174);
    }
}

proof fn lemma_same_parity(
    rows: Seq<Seq<bool>>,
    a: Seq<bool>,
    b: Seq<bool>,
    pivot: int,
    column: int,
    n: nat,
)
    requires
        forall|i: int| 0 <= i < n && i != pivot ==> a[i] == b[i],
    ensures
        cleared_parity(rows, a, pivot, column, n) == cleared_parity(rows, b, pivot, column, n),
    decreases n,
{
    if n > 0 {
        lemma_same_parity(rows, a, b, pivot, column, (n - 1) as nat);
    }
}

proof fn lemma_other_choice(
    rows: Seq<Seq<bool>>,
    chosen: Seq<bool>,
    pivot: int,
    flip: bool,
    n: nat,
    j: int,
)
    requires
        rows.len() == 91,
        chosen.len() == 91,
        0 <= pivot < 91,
        n <= 91,
        0 <= j < 174,
    ensures
        combined(rows, chosen.update(pivot, chosen[pivot] != flip), n)[j] == (combined(
            rows,
            chosen,
            n,
        )[j] != (pivot < n && flip && rows[pivot][j])),
    decreases n,
{
    let other = chosen.update(pivot, chosen[pivot] != flip);
    lemma_combined_length(rows, chosen, n);
    lemma_combined_length(rows, other, n);
    if n > 0 {
        lemma_other_choice(rows, chosen, pivot, flip, (n - 1) as nat, j);
        lemma_combined_length(rows, chosen, (n - 1) as nat);
        lemma_combined_length(rows, other, (n - 1) as nat);
    }
}

/// Clearing a column keeps a basis a basis.
proof fn lemma_clearing_spans(rows: Seq<Seq<bool>>, pivot: int, column: int)
    requires
        rows.len() == 91,
        forall|r: int| 0 <= r < 91 ==> (#[trigger] rows[r]).len() == 174,
        0 <= pivot < 91,
        is_spanning(rows),
    ensures
        is_spanning(cleared(rows, pivot, column)),
{
    let after = cleared(rows, pivot, column);
    assert forall|word: Seq<bool>| #[trigger] is_codeword(word) implies is_sum(after, word) by {
        assert(is_sum(rows, word));
        let chosen = choose|chosen: Seq<bool>|
            chosen.len() == 91 && #[trigger] combined(rows, chosen, 91) == word;
        let flip = cleared_parity(rows, chosen, pivot, column, 91);
        let other = chosen.update(pivot, chosen[pivot] != flip);
        lemma_same_parity(rows, chosen, other, pivot, column, 91);
        lemma_combined_length(after, other, 91);
        assert forall|j: int| 0 <= j < 174 implies combined(after, other, 91)[j] == word[j] by {
            lemma_cleared_sum(rows, other, pivot, column, 91, j);
            lemma_other_choice(rows, chosen, pivot, flip, 91, j);
        }
        assert(combined(after, other, 91) =~= word);
    }
}

/// What holds after `n` elimination steps: the rows are codewords that span the code, and
/// the visited bits are all there.
pub open spec fn is_basis(basis: BasisModel) -> bool {
    &&& is_order(basis.order)
    &&& basis.rows.len() == 91
    &&& forall|r: int| 0 <= r < 91 ==> is_codeword(#[trigger] basis.rows[r])
    &&& is_spanning(basis.rows)
}

proof fn lemma_pivot_place(row: Seq<bool>, order: Seq<usize>, from: int)
    requires
        from <= 111,
    ensures
        from <= pivot_place(row, order, from) <= 111,
        pivot_place(row, order, from) < 111 ==> row[order[pivot_place(row, order, from)] as int],
        pivot_place(row, order, from) == 111 ==> forall|p: int|
            from <= p < 111 ==> !row[#[trigger] order[p] as int],
    decreases 111 - from,
{
    if from < 111 && !row[order[from] as int] {
        lemma_pivot_place(row, order, from + 1);
    }
}

/// Row `k` has a one in the column of the bit at place `k`, and no other row has.
pub open spec fn is_settled(basis: BasisModel, k: int) -> bool {
    forall|r: int| 0 <= r < 91 ==> #[trigger] basis.rows[r][basis.order[k] as int] == (r == k)
}

/// After `k` steps, row `k` has a one at one of the places from `k` up to 110.
pub open spec fn has_pivot(llr: Seq<u32>, k: int) -> bool {
    let basis = reduced(llr, k as nat);
    exists|p: int| k <= p < 111 && basis.rows[k][#[trigger] basis.order[p] as int]
}

/// Elimination leaves rows that are codewords and of which every codeword is a sum. Each
/// row that had a one within its window stands alone in the column of its own bit.
pub proof fn elimination_gives_a_basis(llr: Seq<u32>, n: nat)
    requires
        n <= 91,
    ensures
        is_basis(reduced(llr, n)),
        forall|k: int| 0 <= k < n && #[trigger] has_pivot(llr, k) ==> is_settled(reduced(llr, n), k),
    decreases n,
{
    if n == 0 {
        crate::reliability::sorting_keeps_every_item(
            llr.map_values(|bits: u32| crate::osd::magnitude(bits)),
        );
        lemma_units_span();
        assert forall|r: int| 0 <= r < 91 implies is_codeword(#[trigger] unit_row(r)) by {
            crate::code_laws::lemma_unit_row_is_codeword(r);
        }
        let basis = reduced(llr, 0);
        assert forall|r: int| 0 <= r < 91 implies is_codeword(#[trigger] basis.rows[r]) by {
            assert(is_codeword(unit_row(r)));
        }
    } else {
        elimination_gives_a_basis(llr, (n - 1) as nat);
        let pivot = n - 1;
        let before = reduced(llr, pivot as nat);
        let after = reduced(llr, n);
        let place = pivot_place(before.rows[pivot], before.order, pivot);
        lemma_pivot_place(before.rows[pivot], before.order, pivot);
        if place < 111 {
            let column = after.order[pivot] as int;
            assert(before.order[place] as int == column);
            assert(after.order.no_duplicates());
            assert forall|r: int| 0 <= r < 91 implies is_codeword(#[trigger] after.rows[r]) by {
                assert(is_codeword(before.rows[r]) && is_codeword(before.rows[pivot]));
                if r != pivot && before.rows[r][column] {
                    lemma_codeword_sum(before.rows[r], before.rows[pivot]);
                }
            }
            assert forall|r: int| 0 <= r < 91 implies (#[trigger] before.rows[r]).len() == 174 by {
                assert(is_codeword(before.rows[r]));
            }
            lemma_clearing_spans(before.rows, pivot, column);
            assert(after.order == swapped(before.order, pivot, place));
            assert forall|k: int| 0 <= k < n && #[trigger] has_pivot(llr, k) implies is_settled(
                after,
                k,
            ) by {
                assert forall|r: int| 0 <= r < 91 implies #[trigger] after.rows[r][after.order[k] as int]
                    == (r == k) by {
                    let own = after.order[k] as int;
                    assert(own < 174);
                    assert(before.rows[r].len() == 174 && before.rows[pivot].len() == 174);
                    if k < pivot {
                        assert(own == before.order[k] as int);
                        assert(is_settled(before, k));
                        assert(before.rows[r][own] == (r == k));
                        assert(before.rows[pivot][own] == (pivot == k));
                    }
                }
            }
        } else {
            assert(after == before);
            assert forall|k: int| 0 <= k < n && #[trigger] has_pivot(llr, k) implies is_settled(
                after,
                k,
            ) by {
                if k == pivot {
                    let p = choose|p: int|
                        k <= p < 111 && before.rows[k][#[trigger] before.order[p] as int];
                    assert(!before.rows[k][before.order[p] as int]);
                }
            }
        }
    }
}

/// Every row stands alone in the column of its own bit.
pub open spec fn is_complete(basis: BasisModel) -> bool {
    forall|k: int| 0 <= k < 91 ==> #[trigger] is_settled(basis, k)
}

proof fn lemma_settled_sum(basis: BasisModel, chosen: Seq<bool>, n: nat, k: int)
    requires
        is_basis(basis),
        is_settled(basis, k),
        0 <= k < 91,
        n <= 91,
    ensures
        combined(basis.rows, chosen, n)[basis.order[k] as int] == (k < n && chosen[k]),
    decreases n,
{
    let own = basis.order[k] as int;
    assert(own < 174);
    lemma_combined_length(basis.rows, chosen, n);
    if n > 0 {
        lemma_settled_sum(basis, chosen, (n - 1) as nat, k);
        lemma_combined_length(basis.rows, chosen, (n - 1) as nat);
        assert(is_codeword(basis.rows[n - 1]));
        assert(basis.rows[n - 1][own] == (n - 1 == k));
    }
}

proof fn lemma_same_choice(basis: BasisModel, a: Seq<bool>, b: Seq<bool>, n: nat)
    requires
        forall|i: int| 0 <= i < n ==> a[i] == b[i],
    ensures
        combined(basis.rows, a, n) == combined(basis.rows, b, n),
    decreases n,
{
    if n > 0 {
        lemma_same_choice(basis, a, b, (n - 1) as nat);
    }
}

/// A codeword is known by its bits in a complete basis.
pub proof fn basis_bits_determine_a_codeword(basis: BasisModel, a: Seq<bool>, b: Seq<bool>)
    requires
        is_basis(basis),
        is_complete(basis),
        is_codeword(a),
        is_codeword(b),
        forall|k: int| 0 <= k < 91 ==> a[#[trigger] basis.order[k] as int] == b[basis.order[k] as int],
    ensures
        a == b,
{
    assert(is_sum(basis.rows, a) && is_sum(basis.rows, b));
    let x = choose|x: Seq<bool>| x.len() == 91 && #[trigger] combined(basis.rows, x, 91) == a;
    let y = choose|y: Seq<bool>| y.len() == 91 && #[trigger] combined(basis.rows, y, 91) == b;
    assert forall|i: int| 0 <= i < 91 implies x[i] == y[i] by {
        assert(is_settled(basis, i));
        lemma_settled_sum(basis, x, 91, i);
        lemma_settled_sum(basis, y, 91, i);
        assert(a[basis.order[i] as int] == b[basis.order[i] as int]);
    }
    lemma_same_choice(basis, x, y, 91);
}

proof fn lemma_base_bits(basis: BasisModel, hard: Seq<bool>, n: nat, k: int)
    requires
        is_basis(basis),
        is_settled(basis, k),
        0 <= k < 91,
        n <= 91,
    ensures
        base_word(basis, hard, n).len() == 174,
        base_word(basis, hard, n)[basis.order[k] as int] == (k < n && hard[basis.order[k] as int]),
    decreases n,
{
    let own = basis.order[k] as int;
    assert(own < 174);
    if n > 0 {
        lemma_base_bits(basis, hard, (n - 1) as nat, k);
        assert(is_codeword(basis.rows[n - 1]));
        assert(basis.rows[n - 1][own] == (n - 1 == k));
    }
}

proof fn lemma_zero_word()
    ensures
        is_codeword(Seq::new(174, |i: int| false)),
{
    let zero = Seq::new(174, |i: int| false);
    let information = zero.take(91);
    assert forall|i: int| 0 <= i < 83 implies !dot(information, generator(i), 91) by {
        lemma_zero_dot(information, generator(i), 91);
    }
    assert(extend(information) =~= zero);
}

proof fn lemma_zero_dot(bits: Seq<bool>, row: u128, n: nat)
    requires
        n <= bits.len(),
        forall|i: int| 0 <= i < bits.len() ==> !#[trigger] bits[i],
    ensures
        !dot(bits, row, n),
    decreases n,
{
    if n > 0 {
        lemma_zero_dot(bits, row, (n - 1) as nat);
    }
}

proof fn lemma_base_is_codeword(basis: BasisModel, hard: Seq<bool>, n: nat)
    requires
        is_basis(basis),
        n <= 91,
    ensures
        is_codeword(base_word(basis, hard, n)),
    decreases n,
{
    if n == 0 {
        lemma_zero_word();
    } else {
        lemma_base_is_codeword(basis, hard, (n - 1) as nat);
        assert(is_codeword(basis.rows[n - 1]));
        lemma_codeword_sum(base_word(basis, hard, (n - 1) as nat), basis.rows[n - 1]);
    }
}

/// The base word is the codeword that agrees with every decision in a complete basis.
pub proof fn base_words_agree_with_the_basis(basis: BasisModel, hard: Seq<bool>)
    requires
        is_basis(basis),
        is_complete(basis),
    ensures
        is_codeword(base_word(basis, hard, 91)),
        forall|k: int|
            0 <= k < 91 ==> base_word(basis, hard, 91)[#[trigger] basis.order[k] as int]
                == hard[basis.order[k] as int],
{
    lemma_base_is_codeword(basis, hard, 91);
    assert forall|k: int| 0 <= k < 91 implies base_word(basis, hard, 91)[#[trigger] basis.order[k] as int]
        == hard[basis.order[k] as int] by {
        assert(is_settled(basis, k));
        lemma_base_bits(basis, hard, 91, k);
    }
}

/// A codeword contradicts the decisions of the basis at the given places and at no others.
pub open spec fn is_wrong_at(
    basis: BasisModel,
    hard: Seq<bool>,
    word: Seq<bool>,
    a: int,
    b: int,
) -> bool {
    forall|k: int|
        0 <= k < 91 ==> ((word[#[trigger] basis.order[k] as int] != hard[basis.order[k] as int]) <==> (k
            == a || k == b))
}

/// A codeword that contradicts the decisions of a complete basis at two places is the base
/// word with the rows of those places added.
proof fn lemma_two_rows(basis: BasisModel, hard: Seq<bool>, word: Seq<bool>, a: int, b: int)
    requires
        is_basis(basis),
        is_complete(basis),
        is_codeword(word),
        0 <= b <= a < 91,
        is_wrong_at(basis, hard, word, a, b),
    ensures
        a == b ==> word == word_xor(base_word(basis, hard, 91), basis.rows[a]),
        a != b ==> word == word_xor(
            word_xor(base_word(basis, hard, 91), basis.rows[a]),
            basis.rows[b],
        ),
{
    let base = base_word(basis, hard, 91);
    base_words_agree_with_the_basis(basis, hard);
    assert(is_codeword(basis.rows[a]) && is_codeword(basis.rows[b]));
    let single = word_xor(base, basis.rows[a]);
    lemma_codeword_sum(base, basis.rows[a]);
    lemma_codeword_sum(single, basis.rows[b]);
    let sum = if a == b {
        single
    } else {
        word_xor(single, basis.rows[b])
    };
    assert forall|k: int| 0 <= k < 91 implies word[#[trigger] basis.order[k] as int]
        == sum[basis.order[k] as int] by {
        let own = basis.order[k] as int;
        assert(own < 174);
        assert(is_settled(basis, k));
        assert(basis.rows[a][own] == (a == k));
        assert(basis.rows[b][own] == (b == k));
        assert(base[own] == hard[own]);
    }
    basis_bits_determine_a_codeword(basis, word, sum);
}

// ---------------------------------------------------------------------------
// What is found
// ---------------------------------------------------------------------------

/// What the search of a likelihood sequence works with.
pub open spec fn basis_of(llr: Seq<u32>) -> BasisModel {
    reduced(llr, 91)
}

/// The search settles on something that is no further than a word tried under two rows.
pub open spec fn is_considered(
    llr: Seq<u32>,
    mask: Seq<bool>,
    depth: u8,
    word: Seq<bool>,
    a: int,
    b: int,
) -> bool {
    settled(llr, mask, depth).distance <= trial_distance(
        llr,
        basis_of(llr).order,
        decisions(llr),
        TrialModel { first: a, second: b, codeword: word },
    )
}

proof fn lemma_tried_is_considered(
    llr: Seq<u32>,
    mask: Seq<bool>,
    depth: u8,
    word: Seq<bool>,
    a: int,
    b: int,
)
    requires
        1 <= depth <= 2,
        is_tried(
            basis_of(llr),
            decisions(llr),
            base_word(basis_of(llr), decisions(llr), 91),
            mask,
            depth,
            a,
            b,
            word,
        ),
    ensures
        is_considered(llr, mask, depth, word, a, b),
{
    let basis = basis_of(llr);
    let hard = decisions(llr);
    let base = base_word(basis, hard, 91);
    let trials = all_trials(basis, hard, base, mask, depth, 91);
    nothing_comes_closer(llr, basis.order, hard, base, trials, trials.len());
    let trial = TrialModel { first: a, second: b, codeword: word };
    let k = choose|k: int| 0 <= k < trials.len() && trials[k] == trial;
    assert(trials[k] == trial);
}

/// A codeword with one wrong bit in the basis is considered at depth one and two, and one
/// with two wrong bits at depth two, whichever unmasked bits these are, provided that the
/// 40 places behind the basis contradict it at most 11 and 9, or 8 times.
pub proof fn wrong_basis_bits_are_considered(
    llr: Seq<u32>,
    mask: Seq<bool>,
    depth: u8,
    word: Seq<bool>,
    a: int,
    b: int,
)
    requires
        1 <= depth <= 2,
        forall|k: int| 0 <= k < 91 ==> #[trigger] has_pivot(llr, k),
        is_codeword(word),
        0 <= b <= a < 91,
        is_wrong_at(basis_of(llr), decisions(llr), word, a, b),
        !mask[basis_of(llr).order[a] as int],
        !mask[basis_of(llr).order[b] as int],
        a != b ==> depth == 2,
        contradicted_places(word, decisions(llr), basis_of(llr).order, 40).len() <= (if a != b {
            8int
        } else if depth == 2 {
            9
        } else {
            11
        }),
    ensures
        is_considered(llr, mask, depth, word, a, b),
{
    let basis = basis_of(llr);
    let hard = decisions(llr);
    let base = base_word(basis, hard, 91);
    elimination_gives_a_basis(llr, 91);
    assert(is_complete(basis)) by {
        assert forall|k: int| 0 <= k < 91 implies #[trigger] is_settled(basis, k) by {
            assert(has_pivot(llr, k));
        }
    }
    lemma_two_rows(basis, hard, word, a, b);
    if a == b {
        single_rows_are_tried(basis, hard, base, mask, depth, a);
    } else {
        pairs_of_rows_are_tried(basis, hard, base, mask, a, b);
    }
    lemma_tried_is_considered(llr, mask, depth, word, a, b);
}

/// Where the decisions of the basis are right, the codeword they belong to is what every
/// depth starts from: the search settles on it, or on something closer.
pub proof fn right_basis_bits_are_considered(
    llr: Seq<u32>,
    mask: Seq<bool>,
    depth: u8,
    word: Seq<bool>,
)
    requires
        depth <= 2,
        forall|k: int| 0 <= k < 91 ==> #[trigger] has_pivot(llr, k),
        is_codeword(word),
        forall|k: int|
            0 <= k < 91 ==> word[#[trigger] basis_of(llr).order[k] as int] == decisions(
                llr,
            )[basis_of(llr).order[k] as int],
    ensures
        settled(llr, mask, 0).codeword == word,
        settled(llr, mask, depth).distance <= settled(llr, mask, 0).distance,
{
    let basis = basis_of(llr);
    let hard = decisions(llr);
    let base = base_word(basis, hard, 91);
    elimination_gives_a_basis(llr, 91);
    assert(is_complete(basis)) by {
        assert forall|k: int| 0 <= k < 91 implies #[trigger] is_settled(basis, k) by {
            assert(has_pivot(llr, k));
        }
    }
    base_words_agree_with_the_basis(basis, hard);
    basis_bits_determine_a_codeword(basis, word, base);
    let trials = if depth == 0 {
        Seq::empty()
    } else {
        all_trials(basis, hard, base, mask, depth, 91)
    };
    nothing_comes_closer(llr, basis.order, hard, base, trials, trials.len());
}

// ---------------------------------------------------------------------------
// Distances
// ---------------------------------------------------------------------------

/// The magnitude of the bit at place `k` of an order.
pub open spec fn weight_of(llr: Seq<u32>, order: Seq<usize>, k: int) -> u32 {
    llr[order[k] as int] % 0x8000_0000
}

/// The word contradicts the decision at place `k` of an order.
pub open spec fn contradicts_at(
    word: Seq<bool>,
    hard: Seq<bool>,
    order: Seq<usize>,
    k: int,
) -> bool {
    word[order[k] as int] != hard[order[k] as int]
}

proof fn lemma_tally(
    llr: Seq<u32>,
    order: Seq<usize>,
    word: Seq<bool>,
    hard: Seq<bool>,
    start: int,
    n: int,
)
    requires
        are_light(llr),
        is_order(order),
        0 <= start <= n <= 174,
    ensures
        is_within_parts(tally(llr, order, word, hard, start, n), (n - start) as nat),
        forall|k: int|
            start <= k < n && #[trigger] contradicts_at(word, hard, order, k) ==> weight_of(
                llr,
                order,
                k,
            ) <= tally(llr, order, word, hard, start, n),
        (forall|k: int| start <= k < n ==> !#[trigger] contradicts_at(word, hard, order, k))
            ==> tally(llr, order, word, hard, start, n) == 0,
    decreases n,
{
    if n == start {
        zero_is_within_no_part();
    } else {
        lemma_tally(llr, order, word, hard, start, n - 1);
        let rest = tally(llr, order, word, hard, start, n - 1);
        let weight = weight_of(llr, order, n - 1);
        assert(order[n - 1] < 174);
        assert(magnitude(llr[order[n - 1] as int]) <= LARGEST_MAGNITUDE);
        light_values_are_within_a_part(weight);
        sums_stay_within_parts(rest, (n - 1 - start) as nat, weight, 1);
        parts_only_grow(rest, (n - 1 - start) as nat, (n - start) as nat);
        sums_are_not_below_their_terms(rest, weight);
        if contradicts_at(word, hard, order, n - 1) {
            assert(tally(llr, order, word, hard, start, n) == added(rest, weight));
        }
        assert forall|k: int|
            start <= k < n && #[trigger] contradicts_at(word, hard, order, k) implies weight_of(
            llr,
            order,
            k,
        ) <= tally(llr, order, word, hard, start, n) by {
            if k < n - 1 {
                assert(weight_of(llr, order, k) <= rest);
            }
        }
    }
}

proof fn lemma_same_tally(
    llr: Seq<u32>,
    other: Seq<u32>,
    order: Seq<usize>,
    word: Seq<bool>,
    hard: Seq<bool>,
    start: int,
    n: int,
)
    requires
        0 <= start,
        forall|k: int|
            start <= k < n && #[trigger] contradicts_at(word, hard, order, k) ==> weight_of(
                llr,
                order,
                k,
            ) == weight_of(other, order, k),
    ensures
        tally(llr, order, word, hard, start, n) == tally(other, order, word, hard, start, n),
    decreases n,
{
    if n > start {
        lemma_same_tally(llr, other, order, word, hard, start, n - 1);
        if n > 0 && is_mismatch(word, hard, order, n - 1) {
            assert(contradicts_at(word, hard, order, n - 1));
        }
    }
}

/// The base word is as far as the bits that it contradicts: no less far than any of them,
/// not at all without any, and whatever the others are.
pub proof fn base_distances_go_by_contradictions(
    llr: Seq<u32>,
    other: Seq<u32>,
    order: Seq<usize>,
    word: Seq<bool>,
    hard: Seq<bool>,
)
    requires
        are_light(llr),
        is_order(order),
        forall|k: int|
            0 <= k < 174 && #[trigger] contradicts_at(word, hard, order, k) ==> weight_of(
                llr,
                order,
                k,
            ) == weight_of(other, order, k),
    ensures
        ({
            let none = Seq::<TrialModel>::empty();
            let distance = closest(llr, order, hard, word, none, 0).distance;
            &&& forall|k: int|
                0 <= k < 174 && #[trigger] contradicts_at(word, hard, order, k) ==> weight_of(
                    llr,
                    order,
                    k,
                ) <= distance
            &&& (forall|k: int| 0 <= k < 174 ==> !#[trigger] contradicts_at(word, hard, order, k))
                ==> distance == 0
            &&& distance == closest(other, order, hard, word, none, 0).distance
        }),
{
    lemma_tally(llr, order, word, hard, 0, 174);
    lemma_same_tally(llr, other, order, word, hard, 0, 174);
}

/// A trial is as far as the bit of its first row, that of its second row where the trial
/// contradicts it, and the bits behind the basis that it contradicts: no less far than any
/// of them, as far as the first without others, and whatever all the others are.
pub proof fn trial_distances_go_by_contradictions(
    llr: Seq<u32>,
    other: Seq<u32>,
    order: Seq<usize>,
    hard: Seq<bool>,
    trial: TrialModel,
)
    requires
        are_light(llr),
        is_order(order),
        0 <= trial.second <= trial.first < 91,
        forall|k: int|
            0 <= k < 174 && (k == trial.first || #[trigger] contradicts_at(
                trial.codeword,
                hard,
                order,
                k,
            )) ==> weight_of(llr, order, k) == weight_of(other, order, k),
    ensures
        ({
            let word = trial.codeword;
            let distance = trial_distance(llr, order, hard, trial);
            &&& weight_of(llr, order, trial.first) <= distance
            &&& contradicts_at(word, hard, order, trial.second) ==> weight_of(
                llr,
                order,
                trial.second,
            ) <= distance
            &&& forall|k: int|
                91 <= k < 174 && #[trigger] contradicts_at(word, hard, order, k) ==> weight_of(
                    llr,
                    order,
                    k,
                ) <= distance
            &&& (trial.first == trial.second && forall|k: int|
                91 <= k < 174 ==> !#[trigger] contradicts_at(word, hard, order, k)) ==> distance
                == weight_of(llr, order, trial.first)
            &&& distance == trial_distance(other, order, hard, trial)
        }),
{
    let word = trial.codeword;
    lemma_tally(llr, order, word, hard, 91, 174);
    lemma_same_tally(llr, other, order, word, hard, 91, 174);
    let behind = tally(llr, order, word, hard, 91, 174);
    let first = weight_of(llr, order, trial.first);
    let second = weight_of(llr, order, trial.second);
    assert(order[trial.first] < 174 && order[trial.second] < 174);
    assert(magnitude(llr[order[trial.first] as int]) <= LARGEST_MAGNITUDE);
    assert(magnitude(llr[order[trial.second] as int]) <= LARGEST_MAGNITUDE);
    light_values_are_within_a_part(first);
    light_values_are_within_a_part(second);
    sums_stay_within_parts(first, 1, second, 1);
    sums_are_not_below_their_terms(first, second);
    parts_only_grow(first, 1, 2);
    assert(contradicts_at(word, hard, order, trial.second) == is_mismatch(
        word,
        hard,
        order,
        trial.second,
    ));
    assert(contradicts_at(word, hard, order, trial.first) || weight_of(llr, order, trial.first)
        == weight_of(other, order, trial.first));
    assert(first == weight_of(other, order, trial.first));
    let rows = if trial.second != trial.first && is_mismatch(word, hard, order, trial.second) {
        added(first, second)
    } else {
        first
    };
    sums_stay_within_parts(rows, 2, behind, 83);
    sums_are_not_below_their_terms(rows, behind);
    if behind == 0 {
        crate::sums::zero_adds_nothing(rows);
    }
}

/// The search settles on the base word or on one of the trials, and on the base word only
/// where no trial is closer.
pub proof fn the_choice_is_one_of_them(
    llr: Seq<u32>,
    order: Seq<usize>,
    hard: Seq<bool>,
    base: Seq<bool>,
    trials: Seq<TrialModel>,
    n: nat,
)
    requires
        n <= trials.len(),
    ensures
        ({
            let choice = closest(llr, order, hard, base, trials, n);
            let own = closest(llr, order, hard, base, trials, 0);
            ||| choice == own && forall|t: int|
                0 <= t < n ==> own.distance <= trial_distance(llr, order, hard, #[trigger] trials[t])
            ||| exists|t: int|
                0 <= t < n && choice.codeword == (#[trigger] trials[t]).codeword && choice.distance
                    == trial_distance(llr, order, hard, trials[t]) && choice.distance < own.distance
        }),
    decreases n,
{
    if n > 0 {
        the_choice_is_one_of_them(llr, order, hard, base, trials, (n - 1) as nat);
        let before = closest(llr, order, hard, base, trials, (n - 1) as nat);
        let own = closest(llr, order, hard, base, trials, 0);
        let distance = trial_distance(llr, order, hard, trials[n - 1]);
        if distance < before.distance {
            nothing_comes_closer(llr, order, hard, base, trials, (n - 1) as nat);
            assert(trials[n - 1].codeword == closest(llr, order, hard, base, trials, n).codeword);
        } else if before != own || !(forall|t: int|
            0 <= t < n - 1 ==> own.distance <= trial_distance(llr, order, hard, #[trigger] trials[t])) {
            let t = choose|t: int|
                0 <= t < n - 1 && before.codeword == (#[trigger] trials[t]).codeword
                    && before.distance == trial_distance(llr, order, hard, trials[t])
                    && before.distance < own.distance;
            assert(trials[t].codeword == closest(llr, order, hard, base, trials, n).codeword);
        }
    }
}

} // verus!
