//! Ordered-statistics decoding of the (174, 91) code with optional masks of
//! assumed bits. All 14 CRC bits detect errors. Likelihoods are bit patterns of
//! single precision values; rows and candidates stand in transmitted bit order.
use vstd::prelude::*;
use vstd::string::*;
use crate::code_laws::{code_is_linear, lemma_unit_row_is_codeword, word_xor};
use crate::fec::{
    accepted, crc_holds, crc_matches, encoded, extend, first_invalid, no_evidence, payload, row_bit,
    with_crc, InvalidLlr,
};
use crate::reliability::{ascending, indexx, is_order, swapped};
use crate::single::{at_least_zero, finite, is_at_least_zero, zero};
use crate::sums::{
    added, is_within_parts, light_values_are_within_a_part, parts_only_grow, plus,
    sums_stay_within_parts, zero_is_within_no_part,
};
use crate::tables::{generator, generator_row};
use crate::text::{append_decimal, decimal};

verus! {

#[derive(Debug, Clone, PartialEq, Eq)]
pub struct Decoded {
    pub message: [bool; 77],
    pub codeword: [bool; 174],
    /// Mismatches with the OSD input's hard decisions (zero favors one).
    pub hard_errors: usize,
    /// Bit pattern of the weighted search score.
    pub distance: u32,
}

#[derive(Debug, Clone, Copy, PartialEq, Eq)]
pub enum DecodeError {
    InvalidLlr(InvalidLlr),
    UnsupportedDepth(u8),
    UnsupportedMaxOsd(u8),
    /// Input magnitudes cannot safely support bounded sums.
    LikelihoodOverflow,
}

impl DecodeError {
    pub open spec fn spec_text(self) -> Seq<char> {
        match self {
            DecodeError::InvalidLlr(error) => error.spec_text(),
            DecodeError::UnsupportedDepth(depth) => "unsupported OSD depth "@ + decimal(
                depth as nat,
            ) + "; supported: 0..=2"@,
            DecodeError::UnsupportedMaxOsd(passes) => "unsupported max_osd "@ + decimal(
                passes as nat,
            ) + "; supported: 0..=3"@,
            DecodeError::LikelihoodOverflow =>
                "likelihood magnitudes exceed safe f32 accumulation range"@,
        }
    }

    /// The error as a sentence.
    pub fn text(&self) -> (r: String)
        ensures
            r@ == self.spec_text(),
    {
        match self {
            DecodeError::InvalidLlr(error) => error.text(),
            DecodeError::UnsupportedDepth(depth) => {
                let mut out: String = "unsupported OSD depth ".to_owned();
                append_decimal(&mut out, *depth as u64);
                out.append("; supported: 0..=2");
                out
            },
            DecodeError::UnsupportedMaxOsd(passes) => {
                let mut out: String = "unsupported max_osd ".to_owned();
                append_decimal(&mut out, *passes as u64);
                out.append("; supported: 0..=3");
                out
            },
            DecodeError::LikelihoodOverflow => "likelihood magnitudes exceed safe f32 accumulation range".to_owned(),
        }
    }
}

/// Bit pattern of the largest magnitude with headroom for every sum: the
/// greatest finite value divided by 4096.
pub const LARGEST_MAGNITUDE: u32 = 0x797f_ffff;

/// The magnitude part of a bit pattern.
pub open spec fn magnitude(bits: u32) -> u32 {
    (bits % 0x8000_0000) as u32
}

/// The first likelihood from `from` on that is not finite; 174 without one.
pub open spec fn first_nonfinite(llr: Seq<u32>, from: int) -> int
    decreases 174 - from,
{
    if from >= 174 || !finite(llr[from]) {
        from
    } else {
        first_nonfinite(llr, from + 1)
    }
}

/// Every likelihood is finite and leaves room for sums.
pub open spec fn are_light(llr: Seq<u32>) -> bool {
    forall|i: int| 0 <= i < 174 ==> magnitude(#[trigger] llr[i]) <= LARGEST_MAGNITUDE
}

/// Why likelihoods are not decoded, if so: the search depth, the first that is not
/// finite, or one that is too large.
pub open spec fn refusal(llr: Seq<u32>, depth: u8) -> Option<DecodeError> {
    if depth > 2 {
        Some(DecodeError::UnsupportedDepth(depth))
    } else if first_nonfinite(llr, 0) < 174 {
        Some(
            DecodeError::InvalidLlr(InvalidLlr { index: first_nonfinite(llr, 0) as usize }),
        )
    } else if !are_light(llr) {
        Some(DecodeError::LikelihoodOverflow)
    } else {
        None
    }
}

proof fn lemma_first_nonfinite(llr: Seq<u32>, from: int, index: int)
    requires
        0 <= from <= index <= 174,
        index < 174 ==> !finite(llr[index]),
        forall|i: int| from <= i < index ==> finite(#[trigger] llr[i]),
    ensures
        first_nonfinite(llr, from) == index,
    decreases index - from,
{
    if from < index {
        assert(finite(llr[from]));
        lemma_first_nonfinite(llr, from + 1, index);
    }
}

/// Checks the search depth first, then that every likelihood is finite, then
/// that none is too large.
pub fn validate(llr: &[u32; 174], depth: u8) -> (r: Result<(), DecodeError>)
    ensures
        match r {
            Ok(_) => refusal(llr@, depth) is None && are_light(llr@),
            Err(error) => refusal(llr@, depth) == Some(error),
        },
{
    if depth > 2 {
        return Err(DecodeError::UnsupportedDepth(depth));
    }
    match first_invalid(llr) {
        Err(error) => {
            proof {
                lemma_first_nonfinite(llr@, 0, error.index as int);
            }
            return Err(DecodeError::InvalidLlr(error));
        },
        Ok(_) => {},
    }
    proof {
        lemma_first_nonfinite(llr@, 0, 174);
    }
    let mut i: usize = 0;
    while i < 174
        invariant
            i <= 174,
            depth <= 2,
            first_nonfinite(llr@, 0) == 174,
            forall|k: int| 0 <= k < i ==> magnitude(#[trigger] llr@[k]) <= LARGEST_MAGNITUDE,
        decreases 174 - i,
    {
        if llr[i] % 0x8000_0000 > LARGEST_MAGNITUDE {
            assert(magnitude(llr@[i as int]) > LARGEST_MAGNITUDE);
            return Err(DecodeError::LikelihoodOverflow);
        }
        i = i + 1;
    }
    Ok(())
}

// ---------------------------------------------------------------------------
// The information basis
// ---------------------------------------------------------------------------

/// Codeword of the information word whose only one stands at `k`.
pub open spec fn unit_row(k: int) -> Seq<bool> {
    Seq::new(
        174,
        |j: int|
            if j < 91 {
                j == k
            } else {
                row_bit(generator(j - 91), k)
            },
    )
}

/// Bit numbers from the most to the least reliable.
pub open spec fn descending(llr: Seq<u32>) -> Seq<usize> {
    ascending(llr.map_values(|bits: u32| magnitude(bits))).reverse()
}

/// The rows of a basis and the order in which bits are visited.
pub struct BasisModel {
    pub order: Seq<usize>,
    pub rows: Seq<Seq<bool>>,
}

/// The first place from `from` up to the pivot window's end, place 111, at which
/// `row` has a one; 111 where there is none.
pub open spec fn pivot_place(row: Seq<bool>, order: Seq<usize>, from: int) -> int
    decreases 111 - from,
{
    if from >= 111 {
        111
    } else if row[order[from] as int] {
        from
    } else {
        pivot_place(row, order, from + 1)
    }
}

/// Every other row with a one in the pivot's column gets the pivot row added.
pub open spec fn cleared(rows: Seq<Seq<bool>>, pivot: int, column: int) -> Seq<Seq<bool>> {
    Seq::new(
        rows.len(),
        |r: int|
            if r != pivot && rows[r][column] {
                word_xor(rows[r], rows[pivot])
            } else {
                rows[r]
            },
    )
}

/// One elimination step. A row without a one inside the window is left as it is.
pub open spec fn reduced_once(basis: BasisModel, pivot: int) -> BasisModel {
    let place = pivot_place(basis.rows[pivot], basis.order, pivot);
    if place >= 111 {
        basis
    } else {
        let order = swapped(basis.order, pivot, place);
        BasisModel { order, rows: cleared(basis.rows, pivot, order[pivot] as int) }
    }
}

/// The basis after elimination steps `0..n`.
pub open spec fn reduced(llr: Seq<u32>, n: nat) -> BasisModel
    decreases n,
{
    if n == 0 {
        BasisModel { order: descending(llr), rows: Seq::new(91, |k: int| unit_row(k)) }
    } else {
        reduced_once(reduced(llr, (n - 1) as nat), n - 1)
    }
}

/// Sum of the rows among the first `n` whose own bit is decided as a one.
pub open spec fn base_word(basis: BasisModel, hard: Seq<bool>, n: nat) -> Seq<bool>
    decreases n,
{
    if n == 0 {
        Seq::new(174, |i: int| false)
    } else {
        let rest = base_word(basis, hard, (n - 1) as nat);
        if hard[basis.order[n - 1] as int] {
            word_xor(rest, basis.rows[n - 1])
        } else {
            rest
        }
    }
}

/// The hard decisions; zero favors one.
pub open spec fn decisions(llr: Seq<u32>) -> Seq<bool> {
    llr.map_values(|bits: u32| at_least_zero(bits))
}

/// A word of the code.
pub open spec fn is_codeword(word: Seq<bool>) -> bool {
    word.len() == 174 && word == extend(word.take(91))
}

pub proof fn lemma_codeword_sum(a: Seq<bool>, b: Seq<bool>)
    requires
        is_codeword(a),
        is_codeword(b),
    ensures
        is_codeword(word_xor(a, b)),
{
    code_is_linear(a.take(91), b.take(91));
    assert(word_xor(a, b).take(91) =~= word_xor(a.take(91), b.take(91)));
}

proof fn lemma_swap_keeps_order(order: Seq<usize>, a: int, b: int)
    requires
        is_order(order),
        0 <= a < 174,
        0 <= b < 174,
    ensures
        is_order(swapped(order, a, b)),
{
}

/// The trial words of one input.
pub struct Search {
    order: Vec<usize>,
    rows: Vec<[bool; 174]>,
    hard: [bool; 174],
    base: [bool; 174],
}

/// A trial that was not pruned: the codeword and the basis rows added to the
/// base word. One row was added where `first` and `second` are equal.
#[derive(Debug, Clone, PartialEq, Eq)]
pub struct Trial {
    pub first: usize,
    pub second: usize,
    pub codeword: [bool; 174],
}

fn xor(a: &[bool; 174], b: &[bool; 174]) -> (r: [bool; 174])
    ensures
        r@ == word_xor(a@, b@),
{
    let mut out: [bool; 174] = [false; 174];
    let mut i: usize = 0;
    while i < 174
        invariant
            i <= 174,
            out@.len() == 174,
            forall|k: int| 0 <= k < i ==> out@[k] == (a@[k] != b@[k]),
        decreases 174 - i,
    {
        out[i] = a[i] != b[i];
        i = i + 1;
    }
    assert(out@ =~= word_xor(a@, b@));
    out
}

fn unit(k: usize) -> (r: [bool; 174])
    requires
        k < 91,
    ensures
        r@ == unit_row(k as int),
{
    let mut row: [bool; 174] = [false; 174];
    let mut j: usize = 0;
    while j < 174
        invariant
            j <= 174,
            k < 91,
            row@.len() == 174,
            forall|i: int| 0 <= i < j ==> row@[i] == unit_row(k as int)[i],
        decreases 174 - j,
    {
        if j < 91 {
            row[j] = j == k;
        } else {
            let shift: u128 = 90 - k as u128;
            row[j] = (generator_row(j - 91) >> shift) & 1 == 1;
        }
        j = j + 1;
    }
    assert(row@ =~= unit_row(k as int));
    row
}

spec fn rows_view(rows: Seq<[bool; 174]>) -> Seq<Seq<bool>> {
    rows.map_values(|row: [bool; 174]| row@)
}

fn find_pivot(row: &[bool; 174], order: &Vec<usize>, pivot: usize) -> (r: usize)
    requires
        is_order(order@),
        pivot < 91,
    ensures
        r == pivot_place(row@, order@, pivot as int),
        pivot <= r <= 111,
        r < 111 ==> row@[order@[r as int] as int],
{
    let mut place: usize = pivot;
    while place < 111 && !row[order[place]]
        invariant
            is_order(order@),
            pivot <= place <= 111,
            pivot_place(row@, order@, pivot as int) == pivot_place(row@, order@, place as int),
        decreases 111 - place,
    {
        place = place + 1;
    }
    place
}

fn clear_column(rows: &mut Vec<[bool; 174]>, pivot: usize, column: usize)
    requires
        old(rows).len() == 91,
        pivot < 91,
        column < 174,
        forall|r: int| 0 <= r < 91 ==> is_codeword(#[trigger] rows_view(old(rows)@)[r]),
    ensures
        final(rows).len() == 91,
        rows_view(final(rows)@) == cleared(rows_view(old(rows)@), pivot as int, column as int),
        forall|r: int| 0 <= r < 91 ==> is_codeword(#[trigger] rows_view(final(rows)@)[r]),
{
    let ghost start = rows_view(rows@);
    let row: [bool; 174] = rows[pivot];
    let mut r: usize = 0;
    assert(row@ == start[pivot as int]);
    assert forall|k: int| 0 <= k < 91 implies is_codeword(#[trigger] rows@[k]@) by {
        assert(is_codeword(start[k]));
    }
    while r < 91
        invariant
            r <= 91,
            pivot < 91,
            column < 174,
            rows.len() == 91,
            start.len() == 91,
            row@ == start[pivot as int],
            is_codeword(row@),
            forall|k: int| 0 <= k < 91 ==> is_codeword(#[trigger] start[k]),
            forall|k: int|
                0 <= k < r ==> #[trigger] rows@[k]@ == cleared(
                    start,
                    pivot as int,
                    column as int,
                )[k],
            forall|k: int| r <= k < 91 ==> #[trigger] rows@[k]@ == start[k],
            forall|k: int| 0 <= k < 91 ==> is_codeword(#[trigger] rows@[k]@),
        decreases 91 - r,
    {
        if r != pivot && rows[r][column] {
            let sum: [bool; 174] = xor(&rows[r], &row);
            proof {
                assert(is_codeword(rows@[r as int]@));
                lemma_codeword_sum(rows@[r as int]@, row@);
            }
            rows[r] = sum;
        }
        r = r + 1;
    }
    assert(rows_view(rows@) =~= cleared(start, pivot as int, column as int));
}

fn hard_decisions(llr: &[u32; 174]) -> (r: [bool; 174])
    ensures
        r@ == decisions(llr@),
{
    let mut hard: [bool; 174] = [false; 174];
    let mut i: usize = 0;
    while i < 174
        invariant
            i <= 174,
            hard@.len() == 174,
            forall|k: int| 0 <= k < i ==> hard@[k] == at_least_zero(llr@[k]),
        decreases 174 - i,
    {
        hard[i] = is_at_least_zero(llr[i]);
        i = i + 1;
    }
    assert(hard@ =~= decisions(llr@));
    hard
}

fn by_reliability(llr: &[u32; 174]) -> (r: Vec<usize>)
    ensures
        r@ == descending(llr@),
        is_order(r@),
{
    let mut keys: [u32; 174] = [0; 174];
    let mut i: usize = 0;
    while i < 174
        invariant
            i <= 174,
            keys@.len() == 174,
            forall|k: int| 0 <= k < i ==> keys@[k] == magnitude(llr@[k]),
        decreases 174 - i,
    {
        keys[i] = llr[i] % 0x8000_0000;
        i = i + 1;
    }
    assert(keys@ =~= llr@.map_values(|bits: u32| magnitude(bits)));
    let rising: Vec<usize> = indexx(&keys);
    let mut order: Vec<usize> = Vec::new();
    let mut j: usize = 0;
    while j < 174
        invariant
            j <= 174,
            is_order(rising@),
            order.len() == j,
            forall|k: int| 0 <= k < j ==> #[trigger] order@[k] == rising@[173 - k],
        decreases 174 - j,
    {
        order.push(rising[173 - j]);
        j = j + 1;
    }
    assert(order@ =~= rising@.reverse());
    order
}

/// What the depth allows: no trial at depth zero, single rows at depth one,
/// and pairs of rows beyond.
pub open spec fn seconds(depth: u8, first: int) -> int {
    if depth == 1 {
        1
    } else {
        first + 1
    }
}

/// The codeword of a trial.
pub open spec fn trial_word(basis: BasisModel, base: Seq<bool>, first: int, second: int) -> Seq<
    bool,
> {
    let single = word_xor(base, basis.rows[first]);
    if first == second {
        single
    } else {
        word_xor(single, basis.rows[second])
    }
}

/// Mismatches among the 40 places that follow the basis, the first `n` of them.
pub open spec fn parity_mismatches(
    word: Seq<bool>,
    hard: Seq<bool>,
    order: Seq<usize>,
    n: nat,
) -> nat
    decreases n,
{
    if n == 0 {
        0
    } else {
        let bit = order[91 + n - 1] as int;
        parity_mismatches(word, hard, order, (n - 1) as nat) + (if word[bit] != hard[bit] {
            1nat
        } else {
            0nat
        })
    }
}

/// A trial with few enough mismatches, counting the added rows.
pub open spec fn worth_trying(
    basis: BasisModel,
    hard: Seq<bool>,
    word: Seq<bool>,
    depth: u8,
    first: int,
    second: int,
) -> bool {
    parity_mismatches(word, hard, basis.order, 40) + (if first == second {
        1int
    } else {
        2
    }) <= (if depth == 1 {
        12int
    } else {
        10
    })
}

/// The view of one trial.
pub struct TrialModel {
    pub first: int,
    pub second: int,
    pub codeword: Seq<bool>,
}

impl View for Trial {
    type V = TrialModel;

    open spec fn view(&self) -> TrialModel {
        TrialModel {
            first: self.first as int,
            second: self.second as int,
            codeword: self.codeword@,
        }
    }
}

/// The trials of the first `n` second rows under `first`, from `first` down.
pub open spec fn trials_under(
    basis: BasisModel,
    hard: Seq<bool>,
    base: Seq<bool>,
    mask: Seq<bool>,
    depth: u8,
    first: int,
    n: nat,
) -> Seq<TrialModel>
    decreases n,
{
    if n == 0 {
        Seq::empty()
    } else {
        let rest = trials_under(basis, hard, base, mask, depth, first, (n - 1) as nat);
        let second = first - (n - 1);
        let codeword = trial_word(basis, base, first, second);
        if !mask[basis.order[second] as int] && worth_trying(
            basis,
            hard,
            codeword,
            depth,
            first,
            second,
        ) {
            rest.push(TrialModel { first, second, codeword })
        } else {
            rest
        }
    }
}

/// All trials of the first `n` first rows, from row 90 down.
pub open spec fn all_trials(
    basis: BasisModel,
    hard: Seq<bool>,
    base: Seq<bool>,
    mask: Seq<bool>,
    depth: u8,
    n: nat,
) -> Seq<TrialModel>
    decreases n,
{
    if n == 0 {
        Seq::empty()
    } else {
        let rest = all_trials(basis, hard, base, mask, depth, (n - 1) as nat);
        let first = 91 - n;
        if mask[basis.order[first] as int] {
            rest
        } else {
            rest + trials_under(
                basis,
                hard,
                base,
                mask,
                depth,
                first,
                seconds(depth, first) as nat,
            )
        }
    }
}

/// Mismatches of the first `n` bits.
pub open spec fn mismatches(word: Seq<bool>, hard: Seq<bool>, n: nat) -> nat
    decreases n,
{
    if n == 0 {
        0
    } else {
        mismatches(word, hard, (n - 1) as nat) + (if word[n - 1] != hard[n - 1] {
            1nat
        } else {
            0nat
        })
    }
}

impl Search {
    pub closed spec fn basis(&self) -> BasisModel {
        BasisModel { order: self.order@, rows: rows_view(self.rows@) }
    }

    pub closed spec fn hard(&self) -> Seq<bool> {
        self.hard@
    }

    pub closed spec fn base(&self) -> Seq<bool> {
        self.base@
    }

    /// Every row and the base word belong to the code.
    pub open spec fn wf(&self) -> bool {
        &&& is_order(self.basis().order)
        &&& self.basis().rows.len() == 91
        &&& self.hard().len() == 174
        &&& is_codeword(self.base())
        &&& forall|r: int| 0 <= r < 91 ==> is_codeword(#[trigger] self.basis().rows[r])
    }

    /// Orders the bits by reliability and brings the generator matrix into the
    /// basis of the most reliable ones.
    pub fn new(llr: &[u32; 174]) -> (r: Self)
        ensures
            r.wf(),
            r.basis() == reduced(llr@, 91),
            r.hard() == decisions(llr@),
            r.base() == base_word(reduced(llr@, 91), decisions(llr@), 91),
    {
        let mut order: Vec<usize> = by_reliability(llr);
        let mut rows: Vec<[bool; 174]> = Vec::new();
        let mut k: usize = 0;
        while k < 91
            invariant
                k <= 91,
                rows.len() == k,
                forall|i: int| 0 <= i < k ==> #[trigger] rows@[i]@ == unit_row(i),
            decreases 91 - k,
        {
            rows.push(unit(k));
            k = k + 1;
        }
        assert(rows_view(rows@) =~= Seq::new(91, |k: int| unit_row(k)));
        proof {
            assert forall|i: int| 0 <= i < 91 implies is_codeword(
                #[trigger] rows_view(rows@)[i],
            ) by {
                lemma_unit_row_is_codeword(i);
            }
        }
        let mut pivot: usize = 0;
        while pivot < 91
            invariant
                pivot <= 91,
                is_order(order@),
                rows.len() == 91,
                reduced(llr@, pivot as nat) == (BasisModel {
                    order: order@,
                    rows: rows_view(rows@),
                }),
                forall|i: int| 0 <= i < 91 ==> is_codeword(#[trigger] rows_view(rows@)[i]),
            decreases 91 - pivot,
        {
            assert(rows_view(rows@)[pivot as int] == rows@[pivot as int]@);
            let place: usize = find_pivot(&rows[pivot], &order, pivot);
            if place < 111 {
                let column: usize = order[place];
                let other: usize = order[pivot];
                proof {
                    lemma_swap_keeps_order(order@, pivot as int, place as int);
                }
                order[pivot] = column;
                order[place] = other;
                clear_column(&mut rows, pivot, column);
            }
            pivot = pivot + 1;
        }
        let hard: [bool; 174] = hard_decisions(llr);
        let mut base: [bool; 174] = [false; 174];
        let ghost basis = reduced(llr@, 91);
        let mut i: usize = 0;
        assert(base@ =~= base_word(basis, hard@, 0));
        proof {
            let row = rows_view(rows@)[0];
            lemma_codeword_sum(row, row);
            assert(word_xor(row, row) =~= base@);
        }
        while i < 91
            invariant
                i <= 91,
                is_order(order@),
                rows.len() == 91,
                basis == (BasisModel { order: order@, rows: rows_view(rows@) }),
                forall|i: int| 0 <= i < 91 ==> is_codeword(#[trigger] rows_view(rows@)[i]),
                base@ == base_word(basis, hard@, i as nat),
                is_codeword(base@),
            decreases 91 - i,
        {
            if hard[order[i]] {
                assert(rows_view(rows@)[i as int] == rows@[i as int]@);
                proof {
                    lemma_codeword_sum(base@, rows@[i as int]@);
                }
                base = xor(&base, &rows[i]);
            }
            i = i + 1;
        }
        Search { order, rows, hard, base }
    }

    /// Bit numbers in the order of the basis: the first 91 belong to its rows.
    pub fn order(&self) -> (r: &Vec<usize>)
        ensures
            r@ == self.basis().order,
    {
        &self.order
    }

    /// The word without any trial row.
    pub fn base_codeword(&self) -> (r: [bool; 174])
        ensures
            r@ == self.base(),
    {
        self.base
    }

    /// Which bits of a word contradict the hard decisions.
    pub fn errors(&self, word: &[bool; 174]) -> (r: [bool; 174])
        ensures
            r@ == word_xor(word@, self.hard()),
    {
        xor(word, &self.hard)
    }

    /// How many bits of a word contradict the hard decisions.
    pub fn hard_errors(&self, word: &[bool; 174]) -> (r: usize)
        ensures
            r == mismatches(word@, self.hard(), 174),
    {
        let mut count: usize = 0;
        let mut i: usize = 0;
        while i < 174
            invariant
                i <= 174,
                count <= i,
                count == mismatches(word@, self.hard(), i as nat),
            decreases 174 - i,
        {
            if word[i] != self.hard[i] {
                count = count + 1;
            }
            i = i + 1;
        }
        count
    }

    fn parity_errors(&self, word: &[bool; 174]) -> (r: usize)
        requires
            self.wf(),
        ensures
            r == parity_mismatches(word@, self.hard(), self.basis().order, 40),
            r <= 40,
    {
        let mut count: usize = 0;
        let mut n: usize = 0;
        while n < 40
            invariant
                n <= 40,
                count <= n,
                self.wf(),
                count == parity_mismatches(word@, self.hard(), self.basis().order, n as nat),
            decreases 40 - n,
        {
            let bit: usize = self.order[91 + n];
            if word[bit] != self.hard[bit] {
                count = count + 1;
            }
            n = n + 1;
        }
        count
    }

    /// The trials that the depth allows and the parity count does not prune, in
    /// the order of the search. Rows of masked bits are never added.
    pub fn trials(&self, mask: &[bool; 174], depth: u8) -> (r: Vec<Trial>)
        requires
            self.wf(),
            depth <= 2,
        ensures
            r@.map_values(|trial: Trial| trial@) == (if depth == 0 {
                Seq::empty()
            } else {
                all_trials(self.basis(), self.hard(), self.base(), mask@, depth, 91)
            }),
            forall|t: int| 0 <= t < r.len() ==> is_codeword((#[trigger] r@[t]).codeword@),
    {
        let mut out: Vec<Trial> = Vec::new();
        if depth == 0 {
            assert(out@.map_values(|trial: Trial| trial@) =~= Seq::empty());
            return out;
        }
        let mut n: usize = 0;
        assert(out@.map_values(|trial: Trial| trial@) =~= Seq::empty());
        while n < 91
            invariant
                n <= 91,
                1 <= depth <= 2,
                self.wf(),
                out@.map_values(|trial: Trial| trial@) == all_trials(
                    self.basis(),
                    self.hard(),
                    self.base(),
                    mask@,
                    depth,
                    n as nat,
                ),
                forall|t: int|
                    0 <= t < out.len() ==> is_codeword((#[trigger] out@[t]).codeword@),
            decreases 91 - n,
        {
            let first: usize = 90 - n;
            if !mask[self.order[first]] {
                self.trials_of(mask, depth, first, &mut out);
            }
            n = n + 1;
        }
        out
    }

    fn trials_of(&self, mask: &[bool; 174], depth: u8, first: usize, out: &mut Vec<Trial>)
        requires
            self.wf(),
            1 <= depth <= 2,
            first < 91,
            forall|t: int|
                0 <= t < old(out).len() ==> is_codeword((#[trigger] old(out)@[t]).codeword@),
        ensures
            final(out)@.map_values(|trial: Trial| trial@) == old(out)@.map_values(
                |trial: Trial| trial@,
            ) + trials_under(
                self.basis(),
                self.hard(),
                self.base(),
                mask@,
                depth,
                first as int,
                seconds(depth, first as int) as nat,
            ),
            forall|t: int|
                0 <= t < final(out).len() ==> is_codeword((#[trigger] final(out)@[t]).codeword@),
    {
        let count: usize = if depth == 1 { 1 } else { first + 1 };
        let threshold: usize = if depth == 1 { 12 } else { 10 };
        let ghost before = out@.map_values(|trial: Trial| trial@);
        let single: [bool; 174] = xor(&self.base, &self.rows[first]);
        proof {
            assert(self.basis().rows[first as int] == self.rows@[first as int]@);
            lemma_codeword_sum(self.base(), self.basis().rows[first as int]);
        }
        let mut n: usize = 0;
        assert(before =~= before + Seq::<TrialModel>::empty());
        while n < count
            invariant
                n <= count,
                count <= first + 1,
                first < 91,
                self.wf(),
                1 <= depth <= 2,
                threshold == (if depth == 1 { 12int } else { 10 }),
                single@ == word_xor(self.base(), self.basis().rows[first as int]),
                is_codeword(single@),
                out@.map_values(|trial: Trial| trial@) == before + trials_under(
                    self.basis(),
                    self.hard(),
                    self.base(),
                    mask@,
                    depth,
                    first as int,
                    n as nat,
                ),
                forall|t: int|
                    0 <= t < out.len() ==> is_codeword((#[trigger] out@[t]).codeword@),
            decreases count - n,
        {
            let second: usize = first - n;
            if !mask[self.order[second]] {
                assert(self.basis().rows[second as int] == self.rows@[second as int]@);
                let codeword: [bool; 174] = if second == first {
                    single
                } else {
                    proof {
                        lemma_codeword_sum(single@, self.basis().rows[second as int]);
                    }
                    xor(&single, &self.rows[second])
                };
                let added: usize = if second == first { 1 } else { 2 };
                if self.parity_errors(&codeword) + added <= threshold {
                    let ghost prior = out@;
                    let trial: Trial = Trial { first, second, codeword };
                    out.push(trial);
                    proof {
                        assert(out@.map_values(|trial: Trial| trial@) =~= prior.map_values(
                            |trial: Trial| trial@,
                        ).push(trial@));
                        let rest = trials_under(
                            self.basis(),
                            self.hard(),
                            self.base(),
                            mask@,
                            depth,
                            first as int,
                            n as nat,
                        );
                        assert((before + rest).push(trial@) =~= before + rest.push(trial@));
                    }
                }
            }
            n = n + 1;
        }
    }

    /// The result of the search that settled on `codeword`, unless its CRC is
    /// wrong. What is returned is the encoding of its payload.
    pub fn conclude(&self, codeword: &[bool; 174], distance: u32) -> (r: Option<Decoded>)
        requires
            self.wf(),
            is_codeword(codeword@),
        ensures
            r is Some <==> crc_holds(codeword@),
            r matches Some(decoded) ==> {
                &&& decoded.message@ == codeword@.take(77)
                &&& decoded.codeword@ == codeword@
                &&& decoded.hard_errors == mismatches(codeword@, self.hard(), 174)
                &&& decoded.distance == distance
                &&& decoded.codeword@ == encoded(decoded.message@)
            },
    {
        if !crc_matches(codeword) {
            return None;
        }
        proof {
            lemma_checked_codeword(codeword@);
        }
        Some(
            Decoded {
                message: payload(codeword),
                codeword: *codeword,
                hard_errors: self.hard_errors(codeword),
                distance,
            },
        )
    }
}

proof fn lemma_checked_codeword(word: Seq<bool>)
    requires
        is_codeword(word),
        crc_holds(word),
    ensures
        word == encoded(word.take(77)),
{
    assert forall|i: int| 0 <= i < 91 implies word.take(91)[i] == with_crc(word.take(77))[i] by {
        if i >= 77 {
            assert(word[77 + (i - 77)] == with_crc(word.take(77))[i]);
        }
    }
    assert(word.take(91) =~= with_crc(word.take(77)));
}

/// A codeword with a correct CRC is exactly the encoding of its payload, so it
/// passes every parity check.
pub proof fn checked_codewords_are_encodings(word: Seq<bool>)
    requires
        is_codeword(word),
        crc_holds(word),
    ensures
        word == encoded(word.take(77)),
        accepted(word),
{
    lemma_checked_codeword(word);
    crate::code_laws::encoded_payloads_are_accepted(word.take(77));
}

// ---------------------------------------------------------------------------
// The closest trial
// ---------------------------------------------------------------------------

/// The likelihood magnitude of the bit at place `k` of the order.
pub open spec fn weight_at(llr: Seq<u32>, order: Seq<usize>, k: int) -> u32 {
    magnitude(llr[order[k] as int])
}

/// The word contradicts the hard decision at place `k` of the order.
pub open spec fn is_mismatch(word: Seq<bool>, hard: Seq<bool>, order: Seq<usize>, k: int) -> bool {
    word[order[k] as int] != hard[order[k] as int]
}

/// The likelihood magnitudes of the mismatches from place `start` up to place `n`,
/// summed in this order.
pub open spec fn tally(
    llr: Seq<u32>,
    order: Seq<usize>,
    word: Seq<bool>,
    hard: Seq<bool>,
    start: int,
    n: int,
) -> u32
    decreases n,
{
    if n <= start || n <= 0 {
        0
    } else {
        let rest = tally(llr, order, word, hard, start, n - 1);
        if is_mismatch(word, hard, order, n - 1) {
            added(rest, weight_at(llr, order, n - 1))
        } else {
            rest
        }
    }
}

/// The distance of a trial: the rows that were added, the second only where it
/// contradicts the hard decision, and then the mismatches behind the basis.
pub open spec fn trial_distance(
    llr: Seq<u32>,
    order: Seq<usize>,
    hard: Seq<bool>,
    trial: TrialModel,
) -> u32 {
    let first = weight_at(llr, order, trial.first);
    let rows = if trial.second != trial.first && is_mismatch(
        trial.codeword,
        hard,
        order,
        trial.second,
    ) {
        added(first, weight_at(llr, order, trial.second))
    } else {
        first
    };
    added(rows, tally(llr, order, trial.codeword, hard, 91, 174))
}

/// A codeword and its distance.
#[verifier::ext_equal]
pub struct Choice {
    pub codeword: Seq<bool>,
    pub distance: u32,
}

/// The base word, or the first of the first `n` trials that comes closest.
pub open spec fn closest(
    llr: Seq<u32>,
    order: Seq<usize>,
    hard: Seq<bool>,
    base: Seq<bool>,
    trials: Seq<TrialModel>,
    n: nat,
) -> Choice
    decreases n,
{
    if n == 0 {
        Choice { codeword: base, distance: tally(llr, order, base, hard, 0, 174) }
    } else {
        let before = closest(llr, order, hard, base, trials, (n - 1) as nat);
        let distance = trial_distance(llr, order, hard, trials[n - 1]);
        if distance < before.distance {
            Choice { codeword: trials[n - 1].codeword, distance }
        } else {
            before
        }
    }
}

/// What the search settles on.
pub open spec fn settled(llr: Seq<u32>, mask: Seq<bool>, depth: u8) -> Choice {
    let basis = reduced(llr, 91);
    let hard = decisions(llr);
    let base = base_word(basis, hard, 91);
    let trials = if depth == 0 {
        Seq::empty()
    } else {
        all_trials(basis, hard, base, mask, depth, 91)
    };
    closest(llr, basis.order, hard, base, trials, trials.len())
}

/// No trial comes closer than what the search settles on, and the base word does
/// not either.
pub proof fn nothing_comes_closer(
    llr: Seq<u32>,
    order: Seq<usize>,
    hard: Seq<bool>,
    base: Seq<bool>,
    trials: Seq<TrialModel>,
    n: nat,
)
    requires
        n <= trials.len(),
    ensures
        ({
            let choice = closest(llr, order, hard, base, trials, n);
            &&& choice.distance <= tally(llr, order, base, hard, 0, 174)
            &&& forall|t: int|
                0 <= t < n ==> choice.distance <= trial_distance(
                    llr,
                    order,
                    hard,
                    #[trigger] trials[t],
                )
        }),
    decreases n,
{
    if n > 0 {
        nothing_comes_closer(llr, order, hard, base, trials, (n - 1) as nat);
    }
}

proof fn lemma_rows_under(
    basis: BasisModel,
    hard: Seq<bool>,
    base: Seq<bool>,
    mask: Seq<bool>,
    depth: u8,
    first: int,
    n: nat,
)
    requires
        0 <= first < 91,
        n <= first + 1,
    ensures
        forall|t: int|
            0 <= t < trials_under(basis, hard, base, mask, depth, first, n).len() ==> {
                let trial = #[trigger] trials_under(basis, hard, base, mask, depth, first, n)[t];
                0 <= trial.second <= trial.first < 91
            },
    decreases n,
{
    if n > 0 {
        lemma_rows_under(basis, hard, base, mask, depth, first, (n - 1) as nat);
        let rest = trials_under(basis, hard, base, mask, depth, first, (n - 1) as nat);
        let all = trials_under(basis, hard, base, mask, depth, first, n);
        assert forall|t: int| 0 <= t < all.len() implies {
            let trial = #[trigger] all[t];
            0 <= trial.second <= trial.first < 91
        } by {
            if t < rest.len() {
                assert(all[t] == rest[t]);
            }
        }
    }
}

proof fn lemma_rows(
    basis: BasisModel,
    hard: Seq<bool>,
    base: Seq<bool>,
    mask: Seq<bool>,
    depth: u8,
    n: nat,
)
    requires
        n <= 91,
    ensures
        forall|t: int|
            0 <= t < all_trials(basis, hard, base, mask, depth, n).len() ==> {
                let trial = #[trigger] all_trials(basis, hard, base, mask, depth, n)[t];
                0 <= trial.second <= trial.first < 91
            },
    decreases n,
{
    if n > 0 {
        lemma_rows(basis, hard, base, mask, depth, (n - 1) as nat);
        let first = 91 - n;
        let before = all_trials(basis, hard, base, mask, depth, (n - 1) as nat);
        let under = trials_under(
            basis,
            hard,
            base,
            mask,
            depth,
            first,
            seconds(depth, first) as nat,
        );
        lemma_rows_under(basis, hard, base, mask, depth, first, seconds(depth, first) as nat);
        let all = all_trials(basis, hard, base, mask, depth, n);
        assert forall|t: int| 0 <= t < all.len() implies {
            let trial = #[trigger] all[t];
            0 <= trial.second <= trial.first < 91
        } by {
            if t >= before.len() {
                assert(all[t] == under[t - before.len()]);
            } else {
                assert(all[t] == before[t]);
            }
        }
    }
}

fn sum_mismatches(
    llr: &[u32; 174],
    order: &Vec<usize>,
    errors: &[bool; 174],
    word: Ghost<Seq<bool>>,
    hard: Ghost<Seq<bool>>,
    start: usize,
) -> (r: u32)
    requires
        is_order(order@),
        word@.len() == 174,
        hard@.len() == 174,
        errors@ == word_xor(word@, hard@),
        start <= 174,
        forall|i: int| 0 <= i < 174 ==> magnitude(#[trigger] llr@[i]) <= LARGEST_MAGNITUDE,
    ensures
        r == tally(llr@, order@, word@, hard@, start as int, 174),
        is_within_parts(r, (174 - start) as nat),
{
    let mut sum: u32 = 0;
    let mut k: usize = start;
    proof {
        zero_is_within_no_part();
    }
    while k < 174
        invariant
            start <= k <= 174,
            is_order(order@),
            word@.len() == 174,
            hard@.len() == 174,
            errors@ == word_xor(word@, hard@),
            forall|i: int| 0 <= i < 174 ==> magnitude(#[trigger] llr@[i]) <= LARGEST_MAGNITUDE,
            sum == tally(llr@, order@, word@, hard@, start as int, k as int),
            is_within_parts(sum, (k - start) as nat),
        decreases 174 - k,
    {
        let bit: usize = order[k];
        let weight: u32 = llr[bit] % 0x8000_0000;
        assert(magnitude(llr@[bit as int]) <= LARGEST_MAGNITUDE);
        proof {
            light_values_are_within_a_part(weight);
            sums_stay_within_parts(sum, (k - start) as nat, weight, 1);
            parts_only_grow(sum, (k - start) as nat, (k + 1 - start) as nat);
        }
        if errors[bit] {
            sum = plus(sum, weight);
        }
        k = k + 1;
    }
    sum
}

/// What the inputs of a decode amount to.
pub open spec fn decode_result(llr: Seq<u32>, mask: Seq<bool>, depth: u8) -> Option<Choice> {
    if forall|i: int| 0 <= i < 174 ==> zero(#[trigger] llr[i]) {
        None
    } else if crc_holds(settled(llr, mask, depth).codeword) {
        Some(settled(llr, mask, depth))
    } else {
        None
    }
}

/// Decodes while excluding masked bits of the information basis from trials. Depth 0
/// tests one codeword; depth 1 single rows; depth 2 also pairs of rows. This is a
/// bounded list search, not maximum-likelihood decoding. Absent evidence gives no
/// result, and what is found passes the CRC. Masked positions outside the basis can
/// change; assumed bits come with the likelihoods.
pub fn decode_ap(llr: &[u32; 174], mask: &[bool; 174], depth: u8) -> (r: Result<
    Option<Decoded>,
    DecodeError,
>)
    ensures
        match r {
            Ok(found) => {
                &&& refusal(llr@, depth) is None
                &&& found is Some <==> decode_result(llr@, mask@, depth) is Some
                &&& found matches Some(decoded) ==> {
                    let choice = decode_result(llr@, mask@, depth)->0;
                    &&& decoded.codeword@ == choice.codeword
                    &&& decoded.distance == choice.distance
                    &&& decoded.message@ == choice.codeword.take(77)
                    &&& decoded.hard_errors == mismatches(choice.codeword, decisions(llr@), 174)
                    &&& decoded.codeword@ == encoded(decoded.message@)
                }
            },
            Err(error) => refusal(llr@, depth) == Some(error),
        },
{
    match validate(llr, depth) {
        Err(error) => {
            return Err(error);
        },
        Ok(_) => {},
    }
    if no_evidence(llr) {
        return Ok(None);
    }
    let search: Search = Search::new(llr);
    let order: &Vec<usize> = search.order();
    let mut best: [bool; 174] = search.base_codeword();
    let ghost hard = search.hard();
    let ghost all = if depth == 0 {
        Seq::empty()
    } else {
        all_trials(search.basis(), hard, search.base(), mask@, depth, 91)
    };
    let base_errors: [bool; 174] = search.errors(&best);
    let mut distance: u32 = sum_mismatches(
        llr,
        order,
        &base_errors,
        Ghost(best@),
        Ghost(hard),
        0,
    );
    let trials: Vec<Trial> = search.trials(mask, depth);
    proof {
        lemma_rows(search.basis(), hard, search.base(), mask@, depth, 91);
        assert(trials@.len() == all.len());
        assert forall|t: int| 0 <= t < trials@.len() implies (#[trigger] trials@[t])@ == all[t] by {
            assert(trials@.map_values(|trial: Trial| trial@)[t] == all[t]);
        }
    }
    let mut t: usize = 0;
    while t < trials.len()
        invariant
            t <= trials.len(),
            search.wf(),
            order@ == search.basis().order,
            hard == search.hard(),
            hard.len() == 174,
            depth <= 2,
            all == (if depth == 0 {
                Seq::empty()
            } else {
                all_trials(search.basis(), hard, search.base(), mask@, depth, 91)
            }),
            trials@.len() == all.len(),
            forall|i: int| 0 <= i < trials@.len() ==> (#[trigger] trials@[i])@ == all[i],
            forall|i: int|
                0 <= i < trials@.len() ==> is_codeword((#[trigger] trials@[i]).codeword@),
            forall|i: int|
                0 <= i < all.len() ==> {
                    let trial = #[trigger] all[i];
                    0 <= trial.second <= trial.first < 91
                },
            forall|i: int| 0 <= i < 174 ==> magnitude(#[trigger] llr@[i]) <= LARGEST_MAGNITUDE,
            is_codeword(best@),
            closest(llr@, order@, hard, search.base(), all, t as nat) == (Choice {
                codeword: best@,
                distance,
            }),
        decreases trials.len() - t,
    {
        let trial: &Trial = &trials[t];
        assert(trials@[t as int]@ == all[t as int]);
        let errors: [bool; 174] = search.errors(&trial.codeword);
        let first: usize = order[trial.first];
        let second: usize = order[trial.second];
        let mut rows: u32 = llr[first] % 0x8000_0000;
        assert(magnitude(llr@[first as int]) <= LARGEST_MAGNITUDE);
        assert(magnitude(llr@[second as int]) <= LARGEST_MAGNITUDE);
        proof {
            light_values_are_within_a_part(rows);
            light_values_are_within_a_part(magnitude(llr@[second as int]));
            sums_stay_within_parts(rows, 1, magnitude(llr@[second as int]), 1);
            parts_only_grow(rows, 1, 2);
        }
        if trial.second != trial.first && errors[second] {
            rows = plus(rows, llr[second] % 0x8000_0000);
        }
        let behind: u32 = sum_mismatches(
            llr,
            order,
            &errors,
            Ghost(trial.codeword@),
            Ghost(hard),
            91,
        );
        proof {
            sums_stay_within_parts(rows, 2, behind, 83);
        }
        let total: u32 = plus(rows, behind);
        assert(total == trial_distance(llr@, order@, hard, all[t as int]));
        if total < distance {
            distance = total;
            best = trial.codeword;
        }
        t = t + 1;
    }
    Ok(search.conclude(&best, distance))
}

/// Decodes without masked bits.
pub fn decode(llr: &[u32; 174], depth: u8) -> (r: Result<Option<Decoded>, DecodeError>)
    ensures
        match r {
            Ok(found) => {
                let mask = Seq::new(174, |i: int| false);
                &&& refusal(llr@, depth) is None
                &&& found is Some <==> decode_result(llr@, mask, depth) is Some
                &&& found matches Some(decoded) ==> {
                    let choice = decode_result(llr@, mask, depth)->0;
                    &&& decoded.codeword@ == choice.codeword
                    &&& decoded.distance == choice.distance
                    &&& decoded.message@ == choice.codeword.take(77)
                    &&& decoded.hard_errors == mismatches(choice.codeword, decisions(llr@), 174)
                    &&& decoded.codeword@ == encoded(decoded.message@)
                }
            },
            Err(error) => refusal(llr@, depth) == Some(error),
        },
{
    let mask: [bool; 174] = [false; 174];
    assert(mask@ =~= Seq::new(174, |i: int| false));
    decode_ap(llr, &mask, depth)
}

} // verus!
