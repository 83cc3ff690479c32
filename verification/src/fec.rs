//! The shared (174, 91) error correcting code. Bits stand in transmitted,
//! most significant first order.
use vstd::prelude::*;
use vstd::string::*;
use crate::osd::DecodeError;
use crate::single::{finite, is_finite, is_negative, is_positive, is_zero, negative, positive, zero};
use crate::tables::{bit_checks, bit_row, check_bits, check_row, generator, generator_row};
use crate::text::{append_decimal, decimal};

verus! {

// ---------------------------------------------------------------------------
// CRC
// ---------------------------------------------------------------------------

/// One bit shifted into the 14 bit remainder for the polynomial 0x2757.
pub open spec fn crc_step(remainder: u16, bit: bool) -> u16 {
    let shifted = (((remainder << 1) | (if bit { 1u16 } else { 0u16 })) & 0x3fff) as u16;
    if remainder & 0x2000 != 0 {
        shifted ^ 0x2757
    } else {
        shifted
    }
}

/// The remainder after all of `bits`, starting from zero.
pub open spec fn crc_remainder(bits: Seq<bool>) -> u16
    decreases bits.len(),
{
    if bits.len() == 0 {
        0
    } else {
        crc_step(crc_remainder(bits.drop_last()), bits.last())
    }
}

/// The CRC of a payload: its bits, then five padding and 14 CRC zeros.
pub open spec fn payload_crc(message: Seq<bool>) -> u16 {
    crc_remainder(message + Seq::new(19, |i: int| false))
}

/// Bit `i` of a 14 bit number, most significant first.
pub open spec fn crc_bit(crc: u16, i: int) -> bool {
    crc & (1u16 << ((13 - i) as u16)) != 0
}

/// A payload followed by its CRC: the 91 information bits.
pub open spec fn with_crc(message: Seq<bool>) -> Seq<bool> {
    message + Seq::new(14, |i: int| crc_bit(payload_crc(message), i))
}

fn crc_push(remainder: u16, bit: bool) -> (r: u16)
    ensures
        r == crc_step(remainder, bit),
{
    let high: bool = remainder & 0x2000 != 0;
    let low: u16 = if bit { 1 } else { 0 };
    let shifted: u16 = ((remainder << 1) | low) & 0x3fff;
    if high {
        shifted ^ 0x2757
    } else {
        shifted
    }
}

/// CRC of 77 payload bits padded to 82 bits, followed by 14 zero CRC bits.
pub fn crc14(message: &[bool; 77]) -> (r: u16)
    ensures
        r == payload_crc(message@),
        r < 0x4000,
{
    let ghost padded = message@ + Seq::new(19, |i: int| false);
    let mut remainder: u16 = 0;
    let mut i: usize = 0;
    assert(padded.take(0) =~= Seq::<bool>::empty());
    while i < 96
        invariant
            i <= 96,
            padded.len() == 96,
            padded == message@ + Seq::new(19, |i: int| false),
            remainder == crc_remainder(padded.take(i as int)),
            remainder < 0x4000,
        decreases 96 - i,
    {
        let bit: bool = if i < 77 { message[i] } else { false };
        assert(bit == padded[i as int]);
        let ghost before = remainder;
        remainder = crc_push(remainder, bit);
        proof {
            let next = padded.take(i + 1);
            assert(next.drop_last() =~= padded.take(i as int));
            assert(next.last() == bit);
            let one: u16 = if bit { 1 } else { 0 };
            assert((((before << 1) | one) & 0x3fff) < 0x4000
                && ((((before << 1) | one) & 0x3fff) ^ 0x2757) < 0x4000) by (bit_vector);
        }
        i = i + 1;
    }
    assert(padded.take(96) =~= padded);
    remainder
}

// ---------------------------------------------------------------------------
// Systematic encoding
// ---------------------------------------------------------------------------

/// Whether information bit `k` belongs to the 91 bit row.
pub open spec fn row_bit(row: u128, k: int) -> bool {
    (row >> ((90 - k) as u128)) & 1 == 1
}

/// Parity of the first `n` information bits selected by `row`.
pub open spec fn dot(bits: Seq<bool>, row: u128, n: nat) -> bool
    decreases n,
{
    if n == 0 {
        false
    } else {
        dot(bits, row, (n - 1) as nat) != (bits[n - 1] && row_bit(row, n - 1))
    }
}

/// The codeword of 91 information bits: they come first, 83 parity bits follow.
pub open spec fn extend(information: Seq<bool>) -> Seq<bool> {
    information + Seq::new(83, |i: int| dot(information, generator(i), 91))
}

/// The codeword of a payload.
pub open spec fn encoded(message: Seq<bool>) -> Seq<bool> {
    extend(with_crc(message))
}

fn selected_parity(bits: &[bool; 174], row: u128) -> (r: bool)
    ensures
        r == dot(bits@, row, 91),
{
    let mut parity: bool = false;
    let mut k: usize = 0;
    while k < 91
        invariant
            k <= 91,
            parity == dot(bits@, row, k as nat),
        decreases 91 - k,
    {
        let shift: u128 = 90 - k as u128;
        let taken: bool = bits[k] && (row >> shift) & 1 == 1;
        parity = parity != taken;
        k = k + 1;
    }
    parity
}

proof fn lemma_dot_prefix(a: Seq<bool>, b: Seq<bool>, row: u128, n: nat)
    requires
        n <= a.len(),
        n <= b.len(),
        forall|k: int| 0 <= k < n ==> a[k] == b[k],
    ensures
        dot(a, row, n) == dot(b, row, n),
    decreases n,
{
    if n > 0 {
        lemma_dot_prefix(a, b, row, (n - 1) as nat);
    }
}

/// Append CRC and systematic LDPC parity. FT4 payloads must be scrambled first.
pub fn encode(message: &[bool; 77]) -> (r: [bool; 174])
    ensures
        r@ == encoded(message@),
{
    let crc: u16 = crc14(message);
    let ghost information = with_crc(message@);
    let mut codeword: [bool; 174] = [false; 174];
    let mut i: usize = 0;
    while i < 91
        invariant
            i <= 91,
            crc == payload_crc(message@),
            information == with_crc(message@),
            codeword@.len() == 174,
            forall|k: int| 0 <= k < i ==> codeword@[k] == information[k],
        decreases 91 - i,
    {
        if i < 77 {
            codeword[i] = message[i];
        } else {
            let shift: u16 = 13 - (i - 77) as u16;
            codeword[i] = crc & (1u16 << shift) != 0;
        }
        i = i + 1;
    }
    let mut row: usize = 0;
    while row < 83
        invariant
            row <= 83,
            information.len() == 91,
            codeword@.len() == 174,
            forall|k: int| 0 <= k < 91 ==> codeword@[k] == information[k],
            forall|k: int|
                0 <= k < row ==> codeword@[91 + k] == dot(information, generator(k), 91),
        decreases 83 - row,
    {
        proof {
            lemma_dot_prefix(codeword@, information, generator(row as int), 91);
        }
        let parity: bool = selected_parity(&codeword, generator_row(row));
        codeword[91 + row] = parity;
        row = row + 1;
    }
    proof {
        assert forall|k: int| 0 <= k < 174 implies codeword@[k] == extend(information)[k] by {
            if k >= 91 {
                assert(codeword@[91 + (k - 91)] == dot(information, generator(k - 91), 91));
            }
        }
        assert(codeword@ =~= extend(information));
    }
    codeword
}

// ---------------------------------------------------------------------------
// Parity checks
// ---------------------------------------------------------------------------

/// The bit of `word` at `index`; padding contributes nothing.
pub open spec fn checked_bit(word: Seq<bool>, index: usize) -> bool {
    index < 174 && word[index as int]
}

/// Parity of the first `n` bits named by a check row.
pub open spec fn check_parity(word: Seq<bool>, row: Seq<usize>, n: nat) -> bool
    decreases n,
{
    if n == 0 {
        false
    } else {
        check_parity(word, row, (n - 1) as nat) != checked_bit(word, row[n - 1])
    }
}

/// Parity check `m` does not hold.
pub open spec fn check_fails(word: Seq<bool>, m: int) -> bool {
    check_parity(word, check_bits(m), 7)
}

/// How many of the first `m` parity checks do not hold.
pub open spec fn failures(word: Seq<bool>, m: nat) -> nat
    decreases m,
{
    if m == 0 {
        0
    } else {
        failures(word, (m - 1) as nat) + (if check_fails(word, m - 1) { 1nat } else { 0nat })
    }
}

/// The 14 bits after the payload are its CRC.
pub open spec fn crc_holds(word: Seq<bool>) -> bool {
    forall|i: int|
        0 <= i < 14 ==> #[trigger] word[77 + i] == crc_bit(payload_crc(word.take(77)), i)
}

/// A word that passes every parity check and the CRC.
pub open spec fn accepted(word: Seq<bool>) -> bool {
    failures(word, 83) == 0 && crc_holds(word)
}

fn row_parity(word: &[bool; 174], m: usize) -> (r: bool)
    requires
        m < 83,
    ensures
        r == check_fails(word@, m as int),
{
    let row: [usize; 7] = check_row(m);
    let mut parity: bool = false;
    let mut e: usize = 0;
    while e < 7
        invariant
            e <= 7,
            row@ == check_bits(m as int),
            parity == check_parity(word@, check_bits(m as int), e as nat),
        decreases 7 - e,
    {
        let index: usize = row[e];
        let bit: bool = index < 174 && word[index];
        parity = parity != bit;
        e = e + 1;
    }
    parity
}

/// How many of the 83 parity checks fail.
pub fn failed_checks(word: &[bool; 174]) -> (r: usize)
    ensures
        r == failures(word@, 83),
        r <= 83,
{
    let mut count: usize = 0;
    let mut m: usize = 0;
    while m < 83
        invariant
            m <= 83,
            count <= m,
            count == failures(word@, m as nat),
        decreases 83 - m,
    {
        if row_parity(word, m) {
            count = count + 1;
        }
        m = m + 1;
    }
    count
}

/// The payload part of a codeword.
pub fn payload(word: &[bool; 174]) -> (r: [bool; 77])
    ensures
        r@ == word@.take(77),
{
    let mut message: [bool; 77] = [false; 77];
    let mut i: usize = 0;
    while i < 77
        invariant
            i <= 77,
            message@.len() == 77,
            forall|k: int| 0 <= k < i ==> message@[k] == word@[k],
        decreases 77 - i,
    {
        message[i] = word[i];
        i = i + 1;
    }
    assert(message@ =~= word@.take(77));
    message
}

/// Whether the 14 bits after the payload are its CRC.
pub fn crc_matches(word: &[bool; 174]) -> (r: bool)
    ensures
        r == crc_holds(word@),
{
    let message: [bool; 77] = payload(word);
    let crc: u16 = crc14(&message);
    let mut i: usize = 0;
    while i < 14
        invariant
            i <= 14,
            crc == payload_crc(word@.take(77)),
            forall|k: int| 0 <= k < i ==> #[trigger] word@[77 + k] == crc_bit(crc, k),
        decreases 14 - i,
    {
        let shift: u16 = 13 - i as u16;
        let bit: bool = crc & (1u16 << shift) != 0;
        if word[77 + i] != bit {
            assert(word@[77 + i as int] != crc_bit(crc, i as int));
            return false;
        }
        i = i + 1;
    }
    true
}

/// The place of `check` among the three checks of the codeword bit that stands
/// at `edge` of the check's row.
pub fn neighbor(check: usize, edge: usize) -> (r: usize)
    requires
        check < 83,
        edge < 7,
        check_bits(check as int)[edge as int] < 174,
    ensures
        r < 3,
        bit_checks(check_bits(check as int)[edge as int] as int)[r as int] == check,
        forall|k: int|
            0 <= k < r ==> bit_checks(check_bits(check as int)[edge as int] as int)[k] != check,
{
    let row: [usize; 7] = check_row(check);
    let checks: [usize; 3] = bit_row(row[edge]);
    proof {
        crate::tables::lemma_tables_agree(check as int, edge as int);
    }
    if checks[0] == check {
        0
    } else if checks[1] == check {
        1
    } else {
        2
    }
}

// ---------------------------------------------------------------------------
// Decoding decisions
// ---------------------------------------------------------------------------

/// A payload that passed parity and CRC.
#[derive(Debug, Clone, PartialEq, Eq)]
pub struct Decoded {
    pub message: [bool; 77],
    pub codeword: [bool; 174],
    pub iterations: u8,
    pub hard_errors: usize,
}

/// A log likelihood that is not finite.
#[derive(Debug, Clone, Copy, PartialEq, Eq)]
pub struct InvalidLlr {
    pub index: usize,
}

impl InvalidLlr {
    pub open spec fn spec_text(self) -> Seq<char> {
        "non-finite log likelihood at bit "@ + decimal(self.index as nat)
    }

    /// The error as a sentence.
    pub fn text(&self) -> (r: String)
        ensures
            r@ == self.spec_text(),
    {
        let mut out: String = "non-finite log likelihood at bit ".to_owned();
        append_decimal(&mut out, self.index as u64);
        out
    }
}

#[derive(Debug, Clone, Copy, PartialEq, Eq, Structural)]
pub enum DecodeMethod {
    Bp,
    Osd,
    /// From a list of expected messages.
    List,
}

/// A codeword bit contradicts the sign of its likelihood; a zero never does.
pub open spec fn contradicts(bit: bool, llr: u32) -> bool {
    if bit {
        negative(llr)
    } else {
        positive(llr)
    }
}

/// How many of the first `n` bits contradict their likelihoods.
pub open spec fn contradictions(word: Seq<bool>, llr: Seq<u32>, n: nat) -> nat
    decreases n,
{
    if n == 0 {
        0
    } else {
        contradictions(word, llr, (n - 1) as nat) + (if contradicts(word[n - 1], llr[n - 1]) {
            1nat
        } else {
            0nat
        })
    }
}

/// Index of the first likelihood that is not finite, given as bit patterns.
pub fn first_invalid(llr: &[u32; 174]) -> (r: Result<(), InvalidLlr>)
    ensures
        match r {
            Ok(_) => forall|i: int| 0 <= i < 174 ==> finite(#[trigger] llr@[i]),
            Err(error) => error.index < 174 && !finite(llr@[error.index as int]) && forall|i: int|
                0 <= i < error.index ==> finite(#[trigger] llr@[i]),
        },
{
    let mut i: usize = 0;
    while i < 174
        invariant
            i <= 174,
            forall|k: int| 0 <= k < i ==> finite(#[trigger] llr@[k]),
        decreases 174 - i,
    {
        if !is_finite(llr[i]) {
            return Err(InvalidLlr { index: i });
        }
        i = i + 1;
    }
    Ok(())
}

/// All likelihoods are zero: there is no evidence to decode.
pub fn no_evidence(llr: &[u32; 174]) -> (r: bool)
    ensures
        r == forall|i: int| 0 <= i < 174 ==> zero(#[trigger] llr@[i]),
{
    let mut i: usize = 0;
    while i < 174
        invariant
            i <= 174,
            forall|k: int| 0 <= k < i ==> zero(#[trigger] llr@[k]),
        decreases 174 - i,
    {
        if !is_zero(llr[i]) {
            assert(!zero(llr@[i as int]));
            return false;
        }
        i = i + 1;
    }
    true
}

fn hard_errors(word: &[bool; 174], llr: &[u32; 174]) -> (r: usize)
    ensures
        r == contradictions(word@, llr@, 174),
{
    let mut count: usize = 0;
    let mut i: usize = 0;
    while i < 174
        invariant
            i <= 174,
            count <= i,
            count == contradictions(word@, llr@, i as nat),
        decreases 174 - i,
    {
        let wrong: bool = if word[i] { is_negative(llr[i]) } else { is_positive(llr[i]) };
        if wrong {
            count = count + 1;
        }
        i = i + 1;
    }
    count
}

/// What belief propagation carries from one iteration to the next besides its
/// messages: the failed checks of the last one, and for how many iterations in
/// a row their number has not gone down.
#[derive(Debug, Clone, Copy, PartialEq, Eq)]
pub struct BpProgress {
    pub last_checks: usize,
    pub stagnant: usize,
}

#[derive(Debug, Clone, PartialEq, Eq)]
pub enum BpStep {
    /// The hard decision is a codeword with a correct CRC.
    Accepted(Decoded),
    /// The budget is spent or the iteration stagnates.
    Stopped,
    /// Exchange messages once more.
    Continue,
}

/// Iterations without improvement, counting the one that left `checks` failing.
pub open spec fn stagnation(progress: BpProgress, iteration: u8, checks: nat) -> nat {
    if iteration == 0 {
        progress.stagnant as nat
    } else if checks < progress.last_checks {
        0
    } else {
        progress.stagnant as nat + 1
    }
}

/// The iteration gives up before its budget is spent.
pub open spec fn stagnates(progress: BpProgress, iteration: u8, checks: nat) -> bool {
    stagnation(progress, iteration, checks) >= 5 && iteration >= 10 && checks > 15
}

impl BpProgress {
    pub fn new() -> (r: Self)
        ensures
            r.last_checks == 0,
            r.stagnant == 0,
    {
        BpProgress { last_checks: 0, stagnant: 0 }
    }

    /// Judges the hard decision of one iteration. `llr` holds the channel
    /// likelihoods as bit patterns.
    pub fn judge(
        &mut self,
        llr: &[u32; 174],
        codeword: &[bool; 174],
        iteration: u8,
        max_iterations: u8,
    ) -> (r: BpStep)
        requires
            old(self).stagnant < iteration || (iteration == 0 && old(self).stagnant == 0),
        ensures
            accepted(codeword@) <==> r is Accepted,
            r matches BpStep::Accepted(decoded) ==> {
                &&& decoded.message@ == codeword@.take(77)
                &&& decoded.codeword@ == codeword@
                &&& decoded.iterations == iteration
                &&& decoded.hard_errors == contradictions(codeword@, llr@, 174)
            },
            r is Stopped <==> !accepted(codeword@) && (iteration == max_iterations || stagnates(
                *old(self),
                iteration,
                failures(codeword@, 83),
            )),
            r is Continue ==> {
                &&& final(self).last_checks == failures(codeword@, 83)
                &&& final(self).stagnant == stagnation(
                    *old(self),
                    iteration,
                    failures(codeword@, 83),
                )
            },
            final(self).stagnant <= iteration,
    {
        let checks: usize = failed_checks(codeword);
        if checks == 0 && crc_matches(codeword) {
            return BpStep::Accepted(
                Decoded {
                    message: payload(codeword),
                    codeword: *codeword,
                    iterations: iteration,
                    hard_errors: hard_errors(codeword, llr),
                },
            );
        }
        if iteration > 0 {
            let stagnant: usize = if checks < self.last_checks { 0 } else { self.stagnant + 1 };
            self.stagnant = stagnant;
            if stagnant >= 5 && iteration >= 10 && checks > 15 {
                return BpStep::Stopped;
            }
        }
        self.last_checks = checks;
        if iteration == max_iterations {
            BpStep::Stopped
        } else {
            BpStep::Continue
        }
    }
}

/// What the hybrid decoder does with the posteriors of one iteration.
#[derive(Debug, Clone, Copy, PartialEq, Eq)]
pub struct Posteriors {
    /// They enter the running sum.
    pub summed: bool,
    /// The sum so far is kept as the input of this OSD attempt, from zero.
    pub saved: Option<usize>,
}

/// Posteriors of iterations `0..=max_osd` are summed; each sum after the first
/// becomes the input of one OSD attempt.
pub fn observe(iteration: u8, max_osd: u8) -> (r: Posteriors)
    ensures
        r.summed == (iteration <= max_osd && max_osd > 0),
        r.saved is Some <==> 0 < iteration <= max_osd,
        r.saved matches Some(slot) ==> slot == iteration - 1,
{
    let summed: bool = iteration <= max_osd && max_osd > 0;
    let saved: Option<usize> = if summed && iteration > 0 {
        Some((iteration - 1) as usize)
    } else {
        None
    };
    Posteriors { summed, saved }
}

/// How many OSD attempts follow a failed propagation. With `max_osd` zero the
/// only one works on the channel likelihoods.
pub fn osd_attempts(max_osd: u8) -> (r: Result<u8, DecodeError>)
    ensures
        match r {
            Ok(passes) => max_osd <= 3 && passes == (if max_osd == 0 { 1 } else { max_osd }),
            Err(error) => max_osd > 3 && error == DecodeError::UnsupportedMaxOsd(max_osd),
        },
{
    if max_osd > 3 {
        Err(DecodeError::UnsupportedMaxOsd(max_osd))
    } else if max_osd == 0 {
        Ok(1)
    } else {
        Ok(max_osd)
    }
}

#[derive(Debug, Clone, PartialEq, Eq)]
pub struct HybridDecoded {
    /// `iterations` is the BP iteration at success or at the start of fallback.
    /// For OSD, `hard_errors` is measured against the selected OSD input.
    pub decoded: Decoded,
    pub method: DecodeMethod,
    /// Bit pattern of the distance to the original channel likelihoods.
    pub distance: u32,
    /// One-based OSD attempt index, or None when BP succeeded.
    pub osd_pass: Option<u8>,
}

/// The result of a propagation that succeeded.
pub fn hybrid_from_bp(decoded: Decoded, distance: u32) -> (r: HybridDecoded)
    ensures
        r == (HybridDecoded { decoded, method: DecodeMethod::Bp, distance, osd_pass: None }),
{
    HybridDecoded { decoded, method: DecodeMethod::Bp, distance, osd_pass: None }
}

/// The result of OSD attempt `pass`, counted from zero. A candidate that has no
/// mismatch against its input is passed over.
pub fn hybrid_from_osd(
    candidate: crate::osd::Decoded,
    iterations: u8,
    pass: u8,
    distance: u32,
) -> (r: Option<HybridDecoded>)
    requires
        pass < 3,
    ensures
        r is Some <==> candidate.hard_errors != 0,
        r matches Some(hybrid) ==> {
            &&& hybrid.decoded.message == candidate.message
            &&& hybrid.decoded.codeword == candidate.codeword
            &&& hybrid.decoded.iterations == iterations
            &&& hybrid.decoded.hard_errors == candidate.hard_errors
            &&& hybrid.method == DecodeMethod::Osd
            &&& hybrid.distance == distance
            &&& hybrid.osd_pass == Some((pass + 1) as u8)
        },
{
    if candidate.hard_errors == 0 {
        return None;
    }
    Some(
        HybridDecoded {
            decoded: Decoded {
                message: candidate.message,
                codeword: candidate.codeword,
                iterations,
                hard_errors: candidate.hard_errors,
            },
            method: DecodeMethod::Osd,
            distance,
            osd_pass: Some(pass + 1),
        },
    )
}

} // verus!
