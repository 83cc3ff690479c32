//! The decisions of the receive paths: which stages and passes run, which decoded
//! words are messages, and which signals are new.
use vstd::prelude::*;
use vstd::string::*;
use crate::assistance::Activity;
use crate::engine::{DecodeDiagnostics, DecodeSettings, DecodeStats, DecodedSignal};
use crate::fec::Decoded;
use crate::message::{consistent, Message, MessageDecoder};
use crate::quantities::{HZ_6_25, HZ_50, SECONDS_0_08, SECONDS_0_396};
use crate::single::{
    at_most, closer_than, difference_below, finite, is_at_most, is_closer_than, is_difference_below,
    is_less, is_within, less, values_are_near_themselves, within,
};
use crate::symbols::{scramble_ft4, scrambled, FT4_GRAY, FT4_SYNC, FT8_SYNC};
use crate::text::{has_prefix, starts_with};
use crate::wire::{field_of, number, taught, unpacked, History, MessageModel};

verus! {

// ---------------------------------------------------------------------------
// Stages and passes
// ---------------------------------------------------------------------------

/// Successively longer parts of an FT8 slot.
#[derive(Clone, Copy, Debug, PartialEq, Eq, Structural)]
pub enum AcquisitionStage {
    Early,
    Final,
    Full,
}

/// Samples of one step of the early stages.
pub const STEP_SAMPLES: usize = 3456;

/// The search passes of one FT8 stage.
pub fn ft8_passes(depth: u8) -> (r: usize)
    ensures
        r == (if depth == 1 {
            2int
        } else {
            3
        }),
{
    if depth == 1 {
        2
    } else {
        3
    }
}

/// The search passes of an FT4 window.
pub fn ft4_passes(depth: u8) -> (r: usize)
    ensures
        r == (if depth == 1 {
            1int
        } else {
            3
        }),
{
    if depth == 1 {
        1
    } else {
        3
    }
}

/// Range of start samples that FT4 searches in each of three segments.
pub fn ft4_segment(segment: usize) -> (r: (i32, i32))
    ensures
        r == (if segment == 0 {
            (108i32, 560i32)
        } else if segment == 1 {
            (560i32, 1012i32)
        } else {
            (-344i32, 108i32)
        }),
{
    if segment == 0 {
        (108, 560)
    } else if segment == 1 {
        (560, 1012)
    } else {
        (-344, 108)
    }
}

/// Bit pattern of 0.5 s, the nominal start.
pub const NOMINAL_START: u32 = 0x3f00_0000;

/// Whether the complete waveform of an early signal is available before the last
/// steps of a slot: it starts less than 0.396 s behind the nominal start.
pub fn ends_early(start: u32) -> (r: bool)
    requires
        finite(start),
    ensures
        r == difference_below(NOMINAL_START, start, SECONDS_0_396),
{
    is_difference_below(NOMINAL_START, start, SECONDS_0_396)
}

/// Whether a refined frequency lies within the searched band.
pub fn in_band(settings: &DecodeSettings, frequency: u32) -> (r: bool)
    ensures
        r == (at_most(settings.low_hz, frequency) && at_most(frequency, settings.high_hz)),
{
    is_at_most(settings.low_hz, frequency) && is_at_most(frequency, settings.high_hz)
}

// ---------------------------------------------------------------------------
// Synchronization
// ---------------------------------------------------------------------------

/// How many of the first `n` symbols are sync symbols with the expected tone.
pub open spec fn sync_matches(peaks: Seq<u8>, n: nat) -> nat
    decreases n,
{
    if n == 0 {
        0
    } else {
        sync_matches(peaks, (n - 1) as nat) + (if (n - 1) % 36 < 7 && peaks[n - 1] == FT8_SYNC@[(n
            - 1) % 36] {
            1nat
        } else {
            0nat
        })
    }
}

/// How many sync symbols of an FT8 signal have their expected tone as strongest.
pub fn count_sync(peaks: &[u8; 79]) -> (r: usize)
    ensures
        r == sync_matches(peaks@, 79),
{
    let mut count: usize = 0;
    let mut k: usize = 0;
    while k < 79
        invariant
            k <= 79,
            count <= k,
            count == sync_matches(peaks@, k as nat),
        decreases 79 - k,
    {
        let offset: usize = k % 36;
        if offset < 7 && peaks[k] == FT8_SYNC[offset] {
            count = count + 1;
        }
        k = k + 1;
    }
    count
}

/// Whether enough sync symbols match to go on with an FT8 candidate.
pub fn sync_suffices(matches: usize, depth: u8, squared: bool) -> (r: bool)
    ensures
        r == (matches > (if depth <= 2 {
            8int
        } else if squared {
            7
        } else {
            6
        })),
{
    let least: usize = if depth <= 2 {
        8
    } else if squared {
        7
    } else {
        6
    };
    matches > least
}

/// Whether a signal is too faint for its few sync matches. `faint` says that it
/// is below -25 dB.
pub fn is_spurious(matches: usize, faint: bool) -> (r: bool)
    ensures
        r == (matches <= 10 && faint),
{
    matches <= 10 && faint
}

/// How many of the first `n` FT4 sync symbols have the expected tone.
pub open spec fn ft4_sync_matches(peaks: Seq<u8>, n: nat) -> nat
    decreases n,
{
    if n == 0 {
        0
    } else {
        let j = n - 1;
        ft4_sync_matches(peaks, j as nat) + (if peaks[j / 4 * 33 + j % 4] == FT4_SYNC@[j / 4]@[j
            % 4] {
            1nat
        } else {
            0nat
        })
    }
}

/// How many sync symbols of an FT4 signal, without its ramps, have their expected
/// tone as strongest.
pub fn count_sync_ft4(peaks: &[u8; 103]) -> (r: usize)
    ensures
        r == ft4_sync_matches(peaks@, 16),
{
    let mut count: usize = 0;
    let mut j: usize = 0;
    while j < 16
        invariant
            j <= 16,
            count <= j,
            count == ft4_sync_matches(peaks@, j as nat),
        decreases 16 - j,
    {
        let block: usize = j / 4;
        let place: usize = j % 4;
        if peaks[block * 33 + place] == FT4_SYNC[block][place] {
            count = count + 1;
        }
        j = j + 1;
    }
    count
}

/// Bit `j` of the 32 sync bits of an FT4 signal.
pub open spec fn ft4_sync_bit(j: int) -> bool {
    let tone = FT4_GRAY@[FT4_SYNC@[j / 8]@[j / 2 % 4] as int];
    if j % 2 == 0 {
        tone / 2 == 1
    } else {
        tone % 2 == 1
    }
}

/// How many of the first `n` FT4 sync bits are as expected.
pub open spec fn ft4_bit_matches(bits: Seq<bool>, n: nat) -> nat
    decreases n,
{
    if n == 0 {
        0
    } else {
        let j = n - 1;
        ft4_bit_matches(bits, j as nat) + (if bits[2 * (j / 8 * 33 + j / 2 % 4) + j % 2]
            == ft4_sync_bit(j) {
            1nat
        } else {
            0nat
        })
    }
}

/// How many sync bits of an FT4 signal, without its ramps, are as expected.
pub fn sync_quality_ft4(bits: &[bool; 206]) -> (r: usize)
    ensures
        r == ft4_bit_matches(bits@, 32),
{
    let mut count: usize = 0;
    let mut j: usize = 0;
    while j < 32
        invariant
            j <= 32,
            count <= j,
            count == ft4_bit_matches(bits@, j as nat),
        decreases 32 - j,
    {
        let block: usize = j / 8;
        let place: usize = j / 2 % 4;
        let sent: u8 = FT4_SYNC[block][place];
        assert(sent < 4);
        let tone: u8 = FT4_GRAY[sent as usize];
        let expected: bool = if j % 2 == 0 { tone / 2 == 1 } else { tone % 2 == 1 };
        if bits[2 * (block * 33 + place) + j % 2] == expected {
            count = count + 1;
        }
        j = j + 1;
    }
    count
}

/// Whether enough sync symbols match to go on with an FT4 candidate.
pub fn ft4_sync_suffices(matches: usize) -> (r: bool)
    ensures
        r == (matches >= 8),
{
    matches >= 8
}

/// Whether enough sync bits match to go on with an FT4 candidate.
pub fn ft4_quality_suffices(matches: usize) -> (r: bool)
    ensures
        r == (matches >= 20),
{
    matches >= 20
}

/// Where a codeword bit stands among the bits of an FT4 signal without its ramps:
/// behind one sync group for every 58 bits, and the one before them.
pub fn ft4_position(bit: usize) -> (r: usize)
    requires
        bit < 174,
    ensures
        r == 8 + bit + 8 * (bit as int / 58),
        r < 206,
{
    8 + bit + 8 * (bit / 58)
}

/// How many OSD attempts FT4 makes: one more within 50 Hz of the receive frequency.
pub fn ft4_osd(rx: Option<u32>, frequency: u32) -> (r: u8)
    ensures
        r == (if rx matches Some(hz) && within(hz, frequency, HZ_50) {
            3int
        } else {
            2
        }),
{
    match rx {
        Some(hz) => if is_within(hz, frequency, HZ_50) {
            3
        } else {
            2
        },
        None => 2,
    }
}

// ---------------------------------------------------------------------------
// Attempts
// ---------------------------------------------------------------------------

/// How errors are corrected: by belief propagation alone, or with searches by order
/// statistics behind it.
#[derive(Clone, Copy, Debug, PartialEq, Eq, Structural)]
pub enum Correction {
    Propagation { iterations: u8 },
    Hybrid { max_osd: u8, depth: u8 },
}

/// The correction of FT8 words at a depth.
pub fn ft8_correction(depth: u8) -> (r: Correction)
    ensures
        r == (if depth == 1 {
            Correction::Propagation { iterations: 30 }
        } else {
            Correction::Hybrid { max_osd: 2, depth: 2 }
        }),
{
    if depth == 1 {
        Correction::Propagation { iterations: 30 }
    } else {
        Correction::Hybrid { max_osd: 2, depth: 2 }
    }
}

/// The correction of FT4 words at a depth: only the deepest search goes beyond propagation,
/// and once more within 50 Hz of the receive frequency.
pub fn ft4_correction(depth: u8, rx: Option<u32>, frequency: u32) -> (r: Correction)
    ensures
        r == (if depth != 3 {
            Correction::Propagation { iterations: 30 }
        } else if rx matches Some(hz) && within(hz, frequency, HZ_50) {
            Correction::Hybrid { max_osd: 3, depth: 2 }
        } else {
            Correction::Hybrid { max_osd: 2, depth: 2 }
        }),
{
    if depth == 3 {
        Correction::Hybrid { max_osd: ft4_osd(rx, frequency), depth: 2 }
    } else {
        Correction::Propagation { iterations: 30 }
    }
}

/// One attempt to decode a candidate: by squared or plain magnitudes, by one of the
/// metrics, and under a hypothesis or without one.
#[derive(Clone, Copy, Debug, PartialEq, Eq)]
pub struct Attempt {
    pub squared: bool,
    pub metric: usize,
    pub hypothesis: Option<usize>,
}

/// Each metric in turn, without a hypothesis.
pub open spec fn unassisted(squared: bool) -> Seq<Attempt> {
    Seq::new(5, |i: int| Attempt { squared, metric: i as usize, hypothesis: None })
}

/// The single- and the three-symbol metric under each hypothesis.
pub open spec fn assisted(squared: bool, hypotheses: nat) -> Seq<Attempt> {
    Seq::new(
        2 * hypotheses,
        |i: int|
            Attempt {
                squared,
                metric: if i % 2 == 0 {
                    0
                } else {
                    2
                },
                hypothesis: Some((i / 2) as usize),
            },
    )
}

/// The attempts on an FT8 candidate. Subtraction can expose a signal that never had
/// usable plain metrics, so the deepest search tries those after the squared ones.
/// Hypotheses follow, but not in the early stage.
pub open spec fn ft8_plan(squared: bool, depth: u8, early: bool, hypotheses: nat) -> Seq<Attempt> {
    unassisted(squared) + (if squared && depth == 3 {
        unassisted(false)
    } else {
        Seq::empty()
    }) + (if early {
        Seq::empty()
    } else {
        assisted(squared, hypotheses)
    })
}

fn push_unassisted(out: &mut Vec<Attempt>, squared: bool)
    ensures
        final(out)@ == old(out)@ + unassisted(squared),
{
    let ghost start = out@;
    let mut i: usize = 0;
    while i < 5
        invariant
            i <= 5,
            out@ =~= start + unassisted(squared).take(i as int),
        decreases 5 - i,
    {
        out.push(Attempt { squared, metric: i, hypothesis: None });
        i = i + 1;
    }
    assert(unassisted(squared).take(5) =~= unassisted(squared));
}

/// The attempts on an FT8 candidate, in order.
pub fn ft8_attempts(squared: bool, depth: u8, early: bool, hypotheses: usize) -> (r: Vec<Attempt>)
    ensures
        r@ == ft8_plan(squared, depth, early, hypotheses as nat),
{
    let mut out: Vec<Attempt> = Vec::new();
    push_unassisted(&mut out, squared);
    if squared && depth == 3 {
        push_unassisted(&mut out, false);
    }
    let ghost start = out@;
    if !early {
        let mut h: usize = 0;
        while h < hypotheses
            invariant
                h <= hypotheses,
                out@ =~= start + assisted(squared, h as nat),
            decreases hypotheses - h,
        {
            out.push(Attempt { squared, metric: 0, hypothesis: Some(h) });
            out.push(Attempt { squared, metric: 2, hypothesis: Some(h) });
            h = h + 1;
        }
    }
    assert(out@ =~= ft8_plan(squared, depth, early, hypotheses as nat));
    out
}

/// Attempt `k` on an FT4 candidate: by each of three metrics, then under each
/// hypothesis by the last of them.
pub fn ft4_attempt(k: usize) -> (r: Attempt)
    ensures
        r == (if k < 3 {
            Attempt { squared: false, metric: k, hypothesis: None }
        } else {
            Attempt { squared: false, metric: 2, hypothesis: Some((k - 3) as usize) }
        }),
{
    if k < 3 {
        Attempt { squared: false, metric: k, hypothesis: None }
    } else {
        Attempt { squared: false, metric: 2, hypothesis: Some(k - 3) }
    }
}

// ---------------------------------------------------------------------------
// Messages
// ---------------------------------------------------------------------------

/// The text holds the two characters one after the other.
pub open spec fn holds_pair(s: Seq<char>, a: char, b: char) -> bool {
    exists|i: int| 0 <= i < s.len() - 1 && #[trigger] s[i] == a && s[i + 1] == b
}

fn has_pair(s: &str, a: char, b: char) -> (r: bool)
    ensures
        r == holds_pair(s@, a, b),
{
    let n: usize = s.unicode_len();
    let mut i: usize = 0;
    while n > 0 && i < n - 1
        invariant
            i <= n,
            n == s@.len(),
            forall|k: int| 0 <= k < i && k + 1 < n ==> !(#[trigger] s@[k] == a && s@[k + 1] == b),
        decreases n - i,
    {
        if s.get_char(i) == a && s.get_char(i + 1) == b {
            assert(s@[i as int] == a && s@[i + 1] == b);
            return true;
        }
        i = i + 1;
    }
    false
}

/// A codeword without any one.
pub open spec fn is_zero_word(word: Seq<bool>) -> bool {
    forall|i: int| 0 <= i < word.len() ==> !#[trigger] word[i]
}

fn zero_codeword(word: &[bool; 174]) -> (r: bool)
    ensures
        r == is_zero_word(word@),
{
    let mut i: usize = 0;
    while i < 174
        invariant
            i <= 174,
            forall|k: int| 0 <= k < i ==> !#[trigger] word@[k],
        decreases 174 - i,
    {
        if word[i] {
            return false;
        }
        i = i + 1;
    }
    true
}

fn zero_payload(word: &[bool; 77]) -> (r: bool)
    ensures
        r == is_zero_word(word@),
{
    let mut i: usize = 0;
    while i < 77
        invariant
            i <= 77,
            forall|k: int| 0 <= k < i ==> !#[trigger] word@[k],
        decreases 77 - i,
    {
        if word[i] {
            return false;
        }
        i = i + 1;
    }
    true
}

fn three_bits(bits: &[bool; 77], at: usize) -> (r: u8)
    requires
        at + 3 <= 77,
    ensures
        r == field_of(bits@, at as int, 3),
{
    proof {
        reveal_with_fuel(number, 4);
        let s = bits@.subrange(at as int, at + 3);
        assert(s.drop_last().drop_last().drop_last() =~= Seq::<bool>::empty());
        assert(s.last() == bits@[at + 2]);
        assert(s.drop_last().last() == bits@[at + 1]);
        assert(s.drop_last().drop_last().last() == bits@[at as int]);
    }
    let a: u8 = if bits[at] { 4 } else { 0 };
    let b: u8 = if bits[at + 1] { 2 } else { 0 };
    let c: u8 = if bits[at + 2] { 1 } else { 0 };
    a + b + c
}

/// A payload type that is in use.
pub open spec fn is_type_in_use(bits: Seq<bool>) -> bool {
    let primary = field_of(bits, 74, 3);
    let subtype = field_of(bits, 71, 3);
    primary <= 5 && !(primary == 0 && (subtype > 6 || subtype == 2))
}

/// Contest forms are not expected in normal activity.
pub open spec fn is_unexpected(bits: Seq<bool>, text: Seq<char>, activity: Activity) -> bool {
    let primary = field_of(bits, 74, 3);
    activity == Activity::Normal && 1 <= primary <= 3 && (holds_pair(text, '/', 'R')
        || starts_with(text, "TU; "@))
}

/// The word is judged without unpacking it.
pub open spec fn is_rejected_word(decoded: Decoded) -> bool {
    decoded.hard_errors > 36 || is_zero_word(decoded.codeword@) || !is_type_in_use(
        decoded.message@,
    )
}

/// The message that a decoded FT8 word is accepted as.
pub open spec fn ft8_message(history: History, decoded: Decoded, activity: Activity) -> Option<
    MessageModel,
> {
    if is_rejected_word(decoded) {
        None
    } else {
        match unpacked(history, decoded.message@) {
            Err(_) => None,
            Ok(message) => if is_unexpected(decoded.message@, message.text, activity) {
                None
            } else {
                Some(message)
            },
        }
    }
}

/// The message of a decoded FT8 word, if it is acceptable. Any word that unpacks
/// teaches its call.
pub fn accept_ft8(decoded: &Decoded, messages: &mut MessageDecoder, activity: Activity) -> (r:
    Option<Message>)
    requires
        consistent(old(messages)@),
    ensures
        consistent(final(messages)@),
        is_rejected_word(*decoded) ==> r is None && final(messages)@ == old(messages)@,
        !is_rejected_word(*decoded) ==> {
            &&& final(messages)@ == taught(old(messages)@, decoded.message@)
            &&& match unpacked(old(messages)@, decoded.message@) {
                Err(_) => r is None,
                Ok(message) => if is_unexpected(decoded.message@, message.text, activity) {
                    r is None
                } else {
                    r matches Some(found) && found.deep_view() == message
                },
            }
        },
        match (r, ft8_message(old(messages)@, *decoded, activity)) {
            (Some(found), Some(message)) => found.deep_view() == message,
            (None, None) => true,
            _ => false,
        },
{
    if decoded.hard_errors > 36 || zero_codeword(&decoded.codeword) {
        return None;
    }
    let subtype: u8 = three_bits(&decoded.message, 71);
    let primary: u8 = three_bits(&decoded.message, 74);
    if primary > 5 || (primary == 0 && (subtype > 6 || subtype == 2)) {
        return None;
    }
    let message: Message = match messages.unpack(&decoded.message) {
        Ok(message) => message,
        Err(_) => {
            return None;
        },
    };
    if activity == Activity::Normal && 1 <= primary && primary <= 3 && (has_pair(
        message.text.as_str(),
        '/',
        'R',
    ) || has_prefix(message.text.as_str(), "TU; ")) {
        return None;
    }
    Some(message)
}

/// What becomes of a decoded FT4 word.
#[derive(Debug)]
pub enum Ft4Word {
    /// It is blank; the next attempt follows.
    Blank,
    /// It is no message; this segment is given up.
    Abandoned,
    /// It is a message, with its descrambled payload.
    Accepted([bool; 77], Message),
}

/// The message that a decoded FT4 word is accepted as; the word is still scrambled.
pub open spec fn ft4_message(history: History, decoded: Decoded) -> Option<MessageModel> {
    if is_zero_word(decoded.message@) {
        None
    } else {
        match unpacked(history, scrambled(decoded.message@)) {
            Err(_) => None,
            Ok(message) => Some(message),
        }
    }
}

/// Judges a decoded FT4 word, which is still scrambled.
pub fn accept_ft4(decoded: &Decoded, messages: &mut MessageDecoder) -> (r: Ft4Word)
    requires
        consistent(old(messages)@),
    ensures
        consistent(final(messages)@),
        ({
            let payload = scrambled(decoded.message@);
            if is_zero_word(decoded.message@) {
                r is Blank && final(messages)@ == old(messages)@
            } else {
                &&& final(messages)@ == taught(old(messages)@, payload)
                &&& match unpacked(old(messages)@, payload) {
                    Err(_) => r is Abandoned,
                    Ok(message) => r matches Ft4Word::Accepted(bits, found) && bits@ == payload
                        && found.deep_view() == message,
                }
            }
        }),
        match (r, ft4_message(old(messages)@, *decoded)) {
            (Ft4Word::Accepted(_, found), Some(message)) => found.deep_view() == message,
            (Ft4Word::Accepted(_, _), None) => false,
            (_, expected) => expected is None,
        },
{
    if zero_payload(&decoded.message) {
        return Ft4Word::Blank;
    }
    let payload: [bool; 77] = scramble_ft4(&decoded.message);
    match messages.unpack(&payload) {
        Ok(message) => Ft4Word::Accepted(payload, message),
        Err(_) => Ft4Word::Abandoned,
    }
}

/// Bit pattern of 0.17.
pub const LEAST_CONFIDENCE: u32 = 0x3e2e_147b;

/// Notes how far an assisted FT8 decode is to be trusted.
pub fn note_ft8(diagnostics: &mut DecodeDiagnostics, ap_type: Option<u8>, confidence: Option<u32>)
    ensures
        *final(diagnostics) == (DecodeDiagnostics {
            ap_type,
            confidence,
            questionable: confidence matches Some(q) && less(q, LEAST_CONFIDENCE),
            ..*old(diagnostics)
        }),
{
    diagnostics.ap_type = ap_type;
    diagnostics.confidence = confidence;
    diagnostics.questionable = match confidence {
        Some(q) => is_less(q, LEAST_CONFIDENCE),
        None => false,
    };
}

/// Notes how far an FT4 decode is to be trusted, and the pass that found it.
pub fn note_ft4(
    diagnostics: &mut DecodeDiagnostics,
    ap_type: Option<u8>,
    confidence: u32,
    pass: usize,
)
    ensures
        *final(diagnostics) == (DecodeDiagnostics {
            pass,
            ap_type,
            confidence: Some(confidence),
            questionable: at_most(confidence, LEAST_CONFIDENCE),
            ..*old(diagnostics)
        }),
{
    diagnostics.pass = pass;
    diagnostics.ap_type = ap_type;
    diagnostics.confidence = Some(confidence);
    diagnostics.questionable = is_at_most(confidence, LEAST_CONFIDENCE);
}

// ---------------------------------------------------------------------------
// New signals
// ---------------------------------------------------------------------------

/// What tells signals apart: the payload, and the bit patterns of its frequency and
/// time in single precision.
#[derive(Clone, Copy, Debug, PartialEq, Eq)]
pub struct Identity {
    pub bits: [bool; 77],
    pub frequency: u32,
    pub time: u32,
}

/// Two observations of one signal: the same payload from closer than the given
/// distances.
pub open spec fn are_one(a: Identity, b: Identity, hz: u32, seconds: u32) -> bool {
    &&& a.bits@ == b.bits@
    &&& closer_than(a.frequency, b.frequency, hz)
    &&& closer_than(a.time, b.time, seconds)
}

/// The signal was met before.
pub open spec fn was_met(met: Seq<Identity>, signal: Identity, hz: u32, seconds: u32) -> bool {
    exists|i: int| 0 <= i < met.len() && are_one(#[trigger] met[i], signal, hz, seconds)
}

pub(crate) fn same_bits(a: &[bool; 77], b: &[bool; 77]) -> (r: bool)
    ensures
        r == (a@ == b@),
{
    let mut i: usize = 0;
    while i < 77
        invariant
            i <= 77,
            forall|k: int| 0 <= k < i ==> a@[k] == b@[k],
        decreases 77 - i,
    {
        if a[i] != b[i] {
            return false;
        }
        i = i + 1;
    }
    assert(a@ =~= b@);
    true
}

/// Whether a signal was met before.
pub fn met_before(met: &Vec<Identity>, signal: &Identity, hz: u32, seconds: u32) -> (r: bool)
    requires
        hz > 0,
        seconds > 0,
    ensures
        r == was_met(met@, *signal, hz, seconds),
{
    let mut i: usize = 0;
    while i < met.len()
        invariant
            i <= met.len(),
            hz > 0,
            seconds > 0,
            forall|k: int| 0 <= k < i ==> !are_one(#[trigger] met@[k], *signal, hz, seconds),
        decreases met.len() - i,
    {
        if same_bits(&met[i].bits, &signal.bits) && is_closer_than(
            met[i].frequency,
            signal.frequency,
            hz,
        ) && is_closer_than(met[i].time, signal.time, seconds) {
            assert(are_one(met@[i as int], *signal, hz, seconds));
            return true;
        }
        i = i + 1;
    }
    false
}

/// A signal from a known place that was reported is not reported again.
pub proof fn reported_signals_are_not_repeated(
    met: Seq<Identity>,
    signal: Identity,
    hz: u32,
    seconds: u32,
)
    requires
        finite(signal.frequency),
        finite(signal.time),
        0 < hz <= 0x7f80_0000,
        0 < seconds <= 0x7f80_0000,
    ensures
        was_met(met.push(signal), signal, hz, seconds),
{
    values_are_near_themselves(signal.frequency, (hz - 1) as u32);
    values_are_near_themselves(signal.time, (seconds - 1) as u32);
    assert(are_one(met.push(signal)[met.len() as int], signal, hz, seconds));
}

// ---------------------------------------------------------------------------
// Bands of parallel workers
// ---------------------------------------------------------------------------

/// Part of the frequency range, by bit patterns of single precision values.
#[derive(Clone, Copy, Debug, PartialEq, Eq)]
pub struct Band {
    pub low: u32,
    pub high: u32,
    pub last: bool,
}

/// Signals in this band are reported by its worker.
pub open spec fn owned_by(band: Band, frequency: u32) -> bool {
    at_most(band.low, frequency) && (less(frequency, band.high) || (band.last && at_most(
        frequency,
        band.high,
    ) && at_most(band.high, frequency)))
}

impl Band {
    pub fn owns(self, frequency: u32) -> (r: bool)
        ensures
            r == owned_by(self, frequency),
    {
        is_at_most(self.low, frequency) && (is_less(frequency, self.high) || (self.last
            && is_at_most(frequency, self.high) && is_at_most(self.high, frequency)))
    }
}

/// The band between edges `i` and `i + 1`.
pub open spec fn band_between(edges: Seq<u32>, i: int) -> Band {
    Band { low: edges[i], high: edges[i + 1], last: i + 2 == edges.len() }
}

/// The bands between the given edges.
pub fn partition(edges: &Vec<u32>) -> (r: Vec<Band>)
    requires
        edges.len() >= 2,
    ensures
        r@ == Seq::new((edges@.len() - 1) as nat, |i: int| band_between(edges@, i)),
{
    let n: usize = edges.len() - 1;
    let mut bands: Vec<Band> = Vec::new();
    let mut i: usize = 0;
    while i < n
        invariant
            i <= n,
            n == edges.len() - 1,
            bands@ =~= Seq::new(i as nat, |i: int| band_between(edges@, i)),
        decreases n - i,
    {
        bands.push(Band { low: edges[i], high: edges[i + 1], last: i + 1 == n });
        i = i + 1;
    }
    bands
}

/// Edges that are numbers and ascend.
pub open spec fn ascend(edges: Seq<u32>) -> bool {
    forall|i: int, j: int| 0 <= i <= j < edges.len() ==> at_most(edges[i], edges[j])
}

/// Every frequency between the outer edges belongs to a band.
pub proof fn every_frequency_is_owned(edges: Seq<u32>, frequency: u32)
    requires
        edges.len() >= 2,
        ascend(edges),
        at_most(edges[0], frequency),
        at_most(frequency, edges.last()),
    ensures
        exists|i: int|
            0 <= i < edges.len() - 1 && owned_by(#[trigger] band_between(edges, i), frequency),
{
    lemma_owned_from(edges, frequency, 0);
}

proof fn lemma_owned_from(edges: Seq<u32>, frequency: u32, n: int)
    requires
        edges.len() >= 2,
        ascend(edges),
        at_most(edges[0], frequency),
        at_most(frequency, edges.last()),
        0 <= n <= edges.len() - 2,
        at_most(edges[n], frequency),
    ensures
        exists|i: int|
            n <= i < edges.len() - 1 && owned_by(#[trigger] band_between(edges, i), frequency),
    decreases edges.len() - n,
{
    let band = band_between(edges, n);
    if less(frequency, edges[n + 1]) || n + 2 == edges.len() {
        assert(at_most(edges[n], edges[n + 1]));
        assert(owned_by(band, frequency));
    } else {
        assert(at_most(edges[n + 1], edges[n + 1]));
        lemma_owned_from(edges, frequency, n + 1);
        let i = choose|i: int|
            n + 1 <= i < edges.len() - 1 && owned_by(#[trigger] band_between(edges, i), frequency);
        assert(owned_by(band_between(edges, i), frequency));
    }
}

/// No frequency belongs to two bands, so no signal is reported by two workers.
pub proof fn no_frequency_is_owned_twice(edges: Seq<u32>, frequency: u32, i: int, j: int)
    requires
        ascend(edges),
        0 <= i < edges.len() - 1,
        0 <= j < edges.len() - 1,
        owned_by(band_between(edges, i), frequency),
        owned_by(band_between(edges, j), frequency),
    ensures
        i == j,
{
    if i < j {
        assert(at_most(edges[i + 1], edges[j]));
    }
    if j < i {
        assert(at_most(edges[j + 1], edges[i]));
    }
}

/// Most results of one worker.
pub const MAX_WORKER_RESULTS: usize = 9000;

/// What one worker has found in its own band.
pub struct WorkerResults {
    pub found: Vec<DecodedSignal>,
    /// There were too many.
    pub overflow: bool,
}

impl WorkerResults {
    pub fn new() -> (r: Self)
        ensures
            r.found@.len() == 0,
            !r.overflow,
    {
        WorkerResults { found: Vec::new(), overflow: false }
    }

    /// Keeps a signal if it belongs to the band; others were searched only to be
    /// subtracted.
    pub fn take(&mut self, band: Band, signal: DecodedSignal)
        ensures
            final(self).found@ == (if owned_by(band, signal.frequency_hz)
                && old(self).found@.len() < MAX_WORKER_RESULTS {
                old(self).found@.push(signal)
            } else {
                old(self).found@
            }),
            final(self).overflow == (old(self).overflow || (owned_by(band, signal.frequency_hz)
                && old(self).found@.len() >= MAX_WORKER_RESULTS)),
    {
        if band.owns(signal.frequency_hz) {
            if self.found.len() < MAX_WORKER_RESULTS {
                self.found.push(signal);
            } else {
                self.overflow = true;
            }
        }
    }
}

/// Signals of all workers, merged in band order.
pub struct Merge {
    pub accepted: Vec<Identity>,
    pub stats: DecodeStats,
}

/// What identifies a signal by its offset from the nominal start.
pub open spec fn identity_of(signal: DecodedSignal) -> Identity {
    Identity {
        bits: signal.source_bits,
        frequency: signal.frequency_hz,
        time: signal.dt_seconds,
    }
}

impl Merge {
    pub fn new() -> (r: Self)
        ensures
            r.accepted@.len() == 0,
            r.stats == (DecodeStats { candidates: 0, passes: 0, decoded: 0, cancelled: false }),
    {
        Merge {
            accepted: Vec::new(),
            stats: DecodeStats { candidates: 0, passes: 0, decoded: 0, cancelled: false },
        }
    }

    /// Whether the counts of a worker can be added.
    pub fn has_room(&self, worker: &DecodeStats) -> (r: bool)
        ensures
            r == (self.stats.candidates + worker.candidates <= usize::MAX && self.stats.passes
                + worker.passes <= usize::MAX),
    {
        worker.candidates <= usize::MAX - self.stats.candidates && worker.passes <= usize::MAX
            - self.stats.passes
    }

    /// Adds what a worker has counted; decodes are counted as they are delivered.
    pub fn count(&mut self, worker: DecodeStats)
        requires
            old(self).stats.candidates + worker.candidates <= usize::MAX,
            old(self).stats.passes + worker.passes <= usize::MAX,
        ensures
            final(self).accepted == old(self).accepted,
            final(self).stats == (DecodeStats {
                candidates: (old(self).stats.candidates + worker.candidates) as usize,
                passes: (old(self).stats.passes + worker.passes) as usize,
                decoded: old(self).stats.decoded,
                cancelled: old(self).stats.cancelled || worker.cancelled,
            }),
    {
        self.stats.candidates = self.stats.candidates + worker.candidates;
        self.stats.passes = self.stats.passes + worker.passes;
        if worker.cancelled {
            self.stats.cancelled = true;
        }
    }

    /// The signal as it is delivered, if it is new: refinement can straddle a
    /// boundary of two bands. Its message is read once more with the history of the
    /// stream, which learns from it.
    pub fn deliver(&mut self, messages: &mut MessageDecoder, signal: DecodedSignal) -> (r: Option<
        DecodedSignal,
    >)
        requires
            consistent(old(messages)@),
            old(self).stats.decoded < usize::MAX,
        ensures
            consistent(final(messages)@),
            r is None <==> was_met(old(self).accepted@, identity_of(signal), HZ_6_25, SECONDS_0_08),
            r is None ==> {
                &&& final(messages)@ == old(messages)@
                &&& final(self).accepted == old(self).accepted
                &&& final(self).stats == old(self).stats
            },
            r matches Some(delivered) ==> {
                &&& final(messages)@ == taught(old(messages)@, signal.source_bits@)
                &&& final(self).accepted@ == old(self).accepted@.push(identity_of(signal))
                &&& final(self).stats == (DecodeStats {
                    decoded: (old(self).stats.decoded + 1) as usize,
                    ..old(self).stats
                })
                &&& match unpacked(old(messages)@, signal.source_bits@) {
                    Ok(message) => {
                        &&& delivered.message.deep_view() == message
                        &&& delivered == (DecodedSignal { message: delivered.message, ..signal })
                    },
                    Err(_) => delivered == signal,
                }
            },
    {
        let identity: Identity = Identity {
            bits: signal.source_bits,
            frequency: signal.frequency_hz,
            time: signal.dt_seconds,
        };
        if met_before(&self.accepted, &identity, HZ_6_25, SECONDS_0_08) {
            return None;
        }
        self.accepted.push(identity);
        self.stats.decoded = self.stats.decoded + 1;
        let mut delivered: DecodedSignal = signal;
        match messages.unpack(&delivered.source_bits) {
            Ok(message) => {
                delivered.message = message;
            },
            Err(_) => {},
        }
        Some(delivered)
    }

    /// Notes a request to stop.
    pub fn cancelled(&mut self, cancel: bool) -> (r: bool)
        ensures
            r == cancel,
            final(self).accepted == old(self).accepted,
            final(self).stats == (DecodeStats {
                cancelled: old(self).stats.cancelled || cancel,
                ..old(self).stats
            }),
    {
        if cancel {
            self.stats.cancelled = true;
        }
        cancel
    }
}

} // verus!
