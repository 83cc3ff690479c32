//! What becomes of decoded words and signals.
use vstd::prelude::*;
use crate::assistance::Activity;
use crate::fec::{encoded, Decoded};
use crate::message::MessageKind;
use crate::message_encode::payload_of_text;
use crate::search::{are_one, ft4_message, ft8_message, holds_pair, is_zero_word, was_met, Identity};
use crate::single::{closer_than, finite, signed_units, units};
use crate::symbols::{scrambled, scrambling_restores};
use crate::text::{joined, starts_with};
use crate::text_round_trip::{is_plain_message, plain_texts_round_trip};
use crate::wire::{field_of, number, unpacked, History, MessageModel};

verus! {

// ---------------------------------------------------------------------------
// Accepted words
// ---------------------------------------------------------------------------

/// A word is accepted as the message that it unpacks to unless one of these holds: more than
/// 36 bits were corrected; every bit is zero; its type is not in use; it does not unpack; or
/// it has the form of a contest message while no contest is on: a rover call or thanks in a
/// message of type one to three.
pub proof fn words_are_refused_for_a_reason(history: History, decoded: Decoded, activity: Activity)
    ensures
        ({
            let bits = decoded.message@;
            let kind = (if bits[74] { 4int } else { 0 }) + (if bits[75] { 2int } else { 0 }) + (
            if bits[76] { 1int } else { 0 });
            let subtype = (if bits[71] { 4int } else { 0 }) + (if bits[72] { 2int } else { 0 }) + (
            if bits[73] { 1int } else { 0 });
            let all_zero = forall|i: int| 0 <= i < 174 ==> !#[trigger] decoded.codeword@[i];
            let contest = |text: Seq<char>|
                {
                    ||| exists|i: int|
                        0 <= i < text.len() - 1 && #[trigger] text[i] == '/' && text[i + 1] == 'R'
                    ||| text.len() >= 4 && text[0] == 'T' && text[1] == 'U' && text[2] == ';'
                        && text[3] == ' '
                };
            match ft8_message(history, decoded, activity) {
                Some(message) => {
                    &&& unpacked(history, bits) == Ok::<MessageModel, crate::message::MessageError>(
                        message,
                    )
                    &&& decoded.hard_errors <= 36
                    &&& !all_zero
                    &&& kind <= 5
                    &&& kind == 0 ==> subtype != 2 && subtype != 7
                    &&& activity == Activity::Normal && 1 <= kind <= 3 ==> !contest(message.text)
                },
                None => {
                    ||| decoded.hard_errors > 36
                    ||| all_zero
                    ||| kind >= 6
                    ||| kind == 0 && (subtype == 2 || subtype == 7)
                    ||| unpacked(history, bits) is Err
                    ||| activity == Activity::Normal && 1 <= kind <= 3 && contest(
                        unpacked(history, bits)->Ok_0.text,
                    )
                },
            }
        }),
{
    let bits = decoded.message@;
    lemma_three_bits(bits, 74);
    lemma_three_bits(bits, 71);
    reveal_strlit("TU; ");
    if let Ok(message) = unpacked(history, bits) {
        let text = message.text;
        if starts_with(text, "TU; "@) {
            assert(text[0] == text.take(4)[0] && text[1] == text.take(4)[1] && text[2]
                == text.take(4)[2] && text[3] == text.take(4)[3]);
        }
        if text.len() >= 4 && text[0] == 'T' && text[1] == 'U' && text[2] == ';' && text[3] == ' ' {
            assert(text.take(4) =~= "TU; "@);
        }
    }
}

proof fn lemma_three_bits(bits: Seq<bool>, at: int)
    requires
        0 <= at,
        at + 3 <= bits.len(),
    ensures
        field_of(bits, at, 3) == (if bits[at] { 4int } else { 0 }) + (if bits[at + 1] { 2int } else {
            0
        }) + (if bits[at + 2] { 1int } else { 0 }),
{
    reveal_with_fuel(number, 4);
    let s = bits.subrange(at, at + 3);
    assert(s.drop_last().drop_last().drop_last() =~= Seq::<bool>::empty());
    assert(s.last() == bits[at + 2]);
    assert(s.drop_last().last() == bits[at + 1]);
    assert(s.drop_last().drop_last().last() == bits[at]);
}

/// A word of two plain calls, or of one behind CQ, DE or QRZ, and what may follow them is
/// accepted in every activity as the text that was sent, with up to 36 corrected bits.
pub proof fn plain_words_are_accepted(
    history: History,
    decoded: Decoded,
    activity: Activity,
    w: Seq<Seq<char>>,
)
    requires
        is_plain_message(w),
        payload_of_text(joined(w)) == Ok::<Seq<bool>, crate::message::MessageError>(
            decoded.message@,
        ),
        decoded.codeword@ == encoded(decoded.message@),
        decoded.hard_errors <= 36,
    ensures
        ft8_message(history, decoded, activity) matches Some(message) && message.text == joined(w)
            && message.kind == MessageKind::Standard,
{
    plain_texts_round_trip(history, w);
    let bits = decoded.message@;
    let text = joined(w);
    crate::text_round_trip::lemma_plain_type(w, bits);
    lemma_three_bits(bits, 74);
    assert(bits[76]);
    assert(decoded.codeword@[76] == bits[76]);
    assert(!is_zero_word(decoded.codeword@)) by {
        assert(decoded.codeword@[76]);
    }
    crate::text_round_trip::lemma_plain_shape(w);
    reveal_strlit("TU; ");
    if starts_with(text, "TU; "@) {
        assert(text[2] == text.take(4)[2]);
        assert(text.contains(';'));
    }
    if holds_pair(text, '/', 'R') {
        let i = choose|i: int| 0 <= i < text.len() - 1 && #[trigger] text[i] == '/' && text[i + 1] == 'R';
        assert(text.contains('/'));
    }
}

/// An FT4 word is descrambled first: one of a plain message is accepted as the text that was
/// sent, whatever was corrected.
pub proof fn plain_ft4_words_are_accepted(
    history: History,
    decoded: Decoded,
    w: Seq<Seq<char>>,
    payload: Seq<bool>,
)
    requires
        is_plain_message(w),
        payload_of_text(joined(w)) == Ok::<Seq<bool>, crate::message::MessageError>(payload),
        decoded.message@ == scrambled(payload),
        !is_zero_word(decoded.message@),
    ensures
        ft4_message(history, decoded) matches Some(message) && message.text == joined(w)
            && message.kind == MessageKind::Standard,
        scrambled(decoded.message@) == payload,
{
    plain_texts_round_trip(history, w);
    crate::text_round_trip::lemma_plain_type(w, payload);
    scrambling_restores(payload);
}

// ---------------------------------------------------------------------------
// New signals
// ---------------------------------------------------------------------------

/// Two finite values are closer than a width where their exact distance is at most the value
/// before the width, and are not where it is the width or more.
pub proof fn closeness_goes_by_distance(a: u32, b: u32, width: u32)
    requires
        finite(a),
        finite(b),
        0 < width < 0x7f80_0000,
    ensures
        signed_units(a) - signed_units(b) >= units(width) ==> !closer_than(a, b, width),
        signed_units(b) - signed_units(a) >= units(width) ==> !closer_than(a, b, width),
        -units((width - 1) as u32) <= signed_units(a) - signed_units(b) <= units((width - 1) as u32)
            ==> closer_than(a, b, width),
{
    crate::sums::lemma_reach_between((width - 1) as u32);
}

/// Signals of different payloads are never taken for one, nor are signals as far apart as
/// the given distances or further; close ones of one payload are.
pub proof fn signals_are_told_apart(met: Seq<Identity>, signal: Identity, hz: u32, seconds: u32)
    requires
        0 < hz < 0x7f80_0000,
        0 < seconds < 0x7f80_0000,
        finite(signal.frequency),
        finite(signal.time),
        forall|i: int|
            0 <= i < met.len() ==> finite((#[trigger] met[i]).frequency) && finite(met[i].time),
    ensures
        (forall|i: int|
            0 <= i < met.len() ==> (#[trigger] met[i]).bits@ != signal.bits@ || signed_units(
                met[i].frequency,
            ) - signed_units(signal.frequency) >= units(hz) || signed_units(signal.frequency)
                - signed_units(met[i].frequency) >= units(hz) || signed_units(met[i].time)
                - signed_units(signal.time) >= units(seconds) || signed_units(signal.time)
                - signed_units(met[i].time) >= units(seconds)) ==> !was_met(
            met,
            signal,
            hz,
            seconds,
        ),
        (exists|i: int|
            0 <= i < met.len() && (#[trigger] met[i]).bits@ == signal.bits@ && -units(
                (hz - 1) as u32,
            ) <= signed_units(met[i].frequency) - signed_units(signal.frequency) <= units(
                (hz - 1) as u32,
            ) && -units((seconds - 1) as u32) <= signed_units(met[i].time) - signed_units(
                signal.time,
            ) <= units((seconds - 1) as u32)) ==> was_met(met, signal, hz, seconds),
{
    assert forall|i: int| 0 <= i < met.len() implies {
        let near = #[trigger] are_one(met[i], signal, hz, seconds);
        near ==> met[i].bits@ == signal.bits@ && closer_than(
            met[i].frequency,
            signal.frequency,
            hz,
        ) && closer_than(met[i].time, signal.time, seconds)
    } by {}
    assert forall|i: int| 0 <= i < met.len() implies (signed_units((#[trigger] met[i]).frequency)
        - signed_units(signal.frequency) >= units(hz) || signed_units(signal.frequency)
        - signed_units(met[i].frequency) >= units(hz) || signed_units(met[i].time) - signed_units(
        signal.time,
    ) >= units(seconds) || signed_units(signal.time) - signed_units(met[i].time) >= units(seconds)
        ==> !are_one(met[i], signal, hz, seconds)) by {
        closeness_goes_by_distance(met[i].frequency, signal.frequency, hz);
        closeness_goes_by_distance(met[i].time, signal.time, seconds);
    }
    if exists|i: int|
        0 <= i < met.len() && (#[trigger] met[i]).bits@ == signal.bits@ && -units((hz - 1) as u32)
            <= signed_units(met[i].frequency) - signed_units(signal.frequency) <= units(
            (hz - 1) as u32,
        ) && -units((seconds - 1) as u32) <= signed_units(met[i].time) - signed_units(signal.time)
            <= units((seconds - 1) as u32) {
        let i = choose|i: int|
            0 <= i < met.len() && (#[trigger] met[i]).bits@ == signal.bits@ && -units(
                (hz - 1) as u32,
            ) <= signed_units(met[i].frequency) - signed_units(signal.frequency) <= units(
                (hz - 1) as u32,
            ) && -units((seconds - 1) as u32) <= signed_units(met[i].time) - signed_units(
                signal.time,
            ) <= units((seconds - 1) as u32);
        closeness_goes_by_distance(met[i].frequency, signal.frequency, hz);
        closeness_goes_by_distance(met[i].time, signal.time, seconds);
        assert(are_one(met[i], signal, hz, seconds));
    }
}

} // verus!
