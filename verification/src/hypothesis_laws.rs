//! That what is assumed in contests is right of the messages that are sent in them.
use vstd::prelude::*;
use crate::assistance::{both_calls_hypothesis, closing_hypothesis, my_call_hypothesis, type_bits};
use crate::assistance_laws::{agrees, assumes};
use crate::engine::Mode;
use crate::message_encode::bits_of;
use crate::round_trip::lemma_bits_length;

verus! {

/// The bits of the payload from `at` on are those of the calls from `from` on.
pub open spec fn carries_call(payload: Seq<bool>, at: int, calls: Seq<bool>, from: int) -> bool {
    forall|i: int| 0 <= i < 28 ==> #[trigger] payload[at + i] == calls[from + i]
}

/// The last bits of the payload are these.
pub open spec fn is_of_type(payload: Seq<bool>, a: bool, b: bool, c: bool) -> bool {
    payload[74] == a && payload[75] == b && payload[76] == c
}

proof fn lemma_types()
    ensures
        type_bits(0) == seq![false, false, false],
        type_bits(2) == seq![false, true, false],
        type_bits(3) == seq![false, true, true],
        bits_of(8, 6) == seq![false, false, true, false, false, false],
{
    reveal_with_fuel(bits_of, 7);
    assert(type_bits(0) =~= seq![false, false, false]);
    assert(type_bits(2) =~= seq![false, true, false]);
    assert(type_bits(3) =~= seq![false, true, true]);
    assert(bits_of(8, 6) =~= seq![false, false, true, false, false, false]);
}

/// In a European contest a message to this station starts with its call and is of type 0.2.
pub proof fn european_calls_are_assumed_rightly(
    mode: Mode,
    calls: Seq<bool>,
    hash: nat,
    payload: Seq<bool>,
)
    requires
        calls.len() == 77,
        payload.len() == 77,
        carries_call(payload, 0, calls, 0),
        is_of_type(payload, false, false, false),
        !payload[71] && payload[72] && !payload[73],
    ensures
        agrees(my_call_hypothesis(mode, 2, calls, hash), payload),
        assumes(my_call_hypothesis(mode, 2, calls, hash), 0, 28),
{
    lemma_types();
    assert forall|i: int| 0 <= i < 28 implies payload[i] == calls[i] by {
        assert(payload[0 + i] == calls[0 + i]);
    }
}

/// On field days a message to this station starts with its call and is of type 0; one between
/// two stations has the other call behind it.
pub proof fn field_day_calls_are_assumed_rightly(
    mode: Mode,
    calls: Seq<bool>,
    hash: nat,
    payload: Seq<bool>,
)
    requires
        calls.len() == 77,
        payload.len() == 77,
        carries_call(payload, 0, calls, 0),
        is_of_type(payload, false, false, false),
    ensures
        agrees(my_call_hypothesis(mode, 3, calls, hash), payload),
        assumes(my_call_hypothesis(mode, 3, calls, hash), 0, 28),
        carries_call(payload, 28, calls, 29) ==> agrees(
            both_calls_hypothesis(mode, 3, calls),
            payload,
        ),
        assumes(both_calls_hypothesis(mode, 3, calls), 0, 56),
{
    lemma_types();
    assert forall|i: int| 0 <= i < 28 implies payload[i] == calls[i] by {
        assert(payload[0 + i] == calls[0 + i]);
    }
    if carries_call(payload, 28, calls, 29) {
        assert forall|i: int| 28 <= i < 56 implies payload[i] == calls.subrange(29, 57)[i - 28] by {
            assert(payload[28 + (i - 28)] == calls[29 + (i - 28)]);
        }
    }
}

/// In RTTY contests the calls stand one place further on, and messages are of type 3.
pub proof fn rtty_calls_are_assumed_rightly(
    mode: Mode,
    calls: Seq<bool>,
    hash: nat,
    payload: Seq<bool>,
)
    requires
        calls.len() == 77,
        payload.len() == 77,
        carries_call(payload, 1, calls, 0),
        is_of_type(payload, false, true, true),
    ensures
        agrees(my_call_hypothesis(mode, 4, calls, hash), payload),
        assumes(my_call_hypothesis(mode, 4, calls, hash), 1, 29),
        carries_call(payload, 29, calls, 29) ==> agrees(
            both_calls_hypothesis(mode, 4, calls),
            payload,
        ),
        assumes(both_calls_hypothesis(mode, 4, calls), 1, 57),
{
    lemma_types();
    assert forall|i: int| 1 <= i < 29 implies payload[i] == calls.take(28)[i - 1] by {
        assert(payload[1 + (i - 1)] == calls[0 + (i - 1)]);
    }
    if carries_call(payload, 29, calls, 29) {
        assert forall|i: int| 29 <= i < 57 implies payload[i] == calls.subrange(29, 57)[i - 29] by {
            assert(payload[29 + (i - 29)] == calls[29 + (i - 29)]);
        }
    }
}

/// To a Hound, a Fox sends messages of type 0.1 with the Hound's call first, where it is
/// acknowledged, or second, where it is given a report, and with the hash of its own call.
pub proof fn fox_messages_are_assumed_rightly(
    mode: Mode,
    calls: Seq<bool>,
    hash: nat,
    payload: Seq<bool>,
)
    requires
        calls.len() == 77,
        payload.len() == 77,
        payload.subrange(56, 66) == bits_of(hash, 10),
        is_of_type(payload, false, false, false),
        !payload[71] && !payload[72] && payload[73],
    ensures
        carries_call(payload, 28, calls, 0) ==> agrees(
            my_call_hypothesis(mode, 7, calls, hash),
            payload,
        ),
        assumes(my_call_hypothesis(mode, 7, calls, hash), 28, 66),
        carries_call(payload, 0, calls, 0) ==> agrees(
            closing_hypothesis(4, mode, 7, calls, hash),
            payload,
        ),
        assumes(closing_hypothesis(4, mode, 7, calls, hash), 0, 28),
{
    lemma_types();
    lemma_bits_length(hash, 10);
    assert forall|i: int| 56 <= i < 66 implies payload[i] == bits_of(hash, 10)[i - 56] by {
        assert(payload.subrange(56, 66)[i - 56] == payload[i]);
    }
    if carries_call(payload, 28, calls, 0) {
        assert forall|i: int| 28 <= i < 56 implies payload[i] == calls.take(28)[i - 28] by {
            assert(payload[28 + (i - 28)] == calls[0 + (i - 28)]);
        }
    }
    if carries_call(payload, 0, calls, 0) {
        assert forall|i: int| 0 <= i < 28 implies payload[i] == calls.take(28)[i] by {
            assert(payload[0 + i] == calls[0 + i]);
        }
    }
}

} // verus!
