//! That what is assumed of a message is right of the messages it is meant for.
use vstd::arithmetic::power2::{lemma2_to64, lemma_pow2_unfold, pow2};
use vstd::prelude::*;
use crate::assistance::{
    channel_hypothesis, cq_text, expected_hypotheses, hypotheses_of, is_expected, plain_hypothesis,
    Activity, ApMode, ContactState, ContextModel, HypothesisModel,
};
use crate::engine::{DecodeSettings, Mode};
use crate::message::MessageError;
use crate::message_encode::{
    bits_of, call_value, carried_call, flag, has_portable, has_rover, payload_of_text,
    standard_exchange,
};
use crate::round_trip::lemma_bits_length;
use crate::symbols::scrambled;
use crate::text::joined;
use crate::text_round_trip::{
    is_plain_call, is_plain_message, lemma_plain_payload, lemma_plain_suffixes,
};

verus! {

/// Every assumed bit of the payload is as the hypothesis has it, and nothing is assumed of
/// the checks.
pub open spec fn agrees(h: HypothesisModel, payload: Seq<bool>) -> bool {
    &&& forall|i: int|
        0 <= i < 77 && h.mask[i] && !h.preserve[i] ==> #[trigger] h.bits[i] == payload[i]
    &&& forall|i: int| 77 <= i < 174 ==> !#[trigger] h.mask[i]
}

/// So many bits are assumed.
pub open spec fn assumes(h: HypothesisModel, first: int, end: int) -> bool {
    forall|i: int| first <= i < end ==> #[trigger] h.mask[i] && !h.preserve[i]
}

/// The parts of a standard payload.
spec fn standard_layout(w: Seq<Seq<char>>) -> Seq<bool> {
    let (rogered, exchange) = standard_exchange(w)->Ok_0->0;
    bits_of(call_value(carried_call(w[0], true)->0)->Ok_0, 28) + bits_of(
        flag(has_portable(w[0]) || has_rover(w[0])),
        1,
    ) + bits_of(call_value(carried_call(w[1], false)->0)->Ok_0, 28) + bits_of(
        flag(has_portable(w[1]) || has_rover(w[1])),
        1,
    ) + bits_of(rogered, 1) + bits_of(exchange, 15) + bits_of(
        if has_portable(w[0]) || has_portable(w[1]) {
            2
        } else {
            1
        },
        3,
    )
}

/// The payload of a plain message: where its parts stand.
pub proof fn lemma_plain_layout(w: Seq<Seq<char>>)
    requires
        is_plain_message(w),
    ensures
        ({
            let bits = payload_of_text(joined(w))->Ok_0;
            let (rogered, exchange) = standard_exchange(w)->Ok_0->0;
            let a = bits_of(call_value(carried_call(w[0], true)->0)->Ok_0, 28);
            let b = bits_of(call_value(carried_call(w[1], false)->0)->Ok_0, 28);
            &&& payload_of_text(joined(w)) is Ok
            &&& bits.len() == 77
            &&& a.len() == 28 && b.len() == 28
            &&& bits.subrange(0, 28) == a
            &&& !bits[28]
            &&& bits.subrange(29, 57) == b
            &&& !bits[57]
            &&& bits.subrange(58, 59) == bits_of(rogered, 1)
            &&& bits.subrange(59, 74) == bits_of(exchange, 15)
            &&& bits.subrange(74, 77) == seq![false, false, true]
        }),
{
    lemma_plain_payload(w);
    lemma_plain_suffixes(w);
    let bits = payload_of_text(joined(w))->Ok_0;
    let (rogered, exchange) = standard_exchange(w)->Ok_0->0;
    let av = call_value(carried_call(w[0], true)->0)->Ok_0;
    let bv = call_value(carried_call(w[1], false)->0)->Ok_0;
    lemma_bits_length(av, 28);
    lemma_bits_length(bv, 28);
    lemma_bits_length(0, 1);
    lemma_bits_length(rogered, 1);
    lemma_bits_length(exchange, 15);
    lemma_bits_length(1, 3);
    assert(bits == standard_layout(w));
    reveal_with_fuel(bits_of, 4);
    assert(bits_of(0, 1) =~= seq![false]);
    assert(bits_of(1, 3) =~= seq![false, false, true]);
    assert(bits.subrange(0, 28) =~= bits_of(av, 28));
    assert(bits.subrange(29, 57) =~= bits_of(bv, 28));
    assert(bits.subrange(58, 59) =~= bits_of(rogered, 1));
    assert(bits.subrange(59, 74) =~= bits_of(exchange, 15));
    assert(bits.subrange(74, 77) =~= bits_of(1, 3));
}

proof fn lemma_type_one()
    ensures
        crate::assistance::type_bits(1) == seq![false, false, true],
{
    reveal_with_fuel(bits_of, 4);
    assert(crate::assistance::type_bits(1) =~= seq![false, false, true]);
}

/// Messages from one station to another.
pub open spec fn is_between(w: Seq<Seq<char>>, my: Seq<char>, dx: Seq<char>) -> bool {
    is_plain_message(w) && is_plain_call(my) && w[0] == my && w[1] == dx
}

/// What is known of a contact: the payload of one message from the other station.
pub open spec fn is_context(
    context: ContextModel,
    my: Seq<char>,
    dx: Seq<char>,
    last: Seq<char>,
) -> bool {
    is_between(seq![my, dx, last], my, dx) && payload_of_text(joined(seq![my, dx, last])) == Ok::<
        Seq<bool>,
        MessageError,
    >(context.bits)
}

/// In the usual activities a hypothesis of type two agrees with every plain message to this
/// station, from whichever call, and assumes its 29 first bits and, in FT8, the type.
pub proof fn messages_to_this_station_are_assumed_rightly(
    mode: Mode,
    activity: u8,
    cq: Seq<bool>,
    context: ContextModel,
    my: Seq<char>,
    dx: Seq<char>,
    last: Seq<char>,
    w: Seq<Seq<char>>,
)
    requires
        activity == 0 || activity == 1 || activity == 5 || activity == 8,
        is_context(context, my, dx, last),
        is_between(w, my, w[1]),
    ensures
        ({
            let h = plain_hypothesis(2, mode, activity, cq, Some(context));
            let payload = payload_of_text(joined(w))->Ok_0;
            &&& agrees(h, payload)
            &&& assumes(h, 0, 29)
            &&& mode == Mode::Ft8 ==> assumes(h, 74, 77)
            &&& mode == Mode::Ft4 ==> agrees(channel_hypothesis(h, mode), scrambled(payload))
        }),
{
    lemma_plain_layout(w);
    lemma_plain_layout(seq![my, dx, last]);
    lemma_type_one();
    let h = plain_hypothesis(2, mode, activity, cq, Some(context));
    let payload = payload_of_text(joined(w))->Ok_0;
    lemma_same_range(payload, context.bits, 0, 28);
    assert(forall|i: int| 0 <= i < 29 ==> context.bits.take(29)[i] == payload[i]);
    lemma_last_bits(payload);
    lemma_scrambled(h, payload);
}

proof fn lemma_same_range(a: Seq<bool>, b: Seq<bool>, start: int, end: int)
    requires
        0 <= start <= end <= a.len(),
        end <= b.len(),
        a.subrange(start, end) == b.subrange(start, end),
    ensures
        forall|i: int| start <= i < end ==> a[i] == b[i],
{
    assert forall|i: int| start <= i < end implies a[i] == b[i] by {
        assert(a.subrange(start, end)[i - start] == a[i]);
        assert(b.subrange(start, end)[i - start] == b[i]);
    }
}

proof fn lemma_last_bits(payload: Seq<bool>)
    requires
        payload.len() == 77,
        payload.subrange(74, 77) == seq![false, false, true],
    ensures
        !payload[74],
        !payload[75],
        payload[76],
{
    let tail = payload.subrange(74, 77);
    assert(tail[0] == payload[74] && tail[1] == payload[75] && tail[2] == payload[76]);
}

proof fn lemma_scrambled(h: HypothesisModel, payload: Seq<bool>)
    requires
        h.bits.len() == 77,
        payload.len() == 77,
        agrees(h, payload),
    ensures
        agrees(channel_hypothesis(h, Mode::Ft4), scrambled(payload)),
{
}

/// In the usual activities a hypothesis of type three agrees with every plain message between
/// the two stations, and assumes both calls and, in FT8, the type.
pub proof fn messages_between_stations_are_assumed_rightly(
    mode: Mode,
    activity: u8,
    cq: Seq<bool>,
    context: ContextModel,
    my: Seq<char>,
    dx: Seq<char>,
    last: Seq<char>,
    w: Seq<Seq<char>>,
)
    requires
        activity != 3,
        activity != 4,
        is_context(context, my, dx, last),
        is_between(w, my, dx),
    ensures
        ({
            let h = plain_hypothesis(3, mode, activity, cq, Some(context));
            let payload = payload_of_text(joined(w))->Ok_0;
            &&& agrees(h, payload)
            &&& assumes(h, 0, 58)
            &&& mode == Mode::Ft8 ==> assumes(h, 74, 77)
            &&& mode == Mode::Ft4 ==> agrees(channel_hypothesis(h, mode), scrambled(payload))
        }),
{
    lemma_plain_layout(w);
    lemma_plain_layout(seq![my, dx, last]);
    lemma_type_one();
    let h = plain_hypothesis(3, mode, activity, cq, Some(context));
    let payload = payload_of_text(joined(w))->Ok_0;
    lemma_same_range(payload, context.bits, 0, 28);
    lemma_same_range(payload, context.bits, 29, 57);
    assert(forall|i: int| 0 <= i < 58 ==> context.bits.take(58)[i] == payload[i]);
    lemma_last_bits(payload);
    lemma_scrambled(h, payload);
}

/// In FT8 hypotheses of type four, five and six agree with RRR, 73 and RR73 between the two
/// stations and assume all of it; in FT4 type six agrees with the message that is known.
pub proof fn closing_messages_are_assumed_rightly(
    ap_type: u8,
    activity: u8,
    cq: Seq<bool>,
    context: ContextModel,
    my: Seq<char>,
    dx: Seq<char>,
    last: Seq<char>,
    w: Seq<Seq<char>>,
)
    requires
        4 <= ap_type <= 6,
        activity != 7,
        is_context(context, my, dx, last),
        w == seq![
            my,
            dx,
            if ap_type == 4 {
                "RRR"@
            } else if ap_type == 5 {
                "73"@
            } else {
                "RR73"@
            },
        ],
        is_between(w, my, dx),
    ensures
        ({
            let h = plain_hypothesis(ap_type, Mode::Ft8, activity, cq, Some(context));
            let known = plain_hypothesis(ap_type, Mode::Ft4, activity, cq, Some(context));
            &&& agrees(h, payload_of_text(joined(w))->Ok_0)
            &&& assumes(h, 0, 77)
            &&& agrees(known, context.bits)
            &&& assumes(known, 0, 77)
        }),
{
    lemma_plain_layout(w);
    lemma_plain_layout(seq![my, dx, last]);
    let h = plain_hypothesis(ap_type, Mode::Ft8, activity, cq, Some(context));
    let payload = payload_of_text(joined(w))->Ok_0;
    lemma_same_range(payload, context.bits, 0, 28);
    lemma_same_range(payload, context.bits, 29, 57);
    lemma_closing(ap_type, w, payload);
    assert forall|i: int| 0 <= i < 77 && h.mask[i] && !h.preserve[i] implies #[trigger] h.bits[i]
        == payload[i] by {
        if i >= 58 {
            assert(crate::assistance::closing_bits(ap_type)[i - 58] == payload.subrange(
                58,
                77,
            )[i - 58]);
        }
    }
}

proof fn lemma_leading_zero(number: nat, width: nat)
    requires
        number < pow2(width),
    ensures
        bits_of(number, width + 1) == seq![false] + bits_of(number, width),
    decreases width,
{
    lemma_pow2_unfold(width + 1);
    if width > 0 {
        lemma_pow2_unfold(width);
        lemma_leading_zero(number / 2, (width - 1) as nat);
        assert(bits_of(number, width + 1) =~= seq![false] + bits_of(number, width));
    } else {
        lemma2_to64();
        reveal_with_fuel(bits_of, 2);
        assert(bits_of(number, 1) =~= seq![false] + bits_of(number, 0));
    }
}

/// A plain exchange with the type behind it.
proof fn lemma_closing_number(number: nat)
    requires
        number < 32768,
    ensures
        bits_of(number * 8 + 1, 19) == seq![false] + bits_of(number, 15) + seq![false, false, true],
        bits_of(number * 8 + 1, 19).len() == 19,
{
    lemma2_to64();
    lemma_leading_zero(number, 15);
    lemma_bits_length(number * 8 + 1, 19);
    let n = number * 8 + 1;
    assert(bits_of(n, 19) == bits_of(n / 2, 18).push(true));
    assert(bits_of(n / 2, 18) == bits_of(n / 4, 17).push(false));
    assert(bits_of(n / 4, 17) == bits_of(number, 16).push(false));
    assert(bits_of(n, 19) =~= bits_of(number, 16) + seq![false, false, true]);
}

/// The last 19 bits of a closing message.
proof fn lemma_closing(ap_type: u8, w: Seq<Seq<char>>, payload: Seq<bool>)
    requires
        4 <= ap_type <= 6,
        w.len() == 3,
        w[2] == (if ap_type == 4 {
            "RRR"@
        } else if ap_type == 5 {
            "73"@
        } else {
            "RR73"@
        }),
        payload.len() == 77,
        payload.subrange(58, 59) == bits_of((standard_exchange(w)->Ok_0->0).0, 1),
        payload.subrange(59, 74) == bits_of((standard_exchange(w)->Ok_0->0).1, 15),
        payload.subrange(74, 77) == seq![false, false, true],
    ensures
        payload.subrange(58, 77) == crate::assistance::closing_bits(ap_type),
        crate::assistance::closing_bits(ap_type).len() == 19,
{
    reveal_strlit("RRR");
    reveal_strlit("73");
    reveal_strlit("RR73");
    reveal_strlit("R+");
    reveal_strlit("R-");
    assert(w.last() == w[2]);
    let number = if ap_type == 4 {
        32402nat
    } else if ap_type == 5 {
        32404nat
    } else {
        32373nat
    };
    assert(standard_exchange(w)->Ok_0->0 == (0nat, number));
    let whole = payload.subrange(58, 77);
    assert(whole =~= payload.subrange(58, 59) + payload.subrange(59, 74) + payload.subrange(
        74,
        77,
    ));
    lemma_closing_number(number);
    assert(bits_of(0, 1) =~= seq![false]) by {
        reveal_with_fuel(bits_of, 2);
    }
}

/// The hypothesis of a CQ agrees with every plain CQ and assumes its 29 first bits and, in
/// FT8, the type.
pub proof fn calls_are_assumed_rightly(
    mode: Mode,
    activity: u8,
    context: Option<ContextModel>,
    own: Seq<Seq<char>>,
    w: Seq<Seq<char>>,
)
    requires
        is_plain_message(own),
        is_plain_message(w),
        own[0] == "CQ"@,
        w[0] == "CQ"@,
    ensures
        ({
            let h = plain_hypothesis(
                1,
                mode,
                activity,
                payload_of_text(joined(own))->Ok_0,
                context,
            );
            let payload = payload_of_text(joined(w))->Ok_0;
            &&& agrees(h, payload)
            &&& assumes(h, 0, 29)
            &&& mode == Mode::Ft8 ==> assumes(h, 74, 77)
            &&& mode == Mode::Ft4 ==> agrees(channel_hypothesis(h, mode), scrambled(payload))
        }),
{
    lemma_plain_layout(own);
    lemma_plain_layout(w);
    lemma_type_one();
    let cq = payload_of_text(joined(own))->Ok_0;
    let payload = payload_of_text(joined(w))->Ok_0;
    let h = plain_hypothesis(1, mode, activity, cq, context);
    lemma_same_range(payload, cq, 0, 28);
    assert(forall|i: int| 0 <= i < 29 ==> cq.take(29)[i] == payload[i]);
    lemma_last_bits(payload);
    lemma_scrambled(h, payload);
}

// ---------------------------------------------------------------------------
// What is tried
// ---------------------------------------------------------------------------

pub open spec fn types_of(all: Seq<HypothesisModel>) -> Seq<u8> {
    all.map_values(|h: HypothesisModel| h.ap_type)
}

proof fn lemma_all_tried(
    settings: DecodeSettings,
    mode: Mode,
    frequency: u32,
    types: Seq<u8>,
    cq: Seq<bool>,
    context: Option<ContextModel>,
    n: nat,
)
    requires
        n <= types.len(),
        forall|k: int| 0 <= k < types.len() ==> 1 <= #[trigger] types[k] <= 6,
        context is Some,
        settings.ap.dx_call is Some,
        settings.ap.activity != Activity::Hound,
        is_expected(settings, mode, frequency),
    ensures
        types_of(hypotheses_of(settings, mode, frequency, types, cq, context, n)) == types.take(
            n as int,
        ),
    decreases n,
{
    let all = hypotheses_of(settings, mode, frequency, types, cq, context, n);
    if n > 0 {
        lemma_all_tried(settings, mode, frequency, types, cq, context, (n - 1) as nat);
        let rest = hypotheses_of(settings, mode, frequency, types, cq, context, (n - 1) as nat);
        assert(1 <= types[n - 1] <= 6);
        assert(types_of(all) =~= types_of(rest).push(types[n - 1]));
        assert(types.take(n as int) =~= types.take(n - 1).push(types[n - 1]));
    } else {
        assert(types_of(all) =~= types.take(0));
    }
}

/// What is expected of a contact in each of its states, where both calls are known and the
/// candidate stands where the contact is: a CQ and calls to this station while calling; then
/// messages between the two; and behind a rogered report the closing ones, of which FT4 has
/// only the last.
pub open spec fn expected_types(state: ContactState, mode: Mode) -> Seq<u8> {
    match state {
        ContactState::CallingCq => seq![1, 2],
        ContactState::CallingStation => seq![2, 3],
        ContactState::Report => seq![2, 3],
        ContactState::RogerReport | ContactState::Rogers => match mode {
            Mode::Ft8 => seq![3, 4, 5, 6],
            Mode::Ft4 => seq![3, 6],
        },
        ContactState::Signoff => seq![3, 1, 2],
    }
}

/// With everything known, all of that is tried, in order.
pub proof fn known_contacts_are_assisted(settings: DecodeSettings, mode: Mode, frequency: u32)
    requires
        settings.assistance,
        settings.ap.mode == ApMode::Auto,
        settings.ap.activity.number() <= 5,
        mode == Mode::Ft4 ==> settings.depth >= 2,
        settings.ap.dx_call is Some,
        crate::assistance::context_of(settings.ap, mode) is Some,
        is_expected(settings, mode, frequency),
    ensures
        types_of(expected_hypotheses(settings, mode, frequency)) == expected_types(
            settings.ap.state,
            mode,
        ),
{
    let types = settings.ap.schedule(mode);
    assert(types =~= expected_types(settings.ap.state, mode));
    lemma_all_tried(
        settings,
        mode,
        frequency,
        types,
        payload_of_text(cq_text(settings.ap.activity))->Ok_0,
        crate::assistance::context_of(settings.ap, mode),
        types.len(),
    );
    assert(types.take(types.len() as int) =~= types);
}

/// Assistance with CQs alone tries those, whoever is known and wherever the candidate stands.
pub proof fn calls_are_always_assisted(settings: DecodeSettings, mode: Mode, frequency: u32)
    requires
        settings.assistance,
        settings.ap.mode == ApMode::Cq,
        settings.ap.activity.number() <= 5,
        mode == Mode::Ft4 ==> settings.depth >= 2,
    ensures
        types_of(expected_hypotheses(settings, mode, frequency)) == seq![1u8],
{
    let types = settings.ap.schedule(mode);
    let cq = payload_of_text(cq_text(settings.ap.activity))->Ok_0;
    let context = crate::assistance::context_of(settings.ap, mode);
    reveal_with_fuel(hypotheses_of, 2);
    let all = hypotheses_of(settings, mode, frequency, types, cq, context, 1);
    assert(types.len() == 1 && types[0] == 1);
    assert(types_of(all) =~= seq![1u8]);
}

} // verus!
