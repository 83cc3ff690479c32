//! That known stations are recognized as such.
use vstd::prelude::*;
use vstd::utf8::{encode_utf8, is_ascii_chars, is_ascii_chars_encode_utf8};
use crate::assistance::{
    bare_call, capitals, context_of, exchange_text, expected_hypotheses, hypotheses_of, is_capital,
    is_expected, is_plain_call as is_hint_call, last_digit_byte, Activity, ApMode, ApSettings,
    ContextModel,
};
use crate::assistance_laws::{is_context, lemma_plain_layout};
use crate::callsign::{hash10, is_call_char, normal_call, without_brackets};
use crate::engine::{DecodeSettings, Mode};
use crate::ft8_list::{is_common_call, is_letter_byte, letters_from};
use crate::message_encode::grid_value;
use crate::receive_laws::ordinary_calls_pack;
use crate::single::{finite, units};
use crate::sums::lemma_reach_between;
use crate::text::{is_digit, is_space, is_upper, joined, starts_with, trim, upper, uppercase};
use crate::text_round_trip::{is_plain_call, is_plain_message, plain_texts_round_trip};
use crate::wire::{remembered, silence};
use crate::worker_laws::distance;

verus! {

/// One or two letters and digits with a letter among them, a digit, and one to three letters.
pub open spec fn is_ordinary(call: Seq<char>, n: int) -> bool {
    &&& 1 <= n <= 2
    &&& n + 2 <= call.len() <= n + 4
    &&& forall|i: int| 0 <= i < n ==> is_upper(#[trigger] call[i]) || is_digit(call[i])
    &&& exists|i: int| 0 <= i < n && is_upper(#[trigger] call[i])
    &&& is_digit(call[n])
    &&& forall|i: int| n < i < call.len() ==> is_upper(#[trigger] call[i])
}

pub proof fn lemma_characters(call: Seq<char>, n: int)
    requires
        is_ordinary(call, n),
    ensures
        forall|i: int| 0 <= i < call.len() ==> is_upper(#[trigger] call[i]) || is_digit(call[i]),
        uppercase(call) == call,
        trim(call) == call,
        bare_call(call) == call,
        normal_call(call) == Some(call),
{
    assert forall|i: int| 0 <= i < call.len() implies is_upper(#[trigger] call[i]) || is_digit(
        call[i],
    ) by {
        assert(i < n || i == n || n < i);
    }
    assert(uppercase(call) =~= call) by {
        assert forall|i: int| 0 <= i < call.len() implies upper(#[trigger] call[i]) == call[i] by {}
    }
    let last = call.len() - 1;
    assert(is_upper(call[last]) || is_digit(call[last]));
    assert(call.last() == call[last]);
    assert(is_upper(call[0]) || is_digit(call[0]));
    assert(!is_space(call[0]) && !is_space(call.last()));
    assert(trim(call) == call);
    assert(without_brackets(call) == call);
    assert forall|i: int| 0 <= i < call.len() implies is_call_char(#[trigger] call[i]) by {}
}

proof fn lemma_bytes(call: Seq<char>, n: int)
    requires
        is_ordinary(call, n),
    ensures
        encode_utf8(call).len() == call.len(),
        forall|i: int| 0 <= i < call.len() ==> #[trigger] encode_utf8(call)[i] == call[i] as u8,
        last_digit_byte(encode_utf8(call), call.len()) == n,
{
    lemma_characters(call, n);
    assert(is_ascii_chars(call)) by {
        assert forall|i: int| 0 <= i < call.len() implies '\0' <= #[trigger] call[i] <= '\u{7f}' by {
            assert(is_upper(call[i]) || is_digit(call[i]));
        }
    }
    is_ascii_chars_encode_utf8(call);
    lemma_area(encode_utf8(call), call, n, call.len());
}

proof fn lemma_area(s: Seq<u8>, call: Seq<char>, n: int, m: nat)
    requires
        is_ordinary(call, n),
        s.len() == call.len(),
        forall|i: int| 0 <= i < call.len() ==> #[trigger] s[i] == call[i] as u8,
        n < m <= call.len(),
    ensures
        last_digit_byte(s, m) == n,
    decreases m,
{
    assert(s[m - 1] == call[m - 1] as u8);
    if m - 1 > n {
        assert(is_upper(call[m - 1]));
        lemma_area(s, call, n, (m - 1) as nat);
    } else {
        assert(is_digit(call[n]));
    }
}

proof fn lemma_few(s: Seq<u8>, from: int)
    requires
        0 <= from <= s.len(),
    ensures
        capitals(s, from) <= s.len() - from,
        letters_from(s, from) <= s.len() - from,
    decreases s.len() - from,
{
    if from < s.len() {
        lemma_few(s, from + 1);
    }
}

/// Ordinary calls are of the common form, and stand without brackets in what is assumed.
pub proof fn ordinary_calls_are_common(call: Seq<char>, n: int)
    requires
        is_ordinary(call, n),
    ensures
        is_common_call(call),
        is_hint_call(encode_utf8(call)),
{
    lemma_characters(call, n);
    lemma_bytes(call, n);
    let s = encode_utf8(call);
    let k = choose|i: int| 0 <= i < n && is_upper(#[trigger] call[i]);
    assert(s[k] == call[k] as u8);
    assert(is_letter_byte(s[k]) && is_capital(s[k]));
    lemma_few(s, n + 1);
}

proof fn lemma_plain(call: Seq<char>, n: int)
    requires
        is_ordinary(call, n),
        call[0] != 'Q',
    ensures
        is_plain_call(call),
{
    let prefix = call.take(n);
    let suffix = call.skip(n + 1);
    let k = choose|i: int| 0 <= i < n && is_upper(#[trigger] call[i]);
    assert(prefix[k] == call[k]);
    assert(prefix + seq![call[n]] + suffix =~= call);
    assert forall|i: int| 0 <= i < prefix.len() implies is_upper(#[trigger] prefix[i]) || is_digit(
        prefix[i],
    ) by {
        assert(prefix[i] == call[i]);
    }
    assert forall|i: int| 0 <= i < suffix.len() implies is_upper(#[trigger] suffix[i]) by {
        assert(suffix[i] == call[n + 1 + i]);
    }
    ordinary_calls_pack(prefix, call[n], suffix);
    reveal_strlit("QU1RK");
    if call == "QU1RK"@ {
        assert(call[0] == 'Q');
    }
}

/// Whoever has an ordinary call and works another station that has one is known as such, in
/// both modes and all activities: by the message in which that station says that all was
/// received, and by the hash of its call.
pub proof fn ordinary_contacts_are_known(
    ap: ApSettings,
    mode: Mode,
    my: Seq<char>,
    dx: Seq<char>,
    m: int,
    n: int,
)
    requires
        ap.my_call matches Some(call) && call@ == my,
        ap.dx_call matches Some(call) && call@ == dx,
        is_ordinary(my, m),
        is_ordinary(dx, n),
        my[0] != 'Q' && dx[0] != 'Q',
        !starts_with(my, "CQ"@),
    ensures
        context_of(ap, mode) matches Some(context) && is_context(
            context,
            my,
            dx,
            if mode == Mode::Ft8 {
                "RRR"@
            } else {
                "RR73"@
            },
        ) && context.hash == hash10(dx),
{
    lemma_characters(my, m);
    lemma_characters(dx, n);
    lemma_plain(my, m);
    lemma_plain(dx, n);
    ordinary_calls_are_common(my, m);
    let last = if mode == Mode::Ft8 {
        "RRR"@
    } else {
        "RR73"@
    };
    let w = seq![my, dx, last];
    assert(grid_value("RR73"@) is Some) by {
        reveal_strlit("RR73");
    }
    assert(is_plain_message(w));
    let history = remembered(remembered(silence(), my), dx);
    plain_texts_round_trip(history, w);
    assert(exchange_text(my, dx, mode) =~= joined(w)) by {
        reveal_strlit(" ");
        reveal_with_fuel(joined, 4);
    }
    lemma_plain_layout(w);
}

/// A message of the contact is expected up to the given width from the receive frequency, in
/// FT8 also from the transmit frequency, and from the next greater width on nowhere.
pub proof fn expectations_go_by_frequency(
    settings: DecodeSettings,
    mode: Mode,
    frequency: u32,
    rx: u32,
    tx: u32,
)
    requires
        finite(frequency),
        finite(rx),
        finite(tx),
        settings.ap.width_hz < 0x7f7f_ffff,
        settings.priority_hz == Some(rx),
        settings.ap.tx_hz == Some(tx),
    ensures
        ({
            let width = units(settings.ap.width_hz);
            let next = units((settings.ap.width_hz + 1) as u32);
            &&& distance(rx, frequency) <= width ==> is_expected(settings, mode, frequency)
            &&& mode == Mode::Ft8 && distance(tx, frequency) <= width ==> is_expected(
                settings,
                mode,
                frequency,
            )
            &&& distance(rx, frequency) >= next && (mode == Mode::Ft4 || distance(tx, frequency)
                >= next) ==> !is_expected(settings, mode, frequency)
        }),
{
    lemma_reach_between(settings.ap.width_hz);
}

/// Nothing is assumed without assistance, for a Fox, nor in the shallowest FT4 search.
pub proof fn nothing_is_assumed_unasked(settings: DecodeSettings, mode: Mode, frequency: u32)
    requires
        !settings.assistance || settings.ap.mode == ApMode::Off || settings.ap.activity
            == Activity::Fox || (mode == Mode::Ft4 && settings.depth == 1),
    ensures
        expected_hypotheses(settings, mode, frequency).len() == 0,
{
}

/// Elsewhere than where the contact is expected nothing is assumed of the other station.
pub proof fn only_expected_contacts_are_assumed(
    settings: DecodeSettings,
    mode: Mode,
    frequency: u32,
    types: Seq<u8>,
    cq: Seq<bool>,
    context: Option<ContextModel>,
    n: nat,
    i: int,
)
    requires
        n <= types.len(),
        settings.ap.activity != Activity::Hound,
        !is_expected(settings, mode, frequency) || context is None || settings.ap.dx_call is None,
        0 <= i < hypotheses_of(settings, mode, frequency, types, cq, context, n).len(),
    ensures
        hypotheses_of(settings, mode, frequency, types, cq, context, n)[i].ap_type <= 2,
        context is None ==> hypotheses_of(
            settings,
            mode,
            frequency,
            types,
            cq,
            context,
            n,
        )[i].ap_type <= 1,
    decreases n,
{
    let rest = hypotheses_of(settings, mode, frequency, types, cq, context, (n - 1) as nat);
    if i < rest.len() {
        only_expected_contacts_are_assumed(
            settings,
            mode,
            frequency,
            types,
            cq,
            context,
            (n - 1) as nat,
            i,
        );
    }
}

} // verus!
