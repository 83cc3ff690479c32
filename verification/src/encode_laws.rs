//! Which messages encode.
use vstd::prelude::*;
use crate::callsign::is_call_char;
use crate::message::{MessageError, MessageKind};
use crate::message_encode::{
    all_upper, base_of, bracketed, call_value, field_day_payload, grid_six_value, grid_value,
    has_portable, has_rover, is_bracket, is_valid_call, joined_words, lemma_whole_base,
    nonstandard_payload, not_standard, report_value, rtty_number, rtty_payload, standard_exchange,
    standard_payload, token_value, unsigned_value, vhf_payload, words_payload,
};
use crate::message_tables::section_place;
use crate::round_trip::{
    bracketed_calls_round_trip, grids_round_trip, lemma_base_parts, lemma_not_token,
    lemma_token_shape, tokens_round_trip,
};
use crate::text::{all_digits, decimal_value, ends_with, is_digit, lemma_find_char, starts_with};
use crate::text_round_trip::{
    is_exchange, is_report, lemma_grid_word, lemma_plain_exchange, written_kind,
};
use crate::wire::silence;

verus! {

// ---------------------------------------------------------------------------
// Standard messages
// ---------------------------------------------------------------------------

/// A base call, with or without the suffix of a portable or rover station.
pub open spec fn is_suffixed_call(word: Seq<char>, base: Seq<char>) -> bool {
    &&& base_of(base) == Some(base)
    &&& word == base || word == base + "/P"@ || word == base + "/R"@
}

/// A call in angle brackets.
pub open spec fn is_bracketed_call(word: Seq<char>) -> bool {
    bracketed(word) is Some
}

proof fn lemma_suffix(word: Seq<char>, base: Seq<char>)
    requires
        is_suffixed_call(word, base),
    ensures
        base_of(word) == Some(base),
        word.len() <= 8,
        !is_bracket(word),
        token_value(word) is None,
        has_portable(word) == (word == base + "/P"@),
        has_rover(word) == (word == base + "/R"@),
        word.contains('/') == (word != base),
        call_value(base) is Ok,
{
    reveal_strlit("/P");
    reveal_strlit("/R");
    lemma_whole_base(base);
    lemma_base_parts(base);
    let n = base.len() as int;
    assert forall|i: int| 0 <= i < word.len() implies is_call_char(#[trigger] word[i]) by {
        if i < n {
            assert(word[i] == base[i]);
            assert(is_call_char(base[i]));
        }
    }
    let up = choose|k: int| 0 <= k < base.len() && crate::text::is_upper(#[trigger] base[k]);
    let down = choose|k: int| 0 <= k < base.len() && is_digit(#[trigger] base[k]);
    assert(word[up] == base[up] && word[down] == base[down]);
    lemma_find_char(word, '/');
    assert(forall|i: int| 0 <= i < n ==> base.contains(#[trigger] base[i]));
    assert(is_valid_call(word)) by {
        assert(crate::text::is_upper(word[up]));
        assert(is_digit(word[down]));
        assert(word[0] == base[0] && base.contains(base[0]));
        assert forall|i: int, j: int| 0 <= i < j < word.len() implies !(word[i] == '/' && word[j]
            == '/') by {
            if i < n {
                assert(word[i] == base[i]);
            }
        }
    }
    let at = crate::text::find_char(word, '/');
    if word == base {
        assert(at == word.len());
        let tail = word.skip(n - 2);
        assert(tail[0] == base[n - 2]);
    } else {
        assert(word[n] == '/');
        assert(at == n) by {
            if at < n {
                assert(word[at] == base[at]);
            }
        }
        assert(word.take(n) =~= base);
        assert(word.skip(n + 1).len() == 1);
        assert(word.skip(word.len() - 2) =~= word.subrange(n, n + 2));
        assert(word.subrange(n, n + 2)[1] == word[n + 1]);
        if word == base + "/P"@ {
            assert(word.skip(n) =~= "/P"@);
        } else {
            assert(word.skip(n) =~= "/R"@);
        }
        assert(word.contains('/'));
    }
    lemma_not_token(word);
    lemma_not_token(base);
    reveal(call_value);
}

/// What an address may be: a token, a call with or without a suffix, or a bracketed call.
pub open spec fn is_address(word: Seq<char>) -> bool {
    ||| token_value(word) is Some
    ||| is_bracketed_call(word)
    ||| exists|base: Seq<char>| #[trigger] is_suffixed_call(word, base)
}

/// What a sender may be.
pub open spec fn is_sender(word: Seq<char>) -> bool {
    ||| is_bracketed_call(word)
    ||| exists|base: Seq<char>| #[trigger] is_suffixed_call(word, base)
}

/// Words of a standard message: an address and a sender, and what follows them. Calls in
/// brackets do not go with suffixes, two words alone need a sender without one, portable and
/// rover suffixes do not go together, and a CQ comes from a call that is spelled out, with a
/// locator or nothing.
pub open spec fn is_standard_form(w: Seq<Seq<char>>) -> bool {
    let suffix = |word: Seq<char>| word.contains('/') && !is_bracket(word);
    &&& 2 <= w.len() <= 4
    &&& is_address(w[0]) && is_sender(w[1])
    &&& w.len() == 3 ==> is_exchange(w[2])
    &&& w.len() == 4 ==> w[2] == "R"@ && grid_value(w[3]) is Some
    &&& !(is_bracket(w[0]) && suffix(w[1])) && !(is_bracket(w[1]) && suffix(w[0]))
    &&& is_bracket(w[0]) && is_bracket(w[1]) ==> !w[0].contains('/') && !w[1].contains('/')
    &&& w.len() == 2 ==> !w[1].contains('/')
    &&& !((ends_with(w[0], "/P"@) || ends_with(w[1], "/P"@)) && (ends_with(w[0], "/R"@)
        || ends_with(w[1], "/R"@)))
    &&& starts_with(w[0], "CQ"@) ==> {
        &&& !is_bracket(w[1])
        &&& w.len() == 2 || (w.len() == 3 && grid_value(w[2]) is Some && w[2] != "RR73"@)
    }
}

proof fn lemma_bracket_is_valued(word: Seq<char>)
    requires
        is_bracketed_call(word),
    ensures
        is_bracket(word),
        call_value(word) is Ok,
        token_value(word) is None,
{
    bracketed_calls_round_trip(silence(), word);
    reveal_strlit("DE");
    reveal_strlit("QRZ");
    reveal_strlit("CQ");
    reveal_strlit("CQ_");
    if starts_with(word, "CQ_"@) {
        assert(word[0] == word.take(3)[0]);
    }
}

proof fn lemma_carried(word: Seq<char>, address: bool)
    requires
        if address {
            is_address(word)
        } else {
            is_sender(word)
        },
    ensures
        crate::message_encode::carried_call(word, address) matches Some(call) && call_value(
            call,
        ) is Ok,
{
    if address && token_value(word) is Some {
        tokens_round_trip(silence(), word);
    } else if is_bracketed_call(word) {
        lemma_bracket_is_valued(word);
    } else {
        let base = choose|base: Seq<char>| #[trigger] is_suffixed_call(word, base);
        lemma_suffix(word, base);
    }
}

proof fn lemma_exchange_packs(w: Seq<Seq<char>>)
    requires
        2 <= w.len() <= 4,
        w.len() == 3 ==> is_exchange(w[2]),
        w.len() == 4 ==> grid_value(w[3]) is Some,
    ensures
        standard_exchange(w) matches Ok(Some(_)),
        w.len() == 2 || (w.len() == 3 && grid_value(w[2]) is Some) ==> (standard_exchange(
            w,
        )->Ok_0->0).0 == 0 && (standard_exchange(w)->Ok_0->0).1 <= 32401,
{
    assert(w.last() == w[w.len() - 1]);
    if w.len() == 3 && grid_value(w[2]) is None && w[2] != "RRR"@ && w[2] != "73"@ {
        let report = choose|report: int| #[trigger] is_report(w[2], report);
        lemma_plain_exchange(w, report);
    } else if w.len() > 2 && grid_value(w.last()) is Some {
        grids_round_trip(w.last());
    }
}

/// Words of a standard message pack.
pub proof fn standard_forms_pack(w: Seq<Seq<char>>)
    requires
        is_standard_form(w),
    ensures
        standard_payload(w) matches Ok(Some(_)),
{
    lemma_carried(w[0], true);
    lemma_carried(w[1], false);
    lemma_exchange_packs(w);
    assert(w.last() == w[w.len() - 1]);
    assert(w[1] != "RR73"@) by {
        reveal_strlit("RR73");
        assert(grid_value("RR73"@) is Some);
        lemma_grid_word("RR73"@);
        if !is_bracketed_call(w[1]) {
            let base = choose|base: Seq<char>| #[trigger] is_suffixed_call(w[1], base);
            lemma_suffix(w[1], base);
        }
    }
    assert(!not_standard(w)) by {
        if is_bracketed_call(w[1]) {
            lemma_bracket_is_valued(w[1]);
        } else {
            let base = choose|base: Seq<char>| #[trigger] is_suffixed_call(w[1], base);
            lemma_suffix(w[1], base);
        }
        if token_value(w[0]) is Some {
            lemma_token_shape(w[0]);
        } else if is_bracketed_call(w[0]) {
            lemma_bracket_is_valued(w[0]);
        } else {
            let base = choose|base: Seq<char>| #[trigger] is_suffixed_call(w[0], base);
            lemma_suffix(w[0], base);
        }
    }
}

/// Two or three words of a standard message, and four without a section at their end, encode
/// as one.
pub proof fn standard_forms_encode(w: Seq<Seq<char>>)
    requires
        is_standard_form(w),
        w.len() == 4 ==> section_place(w[3]) >= 86,
    ensures
        words_payload(w) matches Ok(bits) && standard_payload(w) == Ok::<
            Option<Seq<bool>>,
            MessageError,
        >(Some(bits)),
        written_kind(w) == MessageKind::Standard,
{
    standard_forms_pack(w);
    assert(w.last() == w[w.len() - 1]);
    assert(field_day_payload(w) == Ok::<Option<Seq<bool>>, MessageError>(None));
}

/// A CQ directed to one to four letters or three digits encodes like one word.
pub proof fn directed_calls_join(direction: Seq<char>, rest: Seq<Seq<char>>)
    requires
        rest.len() >= 1,
        base_of(rest[0]) is Some,
        (1 <= direction.len() <= 4 && all_upper(direction)) || (direction.len() == 3 && all_digits(
            direction,
        )),
    ensures
        joined_words(seq!["CQ"@, direction] + rest) == Ok::<Seq<Seq<char>>, MessageError>(
            seq!["CQ_"@ + direction] + rest,
        ),
        token_value("CQ_"@ + direction) is Some,
{
    reveal_strlit("CQ");
    reveal_strlit("CQ_");
    reveal_strlit("DE");
    reveal_strlit("QRZ");
    let w = seq!["CQ"@, direction] + rest;
    let cq = "CQ_"@ + direction;
    assert(w[0] == "CQ"@ && w[1] == direction && w[2] == rest[0]);
    assert(cq.take(3) =~= "CQ_"@);
    assert(cq.skip(3) =~= direction);
    assert(cq.len() > 3);
    assert(seq![cq] + w.skip(2) =~= seq![cq] + rest);
}

// ---------------------------------------------------------------------------
// Other messages
// ---------------------------------------------------------------------------

proof fn lemma_full_valued(word: Seq<char>)
    requires
        base_of(word) is Some,
    ensures
        call_value(word) is Ok,
        !is_bracket(word),
{
    lemma_not_token(word);
    reveal(call_value);
    assert(is_call_char(word[0]));
}

/// A DXpedition's double answer encodes for every report from -30 to 32 dB.
pub proof fn double_answers_encode(w: Seq<Seq<char>>)
    requires
        w.len() == 5,
        base_of(w[0]) is Some,
        w[1] == "RR73;"@,
        base_of(w[2]) is Some,
        is_bracketed_call(w[3]),
        report_value(w[4]) matches Some(report) && -30 <= report <= 32,
    ensures
        words_payload(w) is Ok,
        written_kind(w) == MessageKind::Dxpedition,
{
    lemma_full_valued(w[0]);
    lemma_full_valued(w[2]);
}

/// A Field Day exchange of 1 to 32 transmitters, classes A to H and a known section encodes,
/// with or without a roger.
pub proof fn field_days_encode(w: Seq<Seq<char>>, class: Seq<char>)
    requires
        4 <= w.len() <= 5,
        base_of(w[0]) is Some,
        base_of(w[1]) is Some,
        w.len() == 5 ==> w[2] == "R"@,
        class == w[w.len() - 2],
        class.len() > 0,
        unsigned_value(class.drop_last()) matches Some(count) && 1 <= count <= 32,
        'A' <= class.last() <= 'H',
        section_place(w[w.len() - 1]) < 86,
        w[1] != "RR73;"@,
    ensures
        words_payload(w) is Ok,
        written_kind(w) == MessageKind::FieldDay,
{
    lemma_full_valued(w[0]);
    lemma_full_valued(w[1]);
    assert(w.last() == w[w.len() - 1]);
}

/// Words behind the thanks of an RTTY exchange.
pub open spec fn is_rtty_form(w: Seq<Seq<char>>) -> bool {
    &&& 4 <= w.len() <= 5
    &&& base_of(w[0]) is Some
    &&& base_of(w[1]) is Some
    &&& w.len() == 5 ==> w[2] == "R"@
    &&& ({
        let report = w[w.len() - 2];
        report.len() == 3 && report[0] == '5' && '2' <= report[1] <= '9' && report[2] == '9'
    })
    &&& rtty_number(w[w.len() - 1]) is Some
}

/// An RTTY exchange packs, with or without thanks and a roger, for reports 529 to 599 and
/// serial numbers or known multipliers.
pub proof fn rtty_forms_pack(w: Seq<Seq<char>>)
    requires
        is_rtty_form(w),
    ensures
        w[0] != "TU;"@ ==> (rtty_payload(w) matches Ok(Some(_))),
        rtty_payload(seq!["TU;"@] + w) matches Ok(Some(_)),
{
    lemma_full_valued(w[0]);
    lemma_full_valued(w[1]);
    let all = seq!["TU;"@] + w;
    assert(all.skip(1) =~= w);
    assert(w.last() == w[w.len() - 1]);
}

/// Serial numbers from 1 to 7999 are known exchanges.
pub proof fn serial_numbers_are_exchanges(word: Seq<char>)
    requires
        crate::message_tables::multiplier_place(word) >= 171,
        1 <= word.len() <= 4,
        all_digits(word),
        1 <= decimal_value(word) <= 7999,
    ensures
        rtty_number(word) == Some(decimal_value(word)),
{
    assert(is_digit(word[0]));
}

/// A long call with a bracketed one packs, on either side and with any closing word, unless
/// both could be packed as standard calls; a CQ with any call of more than four characters.
pub proof fn long_calls_pack(w: Seq<Seq<char>>, long: Seq<char>, other: Seq<char>)
    requires
        2 <= w.len() <= 3,
        w.len() == 3 ==> w[2] == "RRR"@ || w[2] == "RR73"@ || w[2] == "73"@,
        is_valid_call(long),
        ({
            ||| is_bracketed_call(w[0]) && w[1] == long && bracketed(w[0]) == Some(other)
            ||| w[0] == long && is_bracketed_call(w[1]) && bracketed(w[1]) == Some(other)
        }),
        base_of(long) != Some(long) || base_of(other) != Some(other),
    ensures
        nonstandard_payload(w) matches Ok(Some(_)),
{
    reveal_strlit("CQ");
    assert(is_call_char(long[0]));
    if is_bracketed_call(w[0]) {
        assert(w[0][0] == '<');
    }
}

pub proof fn long_calls_call_cq(w: Seq<Seq<char>>)
    requires
        w.len() == 2,
        w[0] == "CQ"@,
        is_valid_call(w[1]),
        w[1].len() > 4,
    ensures
        nonstandard_payload(w) matches Ok(Some(_)),
{
}

/// A VHF exchange of two bracketed calls packs for reports 52 to 59 with serial numbers 1 to
/// 2047 and every locator of six characters.
pub proof fn vhf_forms_pack(w: Seq<Seq<char>>)
    requires
        4 <= w.len() <= 5,
        is_bracketed_call(w[0]),
        is_bracketed_call(w[1]),
        w.len() == 5 ==> w[2] == "R"@,
        ({
            let exchange = w[w.len() - 2];
            exchange.len() == 6 && all_digits(exchange) && 520000 <= decimal_value(exchange)
                <= 592047 && 1 <= decimal_value(exchange) % 10000 <= 2047
        }),
        grid_six_value(w[w.len() - 1]) is Some,
    ensures
        vhf_payload(w) matches Ok(Some(_)),
{
    lemma_bracket_is_valued(w[0]);
    lemma_bracket_is_valued(w[1]);
    assert(w.last() == w[w.len() - 1]);
}

} // verus!
