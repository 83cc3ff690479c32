//! What becomes of message texts: written in any case and spacing, encoded and
//! received again.
use vstd::prelude::*;
use crate::callsign::{
    all_call_chars, hash10, hash12, hash22, is_call_char, normal_call, ALPHANUMERIC, CALL_ALPHABET,
    LETTERS,
};
use crate::contest_round_trip::{
    between, dxpedition_messages_round_trip, field_day_messages_round_trip, full_call, full_echo,
    full_hashes, full_station, hashed_station, nonstandard_messages_round_trip, quantized,
    rtty_echo, rtty_messages_round_trip, spelled_station, told_closing, vhf_messages_round_trip,
};
use crate::message::{
    consistent, lemma_trim_parts, remembered_calls_resolve, ExchangeType, MessageError,
    MessageKind,
};
use crate::message_encode::{
    all_plain, any_digit, base_of, bracketed, call_value, closing_value, dxpedition_payload,
    field_day_payload, flag, grid_value, has_portable, has_rover, is_bracket, is_plain,
    is_valid_call, joined_words, lemma_whole_base, nonstandard_payload, not_standard,
    payload_of_text, report_value, rtty_payload, standard_exchange, standard_payload, token_value,
    unsigned_value, vhf_payload, words_payload,
};
use crate::round_trip::{
    base_calls_round_trip, bracketed_calls_round_trip, carried_grid, carried_report, comes_back,
    echo, echo_hashes, grids_round_trip, lemma_normal_word, lemma_not_token,
    lemma_standard_type, lemma_token_shape,
    reports_round_trip, standard_messages_round_trip, told_direction, told_fields, told_station,
    tokens_round_trip,
};
use crate::text::{
    decimal, decimal_value, digit, digits, is_digit, is_lower, is_upper, is_word, joined,
    joined_words_are_read_back, lemma_find_char, lemma_trim_end, lemma_trim_start_length,
    read_words_are_words, starts_with, trim, trim_start, upper, uppercase, words,
};
use crate::wire::{
    acknowledgement, addressed, call28, call_digits, closing, enveloped, field_of, is_standard_call,
    last_digit, no_fields, parsed, parsed_by_type, remembered, report_of, report_text, resolve,
    roger, shown, signed_two, silence, standard_from, standard_text, station, suffixed, taught,
    unpacked, History, StationModel, HASH22_COUNT, TOKEN_COUNT,
};

verus! {

// ---------------------------------------------------------------------------
// Case and spacing
// ---------------------------------------------------------------------------

/// A text in capitals, its words joined by single spaces.
pub open spec fn tidied(text: Seq<char>) -> Seq<char> {
    joined(words(uppercase(text)))
}

/// Every character of the joined words is a space or one of the words'.
proof fn lemma_joined_chars(w: Seq<Seq<char>>)
    ensures
        forall|k: int|
            0 <= k < joined(w).len() ==> #[trigger] joined(w)[k] == ' ' || exists|i: int, j: int|
                0 <= i < w.len() && 0 <= j < w[i].len() && #[trigger] w[i][j] == joined(w)[k],
    decreases w.len(),
{
    if w.len() == 1 {
        assert forall|k: int| 0 <= k < joined(w).len() implies #[trigger] joined(w)[k] == ' '
            || exists|i: int, j: int|
            0 <= i < w.len() && 0 <= j < w[i].len() && #[trigger] w[i][j] == joined(w)[k] by {
            assert(w[0][k] == joined(w)[k]);
        }
    } else if w.len() > 1 {
        let rest = w.skip(1);
        lemma_joined_chars(rest);
        let n = w[0].len();
        assert forall|k: int| 0 <= k < joined(w).len() implies #[trigger] joined(w)[k] == ' '
            || exists|i: int, j: int|
            0 <= i < w.len() && 0 <= j < w[i].len() && #[trigger] w[i][j] == joined(w)[k] by {
            if k < n {
                assert(w[0][k] == joined(w)[k]);
            } else if k > n {
                let c = joined(rest)[k - n - 1];
                assert(joined(w)[k] == c);
                if c != ' ' {
                    let (i, j) = choose|i: int, j: int|
                        0 <= i < rest.len() && 0 <= j < rest[i].len() && #[trigger] rest[i][j] == c;
                    assert(w[i + 1][j] == c);
                }
            }
        }
    }
}

/// A text over 37 characters or with one outside printable ASCII is refused; otherwise
/// neither case nor spacing changes the payload.
pub proof fn case_and_spacing_do_not_matter(text: Seq<char>)
    ensures
        text.len() > 37 || !all_plain(text) ==> payload_of_text(text) == Err::<
            Seq<bool>,
            MessageError,
        >(MessageError::InvalidField),
        text.len() <= 37 && all_plain(text) ==> payload_of_text(text) == payload_of_text(
            tidied(text),
        ),
{
    reveal(payload_of_text);
    if text.len() <= 37 && all_plain(text) {
        let capitals = uppercase(text);
        let w = words(capitals);
        let tidy = tidied(text);
        read_words_are_words(capitals);
        joined_words_are_read_back(w);
        lemma_joined_chars(w);
        assert forall|k: int| 0 <= k < tidy.len() implies is_plain(#[trigger] tidy[k]) && upper(
            tidy[k],
        ) == tidy[k] by {
            if tidy[k] != ' ' {
                let (i, j) = choose|i: int, j: int|
                    0 <= i < w.len() && 0 <= j < w[i].len() && #[trigger] w[i][j] == tidy[k];
                assert(capitals.contains(w[i][j]));
                let m = choose|m: int| 0 <= m < capitals.len() && capitals[m] == tidy[k];
                assert(is_plain(text[m]));
                assert(capitals[m] == upper(text[m]));
            }
        }
        assert(uppercase(tidy) =~= tidy);
        assert(words(uppercase(tidy)) == w);
    }
}

// ---------------------------------------------------------------------------
// Kinds of text
// ---------------------------------------------------------------------------

/// The words of a text as they are encoded, a directed CQ joined to its token.
pub open spec fn written_words(text: Seq<char>) -> Seq<Seq<char>> {
    joined_words(words(uppercase(text)))->Ok_0
}

/// The first kind of message that words form.
pub open spec fn written_kind(w: Seq<Seq<char>>) -> MessageKind {
    if w.len() == 5 && w[1] == "RR73;"@ {
        MessageKind::Dxpedition
    } else if field_day_payload(w) matches Ok(Some(_)) {
        MessageKind::FieldDay
    } else if standard_payload(w) matches Ok(Some(_)) {
        MessageKind::Standard
    } else if rtty_payload(w) matches Ok(Some(_)) {
        MessageKind::Rtty
    } else if nonstandard_payload(w) matches Ok(Some(_)) {
        MessageKind::Nonstandard
    } else {
        MessageKind::Vhf
    }
}

proof fn lemma_written(text: Seq<char>)
    requires
        payload_of_text(text) is Ok,
    ensures
        ({
            let w = written_words(text);
            let bits = payload_of_text(text)->Ok_0;
            &&& w.len() >= 2
            &&& written_kind(w) == MessageKind::Dxpedition ==> dxpedition_payload(w) == Ok::<
                Seq<bool>,
                MessageError,
            >(bits)
            &&& written_kind(w) == MessageKind::FieldDay ==> (field_day_payload(w) matches Ok(
                Some(b),
            ) && b == bits)
            &&& written_kind(w) == MessageKind::Standard ==> (standard_payload(w) matches Ok(
                Some(b),
            ) && b == bits)
            &&& written_kind(w) == MessageKind::Rtty ==> (rtty_payload(w) matches Ok(Some(b)) && b
                == bits)
            &&& written_kind(w) == MessageKind::Nonstandard ==> (nonstandard_payload(w) matches Ok(
                Some(b),
            ) && b == bits)
            &&& written_kind(w) == MessageKind::Vhf ==> (vhf_payload(w) matches Ok(Some(b)) && b
                == bits)
        }),
{
    reveal(payload_of_text);
}

/// A standard text is received with its calls as the echo of each, its locator, its
/// report and the hashes of its bracketed calls.
pub proof fn standard_texts_round_trip(history: History, text: Seq<char>)
    requires
        payload_of_text(text) is Ok,
        written_kind(written_words(text)) == MessageKind::Standard,
        comes_back(written_words(text)[0]),
        comes_back(written_words(text)[1]),
    ensures
        ({
            let w = written_words(text);
            let (rogered, exchange) = standard_exchange(w)->Ok_0->0;
            &&& unpacked(history, payload_of_text(text)->Ok_0) matches Ok(message)
            &&& message.text == enveloped(
                standard_text(
                    echo(history, w[0], true),
                    echo(history, w[1], false),
                    exchange,
                    rogered == 1,
                ),
            )
            &&& message.kind == MessageKind::Standard
            &&& message.grid == carried_grid(w)
            &&& message.fields == told_fields(history, w)
            &&& message.hashes == echo_hashes(history, w[0], w[1])
        }),
{
    lemma_written(text);
    standard_messages_round_trip(history, written_words(text));
}

/// A DXpedition text is received with its report rounded down to 2 dB steps.
pub proof fn dxpedition_texts_round_trip(history: History, text: Seq<char>)
    requires
        payload_of_text(text) is Ok,
        written_kind(written_words(text)) == MessageKind::Dxpedition,
        full_call(written_words(text)[0]),
        full_call(written_words(text)[2]),
    ensures
        ({
            let w = written_words(text);
            let hash = resolve(history, hash10(bracketed(w[3])->0), 10);
            &&& unpacked(history, payload_of_text(text)->Ok_0) matches Ok(message)
            &&& message.text == enveloped(
                full_echo(history, w[0]) + " RR73; "@ + full_echo(history, w[2]) + " "@ + shown(
                    hash,
                ) + " "@ + signed_two(quantized(report_value(w[4])->0)),
            )
            &&& message.kind == MessageKind::Dxpedition
            &&& message.grid is None
            &&& message.fields == no_fields()
            &&& message.hashes == full_hashes(history, w[0], w[2]).push(hash)
        }),
{
    lemma_written(text);
    dxpedition_messages_round_trip(history, written_words(text));
}

/// A Field Day text is received with its transmitter count, class and section.
pub proof fn field_day_texts_round_trip(history: History, text: Seq<char>)
    requires
        payload_of_text(text) is Ok,
        written_kind(written_words(text)) == MessageKind::FieldDay,
        full_call(written_words(text)[0]),
        full_call(written_words(text)[1]),
    ensures
        ({
            let w = written_words(text);
            let class = w[w.len() - 2];
            &&& unpacked(history, payload_of_text(text)->Ok_0) matches Ok(message)
            &&& message.text == enveloped(
                full_echo(history, w[0]) + " "@ + full_echo(history, w[1]) + " "@ + roger(
                    w.len() == 5,
                ) + decimal(unsigned_value(class.drop_last())->0) + seq![class.last()] + " "@
                    + w.last(),
            )
            &&& message.kind == MessageKind::FieldDay
            &&& message.grid is None
            &&& message.fields == between(
                full_station(history, w[0]),
                full_station(history, w[1]),
                None,
            )
            &&& message.hashes == full_hashes(history, w[0], w[1])
        }),
{
    lemma_written(text);
    field_day_messages_round_trip(history, written_words(text));
}

/// The words of an RTTY message behind its thanks.
pub open spec fn behind_thanks(w: Seq<Seq<char>>) -> Seq<Seq<char>> {
    if w[0] == "TU;"@ {
        w.skip(1)
    } else {
        w
    }
}

/// An RTTY text is received with its report and exchange.
pub proof fn rtty_texts_round_trip(history: History, text: Seq<char>)
    requires
        payload_of_text(text) is Ok,
        written_kind(written_words(text)) == MessageKind::Rtty,
        full_call(behind_thanks(written_words(text))[0]),
        full_call(behind_thanks(written_words(text))[1]),
    ensures
        ({
            let all = written_words(text);
            let w = behind_thanks(all);
            &&& unpacked(history, payload_of_text(text)->Ok_0) matches Ok(message)
            &&& message.text == enveloped(
                (if all[0] == "TU;"@ {
                    "TU; "@
                } else {
                    ""@
                }) + full_echo(history, w[0]) + " "@ + full_echo(history, w[1]) + " "@ + roger(
                    w.len() == 5,
                ) + w[w.len() - 2] + " "@ + rtty_echo(w.last()),
            )
            &&& message.kind == MessageKind::Rtty
            &&& message.grid is None
            &&& message.fields == between(
                full_station(history, w[0]),
                full_station(history, w[1]),
                None,
            )
            &&& message.hashes == full_hashes(history, w[0], w[1])
        }),
{
    lemma_written(text);
    rtty_messages_round_trip(history, written_words(text));
}

/// A VHF text is received with what its two hashes resolve to and its words.
pub proof fn vhf_texts_round_trip(history: History, text: Seq<char>)
    requires
        payload_of_text(text) is Ok,
        written_kind(written_words(text)) == MessageKind::Vhf,
    ensures
        ({
            let w = written_words(text);
            let first = resolve(history, hash12(bracketed(w[0])->0), 12);
            let second = resolve(history, hash22(bracketed(w[1])->0), 22);
            &&& unpacked(history, payload_of_text(text)->Ok_0) matches Ok(message)
            &&& message.text == enveloped(
                shown(first) + " "@ + shown(second) + " "@ + roger(w.len() == 5) + w[w.len() - 2]
                    + " "@ + w.last(),
            )
            &&& message.kind == MessageKind::Vhf
            &&& message.grid == Some(w.last())
            &&& message.fields == between(hashed_station(first), hashed_station(second), None)
            &&& message.hashes == seq![first, second]
        }),
{
    lemma_written(text);
    vhf_messages_round_trip(history, written_words(text));
}

/// The full call comes first, the hashed one behind it.
pub open spec fn is_flipped(w: Seq<Seq<char>>) -> bool {
    w[0] != "CQ"@ && !is_bracket(w[0])
}

/// The call that a nonstandard call message hashes.
pub open spec fn hashed_call(w: Seq<Seq<char>>) -> Seq<char> {
    if w[0] == "CQ"@ {
        w[1]
    } else if is_flipped(w) {
        bracketed(w[1])->0
    } else {
        bracketed(w[0])->0
    }
}

/// The call that a nonstandard call message spells out.
pub open spec fn spelled_call(w: Seq<Seq<char>>) -> Seq<char> {
    if is_flipped(w) {
        w[0]
    } else {
        w[1]
    }
}

/// A text with a nonstandard call is received with its full call, what its hash resolves
/// to and its closing word; a CQ with its full call alone.
pub proof fn nonstandard_texts_round_trip(history: History, text: Seq<char>)
    requires
        payload_of_text(text) is Ok,
        written_kind(written_words(text)) == MessageKind::Nonstandard,
    ensures
        ({
            let w = written_words(text);
            let hash = resolve(history, hash12(hashed_call(w)), 12);
            let call = spelled_call(w);
            &&& unpacked(history, payload_of_text(text)->Ok_0) matches Ok(message)
            &&& message.text == enveloped(
                if w[0] == "CQ"@ {
                    "CQ "@ + call
                } else if is_flipped(w) {
                    call + " "@ + shown(hash) + acknowledgement(closing_value(w)).1
                } else {
                    shown(hash) + " "@ + call + acknowledgement(closing_value(w)).1
                },
            )
            &&& message.kind == MessageKind::Nonstandard
            &&& message.grid is None
            &&& message.fields == (if w[0] == "CQ"@ {
                between(None, spelled_station(call), Some(ExchangeType::Cq))
            } else if is_flipped(w) {
                between(spelled_station(call), hashed_station(hash), Some(told_closing(w)))
            } else {
                between(hashed_station(hash), spelled_station(call), Some(told_closing(w)))
            })
            &&& message.hashes == (if w[0] == "CQ"@ {
                Seq::empty()
            } else {
                seq![hash]
            })
        }),
{
    lemma_written(text);
    reveal_strlit("CQ");
    let w = written_words(text);
    nonstandard_messages_round_trip(
        history,
        w,
        hashed_call(w),
        spelled_call(w),
        is_flipped(w),
    );
}

// ---------------------------------------------------------------------------
// Plain texts
// ---------------------------------------------------------------------------

/// A word in capitals of printable characters, at most 13 of them.
pub open spec fn is_wire_word(s: Seq<char>) -> bool {
    &&& 1 <= s.len() <= 13
    &&& forall|i: int| 0 <= i < s.len() ==> '!' <= #[trigger] s[i] <= '~' && !is_lower(s[i])
}

/// Words in capitals are encoded as they stand.
proof fn lemma_text_of_words(w: Seq<Seq<char>>)
    requires
        w.len() >= 2,
        joined(w).len() <= 37,
        forall|i: int| 0 <= i < w.len() ==> is_wire_word(#[trigger] w[i]),
    ensures
        payload_of_text(joined(w)) == (match joined_words(w) {
            Err(error) => Err(error),
            Ok(v) => words_payload(v),
        }),
{
    reveal(payload_of_text);
    let text = joined(w);
    assert forall|i: int| 0 <= i < w.len() implies is_word(#[trigger] w[i]) by {
        assert(is_wire_word(w[i]));
    }
    joined_words_are_read_back(w);
    lemma_joined_chars(w);
    assert forall|k: int| 0 <= k < text.len() implies is_plain(#[trigger] text[k]) && upper(text[k])
        == text[k] by {
        if text[k] != ' ' {
            let (i, j) = choose|i: int, j: int|
                0 <= i < w.len() && 0 <= j < w[i].len() && #[trigger] w[i][j] == text[k];
            assert(is_wire_word(w[i]));
        }
    }
    assert(uppercase(text) =~= text);
    assert forall|i: int| 0 <= i < w.len() implies (#[trigger] w[i]).len() <= 13 by {
        assert(is_wire_word(w[i]));
    }
}

/// Up to three words that form a standard message are encoded as one.
proof fn lemma_short_words(w: Seq<Seq<char>>)
    requires
        w.len() <= 3,
        standard_payload(w) matches Ok(Some(_)),
    ensures
        words_payload(w) == Ok::<Seq<bool>, MessageError>(standard_payload(w)->Ok_0->0),
{
    assert(field_day_payload(w) == Ok::<Option<Seq<bool>>, MessageError>(None));
}

/// Words without a CQ in front are encoded as they stand.
proof fn lemma_not_joined(w: Seq<Seq<char>>)
    requires
        w.len() < 3 || w[0] != "CQ"@ || base_of(w[2]) is None,
    ensures
        joined_words(w) == Ok::<Seq<Seq<char>>, MessageError>(w),
{
}

/// A call that packs into 28 bits and is accepted back.
pub open spec fn is_plain_call(call: Seq<char>) -> bool {
    base_of(call) == Some(call) && call != "QU1RK"@
}

/// A word that carries a report, with or without a roger.
pub open spec fn is_report(word: Seq<char>, report: int) -> bool {
    -50 <= report <= 50 && (word == signed_two(report) || word == "R"@ + signed_two(report))
}

/// What may follow two calls.
pub open spec fn is_exchange(word: Seq<char>) -> bool {
    ||| grid_value(word) is Some
    ||| word == "RRR"@
    ||| word == "73"@
    ||| exists|report: int| #[trigger] is_report(word, report)
}

/// Two calls, a call behind DE or QRZ, or a CQ with a locator, and what follows them.
pub open spec fn is_plain_message(w: Seq<Seq<char>>) -> bool {
    &&& 2 <= w.len() <= 3
    &&& is_plain_call(w[1])
    &&& ({
        ||| is_plain_call(w[0]) && !starts_with(w[0], "CQ"@)
        ||| w[0] == "DE"@
        ||| w[0] == "QRZ"@
        ||| w[0] == "CQ"@ && w.len() == 3 && grid_value(w[2]) is Some && w[2] != "RR73"@
    })
    &&& w.len() == 3 ==> is_exchange(w[2])
}

proof fn lemma_signed_report(report: int)
    requires
        -50 <= report <= 50,
    ensures
        report_value(signed_two(report)) == Some(report),
        signed_two(report).len() == 3,
        signed_two(report)[0] == '+' || signed_two(report)[0] == '-',
        is_wire_word(signed_two(report)),
        is_wire_word("R"@ + signed_two(report)),
        ("R"@ + signed_two(report)).len() == 4,
        ("R"@ + signed_two(report)).skip(1) == signed_two(report),
        ("R"@ + signed_two(report))[0] == 'R',
        ("R"@ + signed_two(report))[1] == '+' || ("R"@ + signed_two(report))[1] == '-',
{
    reveal_strlit("-");
    reveal_strlit("+");
    reveal_strlit("R");
    let n = (if report < 0 {
        -report
    } else {
        report
    }) as nat;
    reveal_with_fuel(digits, 3);
    reveal_with_fuel(decimal_value, 3);
    let s = signed_two(report);
    let two = digits(n, 2);
    assert(s.skip(1) =~= two);
    assert(two.len() == 2 && two[1] == digit((n % 10) as int) && two[0] == digit(
        (n / 10 % 10) as int,
    ));
    assert(two.drop_last().drop_last() =~= Seq::<char>::empty());
    assert(decimal_value(two) == n);
    assert(("R"@ + s).skip(1) =~= s);
}

proof fn lemma_base_word(call: Seq<char>)
    requires
        is_plain_call(call),
    ensures
        is_wire_word(call),
        3 <= call.len() <= 6,
        call[0] != 'Q',
        !call.contains('/'),
        !has_portable(call),
        !has_rover(call),
        !is_bracket(call),
        token_value(call) is None,
        call_value(call) is Ok,
        comes_back(call),
{
    lemma_whole_base(call);
    lemma_not_token(call);
    reveal_strlit("QU1RK");
    reveal_strlit("/P");
    reveal_strlit("/R");
    base_calls_round_trip(silence(), call);
    assert forall|i: int| 0 <= i < call.len() implies '!' <= #[trigger] call[i] <= '~' && !is_lower(
        call[i],
    ) by {
        assert(is_call_char(call[i]));
    }
    let tail = call.skip(call.len() - 2);
    assert(tail[0] == call[call.len() - 2]);
    assert(is_call_char(call[0]));
}

pub proof fn lemma_tokens()
    ensures
        token_value("DE"@) == Some(0nat),
        token_value("QRZ"@) == Some(1nat),
        token_value("CQ"@) == Some(2nat),
        is_wire_word("DE"@),
        is_wire_word("QRZ"@),
        is_wire_word("CQ"@),
        !starts_with("DE"@, "CQ"@),
        !starts_with("QRZ"@, "CQ"@),
        starts_with("CQ"@, "CQ"@),
        base_of("DE"@) is None,
        base_of("QRZ"@) is None,
        base_of("CQ"@) is None,
        !"DE"@.contains('/'),
        !"QRZ"@.contains('/'),
        !"CQ"@.contains('/'),
        addressed("DE"@) == "DE"@,
        addressed("QRZ"@) == "QRZ"@,
        addressed("CQ"@) == "CQ"@,
{
    reveal_strlit("DE");
    reveal_strlit("QRZ");
    reveal_strlit("CQ");
    reveal_strlit("CQ_");
    assert("DE"@.take(2) =~= "DE"@ && "CQ"@.take(2) =~= "CQ"@);
    assert("DE"@[0] == 'D' && "QRZ"@[0] == 'Q' && "CQ"@[0] == 'C');
    assert("QRZ"@.take(2)[0] == 'Q');
    assert("QRZ"@.take(3)[0] == 'Q');
    assert(!any_digit("QRZ"@));
}

/// A locator is no call.
pub proof fn lemma_grid_word(word: Seq<char>)
    requires
        grid_value(word) is Some,
    ensures
        is_wire_word(word),
        word.len() == 4,
        base_of(word) is None,
        !starts_with(word, "R+"@),
        !starts_with(word, "R-"@),
        word[0] != '+' && word[0] != '-',
{
    reveal_strlit("R+");
    reveal_strlit("R-");
    lemma_find_char(word, '/');
    assert(!is_upper(word.skip(3)[0]));
    assert(word.take(2)[1] == word[1]);
}

proof fn lemma_exchange_words()
    ensures
        is_wire_word("RRR"@),
        is_wire_word("73"@),
        grid_value("RRR"@) is None,
        grid_value("73"@) is None,
        "RRR"@.len() == 3,
        "73"@.len() == 2,
        "RRR"@ != "73"@,
        "RRR"@[0] == 'R',
        "RRR"@[1] == 'R',
        "73"@[0] == '7',
        "RR73"@.len() == 4,
{
    reveal_strlit("RRR");
    reveal_strlit("73");
    reveal_strlit("RR73");
}

/// The exchange number of a plain message.
pub proof fn lemma_plain_exchange(w: Seq<Seq<char>>, report: int)
    requires
        w.len() == 3,
        is_report(w[2], report),
    ensures
        ({
            let number = (32435 + report + (if report <= -31 {
                101int
            } else {
                0
            })) as nat;
            let rogered = w[2][0] == 'R';
            &&& standard_exchange(w) == Ok::<Option<(nat, nat)>, MessageError>(
                Some((flag(rogered), number)),
            )
            &&& report_of(number) == report
            &&& number > 32404
            &&& carried_report(w) == Some(report as i32)
            &&& carried_grid(w) is None
            &&& w[2] == (if rogered {
                "R"@
            } else {
                ""@
            }) + report_text(report)
            &&& is_wire_word(w[2])
            &&& w[2].len() <= 4
            &&& base_of(w[2]) is None
        }),
{
    lemma_signed_report(report);
    reports_round_trip(report);
    reveal_strlit("R+");
    reveal_strlit("R-");
    reveal_strlit("RRR");
    reveal_strlit("73");
    reveal_strlit("R");
    reveal_strlit("");
    let last = w[2];
    let s = signed_two(report);
    assert(w.last() == last);
    assert(""@ + s =~= s);
    if last == s {
        assert(last.take(2)[0] == last[0]);
        assert(!is_call_char(last[0]));
    } else {
        let front = last.take(2);
        assert(front[0] == last[0] && front[1] == last[1]);
        assert(!is_call_char(last[1]));
        if last[1] == '+' {
            assert(front =~= "R+"@);
        } else {
            assert(front =~= "R-"@);
        }
    }
    assert(grid_value(last) is None);
}

proof fn lemma_plain_words_fit(w: Seq<Seq<char>>)
    requires
        is_plain_message(w),
    ensures
        forall|i: int| 0 <= i < w.len() ==> is_wire_word(#[trigger] w[i]),
        w[0].len() <= 6,
        w[1].len() <= 6,
        w.len() == 3 ==> w[2].len() <= 4,
        w.len() == 3 && w[0] == "CQ"@ ==> base_of(w[2]) is None,
        joined(w).len() <= 18,
        joined(w) == (if w.len() == 2 {
            w[0] + seq![' '] + w[1]
        } else {
            w[0] + seq![' '] + w[1] + seq![' '] + w[2]
        }),
{
    lemma_tokens();
    lemma_exchange_words();
    lemma_base_word(w[1]);
    if is_plain_call(w[0]) {
        lemma_base_word(w[0]);
    }
    reveal_strlit("DE");
    reveal_strlit("QRZ");
    reveal_strlit("CQ");
    if w.len() == 3 {
        if grid_value(w[2]) is Some {
            lemma_grid_word(w[2]);
        } else if w[2] != "RRR"@ && w[2] != "73"@ {
            let report = choose|report: int| #[trigger] is_report(w[2], report);
            lemma_plain_exchange(w, report);
        }
    }
    let rest = w.skip(1);
    assert(rest.skip(1).len() < 2);
    reveal_with_fuel(joined, 4);
    assert(joined(w) =~= (if w.len() == 2 {
        w[0] + seq![' '] + w[1]
    } else {
        w[0] + seq![' '] + w[1] + seq![' '] + w[2]
    }));
}

/// The words of a plain message pack.
proof fn lemma_plain_packs(w: Seq<Seq<char>>)
    requires
        is_plain_message(w),
    ensures
        standard_payload(w) matches Ok(Some(_)),
        comes_back(w[0]),
        comes_back(w[1]),
        !is_bracket(w[0]),
        !is_bracket(w[1]),
        !has_portable(w[0]) && !has_rover(w[0]) && !has_portable(w[1]) && !has_rover(w[1]),
{
    lemma_tokens();
    lemma_exchange_words();
    lemma_base_word(w[1]);
    if is_plain_call(w[0]) {
        lemma_base_word(w[0]);
    } else {
        tokens_round_trip(silence(), w[0]);
        lemma_token_shape(w[0]);
    }
    if w.len() == 3 && grid_value(w[2]) is None && w[2] != "RRR"@ && w[2] != "73"@ {
        let report = choose|report: int| #[trigger] is_report(w[2], report);
        lemma_plain_exchange(w, report);
    } else if w.len() == 3 && grid_value(w[2]) is Some {
        grids_round_trip(w[2]);
    }
    assert(w.last() == w[w.len() - 1]);
    assert(!not_standard(w));
}

/// The text of a plain message is its words.
proof fn lemma_plain_text(history: History, w: Seq<Seq<char>>)
    requires
        is_plain_message(w),
    ensures
        ({
            let (rogered, exchange) = standard_exchange(w)->Ok_0->0;
            standard_text(
                echo(history, w[0], true),
                echo(history, w[1], false),
                exchange,
                rogered == 1,
            ) == joined(w)
        }),
{
    lemma_plain_words_fit(w);
    lemma_plain_packs(w);
    lemma_tokens();
    lemma_exchange_words();
    lemma_base_word(w[1]);
    if is_plain_call(w[0]) {
        lemma_base_word(w[0]);
    }
    assert(echo(history, w[0], true) == w[0]);
    assert(echo(history, w[1], false) == w[1]);
    let (rogered, exchange) = standard_exchange(w)->Ok_0->0;
    reveal_strlit(" ");
    reveal_strlit("");
    assert(w.last() == w[w.len() - 1]);
    let made = standard_text(w[0], w[1], exchange, rogered == 1);
    if w.len() == 2 {
        assert(made =~= joined(w));
    } else if grid_value(w[2]) is Some {
        grids_round_trip(w[2]);
        assert(made =~= joined(w));
    } else if w[2] == "RRR"@ || w[2] == "73"@ {
        reveal_strlit("RRR");
        reveal_strlit("73");
        reveal_strlit(" RRR");
        reveal_strlit(" 73");
        assert(made =~= joined(w));
    } else {
        let report = choose|report: int| #[trigger] is_report(w[2], report);
        lemma_plain_exchange(w, report);
        let mark = if rogered == 1 {
            "R"@
        } else {
            ""@
        };
        let report_word = report_text(report);
        assert(w[2] == mark + report_word);
        assert(closing(exchange, rogered == 1) == " "@ + mark + report_word);
        assert(made =~= w[0] + " "@ + w[1] + (" "@ + mark + report_word));
        assert(made =~= w[0] + seq![' '] + w[1] + seq![' '] + w[2]);
    }
}

/// The exchange between two plain calls, by what follows them.
pub open spec fn plain_exchange(w: Seq<Seq<char>>) -> ExchangeType {
    if w.len() == 2 {
        ExchangeType::Calls
    } else if w[2] == "RRR"@ {
        ExchangeType::Rrr
    } else if w[2] == "RR73"@ {
        ExchangeType::Rr73
    } else if w[2] == "73"@ {
        ExchangeType::Signoff
    } else if grid_value(w[2]) is Some {
        ExchangeType::Grid
    } else if w[2][0] == 'R' {
        ExchangeType::RogerReport
    } else {
        ExchangeType::Report
    }
}

proof fn lemma_plain_fields(history: History, w: Seq<Seq<char>>)
    requires
        is_plain_message(w),
    ensures
        ({
            let fields = told_fields(history, w);
            &&& fields.sender == Some(StationModel { call: Some(w[1]), hash: None })
            &&& fields.recipient == (if is_plain_call(w[0]) {
                Some(StationModel { call: Some(w[0]), hash: None })
            } else {
                None
            })
            &&& fields.cq_modifier is None
            &&& !is_plain_call(w[0]) ==> fields.exchange_type == Some(
                if w[0] == "CQ"@ {
                    ExchangeType::Cq
                } else if w[0] == "DE"@ {
                    ExchangeType::De
                } else {
                    ExchangeType::Qrz
                },
            )
            &&& is_plain_call(w[0]) ==> fields.exchange_type == Some(plain_exchange(w))
        }),
{
    lemma_plain_packs(w);
    lemma_tokens();
    lemma_exchange_words();
    lemma_base_word(w[1]);
    if is_plain_call(w[0]) {
        lemma_base_word(w[0]);
    }
    reveal_strlit("CQ_");
    reveal_strlit("CQ");
    reveal_strlit("DE");
    reveal_strlit("QRZ");
    reveal_strlit("RR73");
    assert("QRZ"@.take(3)[0] == 'Q');
    assert(w.last() == w[w.len() - 1]);
    assert(told_station(history, w[1], false) == Some(
        StationModel { call: Some(w[1]), hash: None },
    ));
    assert(told_direction(w[0]) is None);
    if w.len() == 3 {
        if grid_value(w[2]) is Some {
            lemma_grid_word(w[2]);
        } else if w[2] != "RRR"@ && w[2] != "73"@ {
            let report = choose|report: int| #[trigger] is_report(w[2], report);
            lemma_signed_report(report);
            lemma_plain_exchange(w, report);
        }
    }
}

/// Two plain calls, or one behind DE, QRZ or CQ, with or without a locator, a report or an
/// acknowledgement, encode and are received as the text that they were, whatever was heard
/// before: without hashes, with the locator unless it is RR73, with the report, with both
/// stations, and as the exchange that its words are.
pub proof fn plain_texts_round_trip(history: History, w: Seq<Seq<char>>)
    requires
        is_plain_message(w),
    ensures
        ({
            let text = joined(w);
            &&& payload_of_text(text) matches Ok(bits)
            &&& unpacked(history, bits) matches Ok(message)
            &&& message.text == text
            &&& message.kind == MessageKind::Standard
            &&& message.hashes.len() == 0
            &&& message.grid == (if w.len() == 3 && grid_value(w[2]) is Some && w[2] != "RR73"@ {
                Some(w[2])
            } else {
                None
            })
            &&& message.fields.report_db matches Some(report) ==> w.len() == 3 && is_report(
                w[2],
                report as int,
            )
            &&& forall|report: int|
                w.len() == 3 && #[trigger] is_report(w[2], report) ==> message.fields.report_db
                    == Some(report as i32)
            &&& message.fields.sender == Some(StationModel { call: Some(w[1]), hash: None })
            &&& message.fields.recipient == (if is_plain_call(w[0]) {
                Some(StationModel { call: Some(w[0]), hash: None })
            } else {
                None
            })
            &&& message.fields.cq_modifier is None
            &&& !is_plain_call(w[0]) ==> message.fields.exchange_type == Some(
                if w[0] == "CQ"@ {
                    ExchangeType::Cq
                } else if w[0] == "DE"@ {
                    ExchangeType::De
                } else {
                    ExchangeType::Qrz
                },
            )
            &&& is_plain_call(w[0]) ==> message.fields.exchange_type == Some(plain_exchange(w))
        }),
{
    lemma_plain_words_fit(w);
    lemma_plain_packs(w);
    lemma_plain_text(history, w);
    lemma_plain_fields(history, w);
    lemma_text_of_words(w);
    lemma_not_joined(w);
    lemma_short_words(w);
    standard_messages_round_trip(history, w);
    assert(w.last() == w[w.len() - 1]);
    if w.len() == 3 {
        assert forall|report: int| #[trigger] is_report(w[2], report) implies carried_report(w)
            == Some(report as i32) by {
            lemma_plain_exchange(w, report);
        }
        if carried_report(w) is Some && !(exists|report: int| #[trigger] is_report(w[2], report)) {
            lemma_no_report(w);
        }
    }
}

/// Locators and acknowledgements carry no report.
proof fn lemma_no_report(w: Seq<Seq<char>>)
    requires
        w.len() == 3,
        grid_value(w[2]) is Some || w[2] == "RRR"@ || w[2] == "73"@,
    ensures
        carried_report(w) is None,
{
    lemma_exchange_words();
    reveal_strlit("R+");
    reveal_strlit("R-");
    let last = w[2];
    assert(w.last() == last);
    if grid_value(last) is Some {
        lemma_grid_word(last);
    } else {
        assert(last.take(2)[0] == last[0] && last.take(2)[1] == last[1]);
    }
}

/// The payload of a plain message is of type one.
pub proof fn lemma_plain_type(w: Seq<Seq<char>>, bits: Seq<bool>)
    requires
        is_plain_message(w),
        payload_of_text(joined(w)) == Ok::<Seq<bool>, MessageError>(bits),
    ensures
        bits.len() == 77,
        field_of(bits, 74, 3) == 1,
{
    lemma_plain_words_fit(w);
    lemma_plain_packs(w);
    lemma_text_of_words(w);
    lemma_tokens();
    lemma_not_joined(w);
    lemma_short_words(w);
    lemma_standard_type(w);
}

/// A plain message encodes as a standard one.
pub proof fn lemma_plain_payload(w: Seq<Seq<char>>)
    requires
        is_plain_message(w),
    ensures
        standard_payload(w) matches Ok(Some(bits)) && payload_of_text(joined(w)) == Ok::<
            Seq<bool>,
            MessageError,
        >(bits),
{
    lemma_plain_words_fit(w);
    lemma_plain_packs(w);
    lemma_text_of_words(w);
    lemma_tokens();
    lemma_not_joined(w);
    lemma_short_words(w);
}

/// The calls of a plain message have no suffix.
pub proof fn lemma_plain_suffixes(w: Seq<Seq<char>>)
    requires
        is_plain_message(w),
    ensures
        !has_portable(w[0]) && !has_rover(w[0]) && !has_portable(w[1]) && !has_rover(w[1]),
{
    lemma_plain_packs(w);
}

/// No character of a plain message is a stroke or a semicolon.
pub proof fn lemma_plain_shape(w: Seq<Seq<char>>)
    requires
        is_plain_message(w),
    ensures
        !joined(w).contains('/'),
        !joined(w).contains(';'),
{
    lemma_plain_words_fit(w);
    lemma_tokens();
    lemma_exchange_words();
    lemma_base_word(w[1]);
    lemma_whole_base(w[1]);
    if is_plain_call(w[0]) {
        lemma_base_word(w[0]);
        lemma_whole_base(w[0]);
    }
    reveal_strlit("DE");
    reveal_strlit("QRZ");
    reveal_strlit("CQ");
    reveal_strlit("RRR");
    reveal_strlit("73");
    reveal_strlit("R");
    reveal_strlit("+");
    reveal_strlit("-");
    if w.len() == 3 && grid_value(w[2]) is None && w[2] != "RRR"@ && w[2] != "73"@ {
        let report = choose|report: int| #[trigger] is_report(w[2], report);
        lemma_signed_report(report);
        reveal_with_fuel(digits, 3);
    }
    assert(forall|i: int| 0 <= i < w[0].len() ==> w[0].contains(#[trigger] w[0][i]));
    assert(forall|i: int| 0 <= i < w[1].len() ==> w[1].contains(#[trigger] w[1][i]));
    assert forall|i: int| 0 <= i < w[0].len() implies #[trigger] w[0][i] != '/' && w[0][i] != ';' by {
        if is_plain_call(w[0]) {
            assert(is_call_char(w[0][i]));
        }
    }
    assert forall|i: int| 0 <= i < w[1].len() implies #[trigger] w[1][i] != '/' && w[1][i] != ';' by {
        assert(is_call_char(w[1][i]));
    }
    if w.len() == 3 {
        assert forall|i: int| 0 <= i < w[2].len() implies #[trigger] w[2][i] != '/' && w[2][i]
            != ';' by {}
    }
    lemma_joined_chars(w);
    let text = joined(w);
    assert forall|k: int| 0 <= k < text.len() implies #[trigger] text[k] != '/' && text[k] != ';' by {
        if text[k] != ' ' {
            let (i, j) = choose|i: int, j: int|
                0 <= i < w.len() && 0 <= j < w[i].len() && #[trigger] w[i][j] == text[k];
            assert(i == 0 || i == 1 || i == 2);
        }
    }
}

// ---------------------------------------------------------------------------
// Senders
// ---------------------------------------------------------------------------

/// A message to W9XYZ from a hashed call.
pub open spec fn from_hashed(call: Seq<char>) -> Seq<char> {
    "W9XYZ <"@ + call + "> -11"@
}

/// A standard call, with or without a suffix, is a valid call of at most 8 characters in
/// normal form.
proof fn lemma_standard_call(base: Seq<char>, call: Seq<char>)
    requires
        is_standard_call(base),
        all_call_chars(base),
        !base.contains('/'),
        base.len() <= 6,
        call == base || call == base + "/R"@ || call == base + "/P"@,
    ensures
        is_valid_call(call),
        call.len() <= 8,
        normal_call(call) == Some(call),
{
    reveal_strlit("/R");
    reveal_strlit("/P");
    let n = base.len() as int;
    assert forall|i: int| 0 <= i < call.len() implies is_call_char(#[trigger] call[i]) by {
        if i < n {
            assert(call[i] == base[i]);
            assert(is_call_char(base[i]));
        }
    }
    let area = last_digit(base, base.len());
    lemma_last_digit_place(base, base.len());
    let k = choose|k: int| 0 <= k < area && is_upper(#[trigger] base[k]);
    assert(is_upper(call[k]));
    assert(is_digit(call[area]));
    assert(base[0] == call[0]);
    assert(base.contains(base[0]) && base.contains(base[n - 1]));
    assert forall|i: int, j: int| 0 <= i < j < call.len() implies !(call[i] == '/' && call[j]
        == '/') by {
        if i < n {
            assert(call[i] == base[i] && base.contains(base[i]));
        }
    }
    lemma_normal_word(call);
}

proof fn lemma_last_digit_place(s: Seq<char>, n: nat)
    requires
        n <= s.len(),
    ensures
        last_digit(s, n) < n,
        last_digit(s, n) >= 0 ==> is_digit(s[last_digit(s, n)]),
    decreases n,
{
    if n > 0 {
        lemma_last_digit_place(s, (n - 1) as nat);
    }
}

spec fn is_packed_char(c: char) -> bool {
    c == ' ' || (is_call_char(c) && c != '/')
}

/// The text of a packed standard call consists of call characters.
proof fn lemma_packed_chars(n: int)
    requires
        0 <= n,
        is_standard_call(trim(call_digits(n))),
    ensures
        ({
            let call = trim(call_digits(n));
            all_call_chars(call) && !call.contains('/') && call.len() <= 6
        }),
{
    let all = call_digits(n);
    let call = trim(all);
    lemma_trim_parts(all);
    lemma_trim_start_length(all);
    lemma_trim_end(trim_start(all));
    assert(forall|i: int| 0 <= i < 37 ==> is_packed_char(#[trigger] CALL_ALPHABET@[i]));
    assert(forall|i: int| 0 <= i < 36 ==> is_packed_char(#[trigger] ALPHANUMERIC@[i]));
    assert(forall|i: int| 0 <= i < 27 ==> is_packed_char(#[trigger] LETTERS@[i]));
    assert(forall|i: int| 0 <= i < 6 ==> is_packed_char(#[trigger] all[i]));
    assert forall|i: int| 0 <= i < call.len() implies is_call_char(#[trigger] call[i]) && call[i]
        != '/' by {
        assert(all.contains(call[i]));
        let k = choose|k: int| 0 <= k < all.len() && all[k] == call[i];
        assert(is_packed_char(all[k]));
        assert(call.contains(call[i]));
        assert(all[k] != ' ');
    }
}

/// The sender that a received standard message names is a valid call, and the message
/// taught it.
proof fn lemma_named_sender(history: History, bits: Seq<bool>, call: Seq<char>)
    requires
        consistent(history),
        bits.len() == 77,
        unpacked(history, bits) matches Ok(message) && message.kind == MessageKind::Standard
            && message.fields.sender == Some(StationModel { call: Some(call), hash: None }),
    ensures
        is_valid_call(call),
        call.len() <= 8,
        normal_call(call) == Some(call),
        taught(history, bits) == remembered(history, call),
{
    reveal(parsed_by_type);
    let first = field_of(bits, 0, 28) as int;
    let second = field_of(bits, 29, 28) as int;
    let a = call28(history, first)->Ok_0;
    let b = call28(history, second)->Ok_0;
    let primary = field_of(bits, 74, 3);
    let sender = suffixed(b.text, bits[57], primary);
    let result = parsed(history, bits)->Ok_0;
    assert(parsed_by_type(history, bits) == standard_from(a, b, bits));
    assert(second >= TOKEN_COUNT);
    assert(station(sender, b.hash) == Some(
        StationModel { call: Some(call), hash: None },
    ));
    assert(sender == call && sender[0] != '<');
    reveal_strlit("/R");
    reveal_strlit("/P");
    reveal_strlit("<");
    reveal_strlit("<...>");
    reveal(call28);
    assert(b.text[0] == sender[0]) by {
        if b.text.len() == 0 {
            assert(sender.len() == 0);
        }
    }
    if second < TOKEN_COUNT + HASH22_COUNT {
        let hash = resolve(history, (second - TOKEN_COUNT) as nat, 22);
        assert(b.text == shown(hash));
        assert(b.text[0] == '<');
    }
    lemma_packed_chars(second - TOKEN_COUNT - HASH22_COUNT);
    lemma_standard_call(b.text, call);
    assert(result.learned == Some(call));
    assert(call != "<...>"@);
}

/// The words of a message to W9XYZ from a hashed call encode as a standard message.
proof fn lemma_hashed_words(call: Seq<char>)
    requires
        is_valid_call(call),
        call.len() <= 8,
    ensures
        ({
            let word = seq!['<'] + call + seq!['>'];
            let w = seq!["W9XYZ"@, word, "-11"@];
            &&& standard_payload(w) matches Ok(Some(_))
            &&& standard_exchange(w) == Ok::<Option<(nat, nat)>, MessageError>(
                Some((0nat, 32424nat)),
            )
            &&& comes_back("W9XYZ"@)
            &&& comes_back(word)
            &&& bracketed(word) == Some(call)
            &&& is_plain_call("W9XYZ"@)
            &&& is_wire_word(word)
            &&& is_wire_word("-11"@)
            &&& "-11"@.len() == 3
            &&& "-11"@ == signed_two(-11)
        }),
{
    reveal_strlit("W9XYZ");
    reveal_strlit("-11");
    reveal_strlit("-");
    reveal_strlit("CQ");
    reveal_strlit("QU1RK");
    reveal_strlit("/P");
    reveal_strlit("/R");
    let own = "W9XYZ"@;
    let word = seq!['<'] + call + seq!['>'];
    let w = seq![own, word, "-11"@];
    assert(word.subrange(1, word.len() - 1) =~= call);
    assert forall|i: int| 0 <= i < word.len() implies '!' <= #[trigger] word[i] <= '~' && !is_lower(
        word[i],
    ) by {
        if 0 < i < word.len() - 1 {
            assert(word[i] == call[i - 1]);
            assert(is_call_char(call[i - 1]));
        }
    }
    lemma_find_char(own, '/');
    assert(own.skip(2) =~= seq!['X', 'Y', 'Z']);
    assert(is_upper(own[0]) && is_digit(own[1]));
    assert(base_of(own) == Some(own));
    lemma_base_word(own);
    bracketed_calls_round_trip(silence(), word);
    assert(!is_call_char(word[0]));
    assert(signed_two(-11) =~= "-11"@) by {
        reveal_with_fuel(digits, 3);
    }
    assert(is_report(w[2], -11));
    lemma_plain_exchange(w, -11);
    assert(own.take(2)[0] == 'W');
    let tail = word.skip(word.len() - 2);
    assert(tail[1] == '>');
    assert(w.last() == "-11"@);
    assert(!not_standard(w));
}

/// The text of a message to W9XYZ from a hashed call: its words, joined, and what is
/// displayed of them.
proof fn lemma_hashed_text(call: Seq<char>)
    ensures
        ({
            let word = seq!['<'] + call + seq!['>'];
            let w = seq!["W9XYZ"@, word, "-11"@];
            &&& joined(w) == from_hashed(call)
            &&& standard_text("W9XYZ"@, word, 32424, false) == from_hashed(call)
            &&& from_hashed(call).len() == call.len() + 12
            &&& "<"@ + call + ">"@ == word
            &&& w[0] != "CQ"@
        }),
{
    let word = seq!['<'] + call + seq!['>'];
    let w = seq!["W9XYZ"@, word, "-11"@];
    let text = from_hashed(call);
    reveal_strlit("W9XYZ <");
    reveal_strlit("> -11");
    reveal_strlit("W9XYZ");
    reveal_strlit("CQ");
    reveal_strlit("-11");
    reveal_strlit("-");
    reveal_strlit("<");
    reveal_strlit(">");
    reveal_strlit(" ");
    reveal_strlit("");
    reveal_with_fuel(joined, 4);
    assert(w.skip(1).skip(1) =~= seq!["-11"@]);
    assert(joined(w) =~= text);
    assert(signed_two(-11) =~= "-11"@) by {
        reveal_with_fuel(digits, 3);
    }
    assert(closing(32424, false) =~= " "@ + "-11"@);
    assert(standard_text("W9XYZ"@, word, 32424, false) =~= text);
    assert("<"@ + call + ">"@ =~= word);
}

/// That text encodes as the words' standard message.
proof fn lemma_hashed_payload(call: Seq<char>)
    requires
        is_valid_call(call),
        call.len() <= 8,
    ensures
        ({
            let word = seq!['<'] + call + seq!['>'];
            let w = seq!["W9XYZ"@, word, "-11"@];
            payload_of_text(from_hashed(call)) == Ok::<Seq<bool>, MessageError>(
                standard_payload(w)->Ok_0->0,
            )
        }),
{
    let word = seq!['<'] + call + seq!['>'];
    let w = seq!["W9XYZ"@, word, "-11"@];
    lemma_hashed_words(call);
    lemma_hashed_text(call);
    lemma_base_word("W9XYZ"@);
    assert forall|i: int| 0 <= i < w.len() implies is_wire_word(#[trigger] w[i]) by {}
    lemma_text_of_words(w);
    lemma_not_joined(w);
    lemma_short_words(w);
}

/// The sender of a received standard message is known from then on: a message from its
/// hash shows its call.
pub proof fn received_senders_are_known(history: History, bits: Seq<bool>, call: Seq<char>)
    requires
        consistent(history),
        bits.len() == 77,
        unpacked(history, bits) matches Ok(message) && message.kind == MessageKind::Standard
            && message.fields.sender == Some(StationModel { call: Some(call), hash: None }),
    ensures
        payload_of_text(from_hashed(call)) matches Ok(later) && unpacked(
            taught(history, bits),
            later,
        ) matches Ok(message) && message.text == from_hashed(call) && message.hashes.len() == 1
            && message.hashes[0].width == 22 && message.hashes[0].resolved == Some(call),
{
    lemma_named_sender(history, bits, call);
    lemma_hashed_words(call);
    let heard = taught(history, bits);
    let word = seq!['<'] + call + seq!['>'];
    let w = seq!["W9XYZ"@, word, "-11"@];
    remembered_calls_resolve(history, call);
    standard_messages_round_trip(heard, w);
    lemma_base_word("W9XYZ"@);
    lemma_hashed_text(call);
    lemma_hashed_payload(call);
    assert(echo(heard, w[0], true) == "W9XYZ"@);
    assert(echo(heard, w[1], false) == word);
}

} // verus!
