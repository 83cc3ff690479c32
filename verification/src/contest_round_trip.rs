//! What unpacking gives back of DXpedition, Field Day, RTTY, VHF and nonstandard
//! call messages.
use vstd::arithmetic::power2::{lemma2_to64, lemma2_to64_rest};
use vstd::prelude::*;
use crate::callsign::{
    all_call_chars, base_digits, call_index, excess, hash10, hash12, hash22, hashes_nest,
    is_call_char, packed_call, CALL_ALPHABET,
};
use crate::message::{ExchangeType, MessageKind};
use crate::message_encode::{
    base_of, bits_of, bracketed, call_value, closing_value, dxpedition_payload, field_day_payload,
    flag, grid_six_value, grid_value, nonstandard_bits, report_value, rtty_number, rtty_payload,
    unsigned_value, vhf_payload,
};
use crate::message_tables::{
    found_multipliers_match, found_sections_match, multiplier_place, section_place,
};
use crate::round_trip::{
    base_calls_round_trip, grids_round_trip, lemma_alphabets, lemma_base_parts, lemma_bits_length,
    lemma_field, lemma_normal_word, lemma_not_token, lemma_trim_padding, spaces,
};
use crate::text::{all_digits, decimal, decimal_value, digit, digits, is_digit, letter, starts_with};
use crate::wire::{
    acknowledgement, call28, dxpedition, enveloped, field_day, field_of, grid_six_of, no_fields,
    nonstandard, parsed_by_type, remembered, resolve, roger, rtty, rtty_exchange, shown, signed_two,
    station, taught, unpacked, vhf, with_hash, CallModel, FieldsModel, HashModel, History,
    StationModel, TOKEN_COUNT,
};

verus! {

/// How a call of a contest message is displayed after it was received: a base
/// call as itself, any other as what its hash resolves to.
pub open spec fn full_echo(history: History, word: Seq<char>) -> Seq<char> {
    if base_of(word) == Some(word) {
        word
    } else {
        shown(resolve(history, hash22(word), 22))
    }
}

/// The hash that a call of a contest message is received as: none for a base call.
pub open spec fn full_hash(history: History, word: Seq<char>) -> Option<HashModel> {
    if base_of(word) == Some(word) {
        None
    } else {
        Some(resolve(history, hash22(word), 22))
    }
}

/// The hashes that two calls are received as, in order.
pub open spec fn full_hashes(history: History, a: Seq<char>, b: Seq<char>) -> Seq<HashModel> {
    with_hash(
        with_hash(Seq::empty(), CallModel { text: a, hash: full_hash(history, a) }),
        CallModel { text: b, hash: full_hash(history, b) },
    )
}

/// A station that is spelled out.
pub open spec fn spelled_station(call: Seq<char>) -> Option<StationModel> {
    Some(StationModel { call: Some(call), hash: None })
}

/// A station that is given by its hash.
pub open spec fn hashed_station(hash: HashModel) -> Option<StationModel> {
    Some(StationModel { call: hash.resolved, hash: Some(hash) })
}

/// The station that a call of a contest message is received as.
pub open spec fn full_station(history: History, word: Seq<char>) -> Option<StationModel> {
    if base_of(word) == Some(word) {
        spelled_station(word)
    } else {
        hashed_station(resolve(history, hash22(word), 22))
    }
}

/// The fields of an exchange between two stations that carries no report.
pub open spec fn between(
    recipient: Option<StationModel>,
    sender: Option<StationModel>,
    exchange_type: Option<ExchangeType>,
) -> FieldsModel {
    FieldsModel { exchange_type, sender, recipient, cq_modifier: None, report_db: None }
}

/// The exchange that a closing word tells.
pub open spec fn told_closing(w: Seq<Seq<char>>) -> ExchangeType {
    if w.len() == 2 {
        ExchangeType::Calls
    } else if w[2] == "RRR"@ {
        ExchangeType::Rrr
    } else if w[2] == "RR73"@ {
        ExchangeType::Rr73
    } else {
        ExchangeType::Signoff
    }
}

/// A call that a contest message carries and that is accepted back.
pub open spec fn full_call(word: Seq<char>) -> bool {
    base_of(word) is Some && (base_of(word) == Some(word) ==> word[0] != 'Q')
}

spec fn full_field(history: History, word: Seq<char>) -> bool {
    let value = call_value(word)->Ok_0;
    &&& call_value(word) is Ok
    &&& TOKEN_COUNT <= value < 268435456
    &&& call28(history, value as int) matches Ok(field) && field.text == full_echo(history, word)
        && field.hash == full_hash(history, word)
    &&& station(full_echo(history, word), full_hash(history, word)) == full_station(history, word)
    &&& full_echo(history, word).len() >= 2
    &&& full_echo(history, word)[0] == '<' || (full_echo(history, word).len() >= 3
        && is_call_char(full_echo(history, word)[2]))
}

proof fn lemma_full_field(history: History, word: Seq<char>)
    requires
        full_call(word),
    ensures
        full_field(history, word),
{
    reveal_strlit("<");
    reveal_strlit(">");
    lemma_not_token(word);
    reveal_strlit("DE");
    reveal_strlit("QRZ");
    reveal_strlit("CQ");
    reveal_strlit("CQ ");
    reveal_strlit("CQ_");
    let text = full_echo(history, word);
    if starts_with(text, "CQ "@) || starts_with(text, "CQ_"@) {
        assert(text[0] == text.take(3)[0] && text[2] == text.take(3)[2]);
    }
    if base_of(word) == Some(word) {
        base_calls_round_trip(history, word);
        lemma_base_parts(word);
        assert(is_call_char(word[2]));
        let k = choose|k: int| 0 <= k < word.len() && is_digit(#[trigger] word[k]);
        assert(is_digit(word[k]));
        reveal(call_value);
    } else {
        hashes_nest(word);
        reveal(call_value);
        reveal(call28);
        assert(is_call_char(word[0]));
    }
}

/// Text whose first word is such a call is no CQ.
proof fn lemma_no_cq(history: History, word: Seq<char>, rest: Seq<char>)
    requires
        full_field(history, word),
    ensures
        !starts_with(full_echo(history, word) + rest, "CQ <"@),
{
    reveal_strlit("CQ <");
    let text = full_echo(history, word) + rest;
    if starts_with(text, "CQ <"@) {
        assert(text[0] == text.take(4)[0] && text[2] == text.take(4)[2]);
        assert(text[0] == full_echo(history, word)[0]);
    }
}

/// A report rounded down to an even number of decibels.
pub open spec fn quantized(report: int) -> int {
    (report + 30) / 2 * 2 - 30
}

/// A DXpedition message is received with its report rounded down to 2 dB steps.
pub proof fn dxpedition_messages_round_trip(history: History, w: Seq<Seq<char>>)
    requires
        w.len() == 5,
        dxpedition_payload(w) is Ok,
        full_call(w[0]),
        full_call(w[2]),
    ensures
        unpacked(history, dxpedition_payload(w)->Ok_0) matches Ok(message) && message.kind
            == MessageKind::Dxpedition && message.text == enveloped(
            full_echo(history, w[0]) + " RR73; "@ + full_echo(history, w[2]) + " "@ + shown(
                resolve(history, hash10(bracketed(w[3])->0), 10),
            ) + " "@ + signed_two(quantized(report_value(w[4])->0)),
        ) && message.grid is None && message.fields == no_fields() && message.hashes
            == full_hashes(history, w[0], w[2]).push(
            resolve(history, hash10(bracketed(w[3])->0), 10),
        ),
{
    lemma2_to64();
    lemma_full_field(history, w[0]);
    lemma_full_field(history, w[2]);
    let bits = dxpedition_payload(w)->Ok_0;
    let a = call_value(w[0])->Ok_0;
    let b = call_value(w[2])->Ok_0;
    let c = hash10(bracketed(w[3])->0);
    let report = report_value(w[4])->0;
    let half = ((report + 30) / 2) as nat;
    hashes_nest(bracketed(w[3])->0);
    lemma_bits_length(a, 28);
    lemma_bits_length(b, 28);
    lemma_bits_length(c, 10);
    lemma_bits_length(half, 5);
    lemma_bits_length(1, 3);
    lemma_bits_length(0, 3);
    assert(bits == bits_of(a, 28) + bits_of(b, 28) + bits_of(c, 10) + bits_of(half, 5) + bits_of(
        1,
        3,
    ) + bits_of(0, 3));
    lemma_field(bits, 0, a, 28);
    lemma_field(bits, 28, b, 28);
    lemma_field(bits, 56, c, 10);
    lemma_field(bits, 66, half, 5);
    lemma_field(bits, 71, 1, 3);
    lemma_field(bits, 74, 0, 3);
    let rest = " RR73; "@ + full_echo(history, w[2]) + " "@ + shown(resolve(history, c, 10)) + " "@
        + signed_two(quantized(report));
    let text = full_echo(history, w[0]) + " RR73; "@ + full_echo(history, w[2]) + " "@ + shown(
        resolve(history, c, 10),
    ) + " "@ + signed_two(quantized(report));
    assert(text =~= full_echo(history, w[0]) + rest);
    lemma_no_cq(history, w[0], rest);
    assert(parsed_by_type(history, bits) == dxpedition(history, bits)) by {
        reveal(parsed_by_type);
    }
}

/// A Field Day message is received with its transmitter count, class and
/// section.
pub proof fn field_day_messages_round_trip(history: History, w: Seq<Seq<char>>)
    requires
        field_day_payload(w) matches Ok(Some(_)),
        full_call(w[0]),
        full_call(w[1]),
    ensures
        ({
            let class = w[w.len() - 2];
            unpacked(history, field_day_payload(w)->Ok_0->0) matches Ok(message) && message.kind
                == MessageKind::FieldDay && message.text == enveloped(
                full_echo(history, w[0]) + " "@ + full_echo(history, w[1]) + " "@ + roger(
                    w.len() == 5,
                ) + decimal(unsigned_value(class.drop_last())->0) + seq![class.last()] + " "@
                    + w.last(),
            ) && message.grid is None && message.fields == between(
                full_station(history, w[0]),
                full_station(history, w[1]),
                None,
            ) && message.hashes == full_hashes(history, w[0], w[1])
        }),
{
    lemma2_to64();
    lemma_full_field(history, w[0]);
    lemma_full_field(history, w[1]);
    let bits = field_day_payload(w)->Ok_0->0;
    let a = call_value(w[0])->Ok_0;
    let b = call_value(w[1])->Ok_0;
    let class = w[w.len() - 2];
    let count = unsigned_value(class.drop_last())->0;
    let low = ((count - 1) % 16) as nat;
    let rank = (class.last() as int - 65) as nat;
    found_sections_match(w.last());
    let section = (section_place(w.last()) + 1) as nat;
    let subtype = if count <= 16 {
        3nat
    } else {
        4nat
    };
    let rogered = flag(w.len() == 5);
    lemma_field_day_bits(a, b, rogered, low, rank, section, subtype);
    assert(bits == field_day_bits(a, b, rogered, low, rank, section, subtype));
    assert(low + 1 + (if subtype == 4 { 16nat } else { 0nat }) == count);
    assert(letter(rank as int) == class.last());
    let text = full_echo(history, w[0]) + " "@ + full_echo(history, w[1]) + " "@ + roger(
        w.len() == 5,
    ) + decimal(count) + seq![class.last()] + " "@ + w.last();
    let rest = " "@ + full_echo(history, w[1]) + " "@ + roger(w.len() == 5) + decimal(count)
        + seq![class.last()] + " "@ + w.last();
    assert(text =~= full_echo(history, w[0]) + rest);
    lemma_no_cq(history, w[0], rest);
    lemma_field_day_text(history, bits, w[0], w[1]);
}

spec fn field_day_bits(
    a: nat,
    b: nat,
    rogered: nat,
    low: nat,
    rank: nat,
    section: nat,
    subtype: nat,
) -> Seq<bool> {
    bits_of(a, 28) + bits_of(b, 28) + bits_of(rogered, 1) + bits_of(low, 4) + bits_of(rank, 3)
        + bits_of(section, 7) + bits_of(subtype, 3) + bits_of(0, 3)
}

proof fn lemma_field_day_bits(
    a: nat,
    b: nat,
    rogered: nat,
    low: nat,
    rank: nat,
    section: nat,
    subtype: nat,
)
    requires
        a < 268435456,
        b < 268435456,
        rogered < 2,
        low < 16,
        rank < 8,
        section < 128,
        subtype < 8,
    ensures
        ({
            let bits = field_day_bits(a, b, rogered, low, rank, section, subtype);
            &&& bits.len() == 77
            &&& field_of(bits, 0, 28) == a
            &&& field_of(bits, 28, 28) == b
            &&& bits[56] == (rogered == 1)
            &&& field_of(bits, 57, 4) == low
            &&& field_of(bits, 61, 3) == rank
            &&& field_of(bits, 64, 7) == section
            &&& field_of(bits, 71, 3) == subtype
            &&& field_of(bits, 74, 3) == 0
        }),
{
    lemma2_to64();
    let bits = field_day_bits(a, b, rogered, low, rank, section, subtype);
    lemma_bits_length(a, 28);
    lemma_bits_length(b, 28);
    lemma_bits_length(rogered, 1);
    lemma_bits_length(low, 4);
    lemma_bits_length(rank, 3);
    lemma_bits_length(section, 7);
    lemma_bits_length(subtype, 3);
    lemma_bits_length(0, 3);
    assert(bits_of(rogered, 1)[0] == (rogered == 1)) by {
        reveal_with_fuel(bits_of, 2);
    }
    lemma_field(bits, 0, a, 28);
    lemma_field(bits, 28, b, 28);
    assert(bits[56] == bits_of(rogered, 1)[0]);
    lemma_field(bits, 57, low, 4);
    lemma_field(bits, 61, rank, 3);
    lemma_field(bits, 64, section, 7);
    lemma_field(bits, 71, subtype, 3);
    lemma_field(bits, 74, 0, 3);
}

spec fn field_day_text(bits: Seq<bool>, a: Seq<char>, b: Seq<char>) -> Seq<char> {
    let count = field_of(bits, 57, 4) + 1 + (if field_of(bits, 71, 3) == 4 {
        16nat
    } else {
        0nat
    });
    a + " "@ + b + " "@ + roger(bits[56]) + decimal(count) + seq![
        letter(field_of(bits, 61, 3) as int),
    ] + " "@ + crate::message_tables::section_name(field_of(bits, 64, 7) - 1)
}

proof fn lemma_field_day_text(history: History, bits: Seq<bool>, a: Seq<char>, b: Seq<char>)
    requires
        full_field(history, a),
        full_field(history, b),
        field_of(bits, 0, 28) == call_value(a)->Ok_0,
        field_of(bits, 28, 28) == call_value(b)->Ok_0,
        1 <= field_of(bits, 64, 7) <= 86,
        field_of(bits, 71, 3) == 3 || field_of(bits, 71, 3) == 4,
        field_of(bits, 74, 3) == 0,
        !starts_with(
            field_day_text(bits, full_echo(history, a), full_echo(history, b)),
            "CQ <"@,
        ),
    ensures
        unpacked(history, bits) matches Ok(message) && message.kind == MessageKind::FieldDay
            && message.text == enveloped(
            field_day_text(bits, full_echo(history, a), full_echo(history, b)),
        ) && message.grid is None && message.fields == between(
            full_station(history, a),
            full_station(history, b),
            None,
        ) && message.hashes == full_hashes(history, a, b),
{
    assert(parsed_by_type(history, bits) == field_day(history, bits)) by {
        reveal(parsed_by_type);
    }
}

/// How the exchange of an RTTY message is displayed: a multiplier as itself, a
/// serial number with four digits.
pub open spec fn rtty_echo(word: Seq<char>) -> Seq<char> {
    if multiplier_place(word) < 171 {
        word
    } else {
        digits(rtty_number(word)->0, 4)
    }
}

/// A report that is written digit by digit.
proof fn lemma_report_joined(
    before: Seq<char>,
    report: Seq<char>,
    behind: Seq<char>,
    middle: char,
)
    requires
        report == seq!['5'] + seq![middle] + seq!['9'],
    ensures
        before + "5"@ + seq![middle] + "9 "@ + behind == before + report + " "@ + behind,
{
    reveal_strlit("5");
    reveal_strlit("9 ");
    reveal_strlit(" ");
    assert(before + "5"@ + seq![middle] + "9 "@ + behind =~= before + report + " "@ + behind);
}

/// What stands behind the first call of a message.
proof fn lemma_behind_first(
    front: Seq<char>,
    first: Seq<char>,
    second: Seq<char>,
    r: Seq<char>,
    report: Seq<char>,
    echo: Seq<char>,
)
    ensures
        front + first + " "@ + second + " "@ + r + report + " "@ + echo == front + (first + (" "@
            + second + " "@ + r + report + " "@ + echo)),
{
    assert(front + first + " "@ + second + " "@ + r + report + " "@ + echo =~= front + (first + (
    " "@ + second + " "@ + r + report + " "@ + echo)));
}

/// Thanks in front of a text do not make it a CQ.
proof fn lemma_no_cq_in_front(thanks: bool, front: Seq<char>, text: Seq<char>)
    requires
        front == (if thanks {
            "TU; "@
        } else {
            ""@
        }),
        !starts_with(text, "CQ <"@),
    ensures
        !starts_with(front + text, "CQ <"@),
{
    reveal_strlit("");
    reveal_strlit("TU; ");
    reveal_strlit("CQ <");
    if thanks {
        if starts_with(front + text, "CQ <"@) {
            assert((front + text)[0] == (front + text).take(4)[0]);
        }
    } else {
        assert(front + text =~= text);
    }
}

/// An RTTY message is received with its report and exchange.
#[verifier::rlimit(40)]
pub proof fn rtty_messages_round_trip(history: History, all: Seq<Seq<char>>)
    requires
        all.len() > 0,
        rtty_payload(all) matches Ok(Some(_)),
        ({
            let w = if all[0] == "TU;"@ {
                all.skip(1)
            } else {
                all
            };
            full_call(w[0]) && full_call(w[1])
        }),
    ensures
        ({
            let thanks = all[0] == "TU;"@;
            let w = if thanks {
                all.skip(1)
            } else {
                all
            };
            unpacked(history, rtty_payload(all)->Ok_0->0) matches Ok(message) && message.kind
                == MessageKind::Rtty && message.text == enveloped(
                (if thanks {
                    "TU; "@
                } else {
                    ""@
                }) + full_echo(history, w[0]) + " "@ + full_echo(history, w[1]) + " "@ + roger(
                    w.len() == 5,
                ) + w[w.len() - 2] + " "@ + rtty_echo(w.last()),
            ) && message.grid is None && message.fields == between(
                full_station(history, w[0]),
                full_station(history, w[1]),
                None,
            ) && message.hashes == full_hashes(history, w[0], w[1])
        }),
{
    lemma2_to64();
    let thanks = all[0] == "TU;"@;
    let w = if thanks {
        all.skip(1)
    } else {
        all
    };
    lemma_full_field(history, w[0]);
    lemma_full_field(history, w[1]);
    let bits = rtty_payload(all)->Ok_0->0;
    let a = call_value(w[0])->Ok_0;
    let b = call_value(w[1])->Ok_0;
    let report = w[w.len() - 2];
    let strength = (report[1] as int - 50) as nat;
    found_multipliers_match(w.last());
    let exchange = rtty_number(w.last())->0;
    let tu = flag(thanks);
    let rogered = flag(w.len() == 5);
    lemma_rtty_bits(tu, a, b, rogered, strength, exchange);
    assert(bits == rtty_bits(tu, a, b, rogered, strength, exchange));
    assert(rtty_exchange(exchange) == Some(rtty_echo(w.last())));
    let front = if thanks {
        "TU; "@
    } else {
        ""@
    };
    let first = full_echo(history, w[0]);
    let second = full_echo(history, w[1]);
    let r = roger(w.len() == 5);
    let echo = rtty_echo(w.last());
    let text = front + first + " "@ + second + " "@ + r + report + " "@ + echo;
    let rest = " "@ + second + " "@ + r + report + " "@ + echo;
    assert(report =~= seq!['5'] + seq![digit(strength as int + 2)] + seq!['9']);
    lemma_report_joined(
        front + first + " "@ + second + " "@ + r,
        report,
        echo,
        digit(strength as int + 2),
    );
    lemma_behind_first(front, first, second, r, report, echo);
    lemma_no_cq(history, w[0], rest);
    lemma_no_cq_in_front(thanks, front, first + rest);
    lemma_rtty_text(history, bits, w[0], w[1], rtty_echo(w.last()));
}

spec fn rtty_bits(
    tu: nat,
    a: nat,
    b: nat,
    rogered: nat,
    strength: nat,
    exchange: nat,
) -> Seq<bool> {
    bits_of(tu, 1) + bits_of(a, 28) + bits_of(b, 28) + bits_of(rogered, 1) + bits_of(strength, 3)
        + bits_of(exchange, 13) + bits_of(3, 3)
}

proof fn lemma_rtty_bits(tu: nat, a: nat, b: nat, rogered: nat, strength: nat, exchange: nat)
    requires
        tu < 2,
        a < 268435456,
        b < 268435456,
        rogered < 2,
        strength < 8,
        exchange < 8192,
    ensures
        ({
            let bits = rtty_bits(tu, a, b, rogered, strength, exchange);
            &&& bits.len() == 77
            &&& bits[0] == (tu == 1)
            &&& field_of(bits, 1, 28) == a
            &&& field_of(bits, 29, 28) == b
            &&& bits[57] == (rogered == 1)
            &&& field_of(bits, 58, 3) == strength
            &&& field_of(bits, 61, 13) == exchange
            &&& field_of(bits, 74, 3) == 3
        }),
{
    lemma2_to64();
    let bits = rtty_bits(tu, a, b, rogered, strength, exchange);
    lemma_bits_length(tu, 1);
    lemma_bits_length(a, 28);
    lemma_bits_length(b, 28);
    lemma_bits_length(rogered, 1);
    lemma_bits_length(strength, 3);
    lemma_bits_length(exchange, 13);
    lemma_bits_length(3, 3);
    assert(bits_of(rogered, 1)[0] == (rogered == 1) && bits_of(tu, 1)[0] == (tu == 1)) by {
        reveal_with_fuel(bits_of, 2);
    }
    assert(bits[0] == bits_of(tu, 1)[0]);
    lemma_field(bits, 1, a, 28);
    lemma_field(bits, 29, b, 28);
    assert(bits[57] == bits_of(rogered, 1)[0]);
    lemma_field(bits, 58, strength, 3);
    lemma_field(bits, 61, exchange, 13);
    lemma_field(bits, 74, 3, 3);
}

spec fn rtty_text(bits: Seq<bool>, a: Seq<char>, b: Seq<char>, exchange: Seq<char>) -> Seq<char> {
    (if bits[0] {
        "TU; "@
    } else {
        ""@
    }) + a + " "@ + b + " "@ + roger(bits[57]) + "5"@ + seq![
        digit(field_of(bits, 58, 3) as int + 2),
    ] + "9 "@ + exchange
}

proof fn lemma_rtty_text(
    history: History,
    bits: Seq<bool>,
    a: Seq<char>,
    b: Seq<char>,
    exchange: Seq<char>,
)
    requires
        full_field(history, a),
        full_field(history, b),
        field_of(bits, 1, 28) == call_value(a)->Ok_0,
        field_of(bits, 29, 28) == call_value(b)->Ok_0,
        rtty_exchange(field_of(bits, 61, 13)) == Some(exchange),
        field_of(bits, 74, 3) == 3,
        !starts_with(
            rtty_text(bits, full_echo(history, a), full_echo(history, b), exchange),
            "CQ <"@,
        ),
    ensures
        unpacked(history, bits) matches Ok(message) && message.kind == MessageKind::Rtty
            && message.text == enveloped(
            rtty_text(bits, full_echo(history, a), full_echo(history, b), exchange),
        ) && message.grid is None && message.fields == between(
            full_station(history, a),
            full_station(history, b),
            None,
        ) && message.hashes == full_hashes(history, a, b),
{
    assert(parsed_by_type(history, bits) == rtty(history, bits)) by {
        reveal(parsed_by_type);
    }
}

proof fn lemma_grid_six(s: Seq<char>)
    requires
        grid_six_value(s) is Some,
    ensures
        grid_six_value(s)->0 / 576 < 32400,
        grid_six_of(grid_six_value(s)->0 as int) == s,
{
    let square = s.take(4);
    grids_round_trip(square);
    let g = grid_value(square)->0 as int;
    let x = s[4] as int - 65;
    let y = s[5] as int - 65;
    let n = grid_six_value(s)->0 as int;
    assert(n == g * 576 + x * 24 + y);
    assert(n / 576 == g);
    assert(n / 24 == g * 24 + x);
    assert(n / 24 % 24 == x);
    assert(n % 24 == y);
    assert(grid_six_of(n) =~= s);
}

#[verifier::rlimit(30)]
proof fn lemma_six_digits(s: Seq<char>)
    requires
        s.len() == 6,
        all_digits(s),
    ensures
        digits(decimal_value(s) / 10000, 2) + digits(decimal_value(s) % 10000, 4) == s,
{
    let n = decimal_value(s);
    let a = s.drop_last();
    let b = a.drop_last();
    let c = b.drop_last();
    let d = c.drop_last();
    let e = d.drop_last();
    assert(e.drop_last() =~= Seq::<char>::empty());
    reveal_with_fuel(decimal_value, 7);
    reveal_with_fuel(digits, 5);
    assert(is_digit(s[0]) && is_digit(s[1]) && is_digit(s[2]) && is_digit(s[3]) && is_digit(s[4])
        && is_digit(s[5]));
    assert(s.last() == s[5] && a.last() == s[4] && b.last() == s[3] && c.last() == s[2] && d.last()
        == s[1] && e.last() == s[0]);
    let p = s[0] as int - 48;
    let q = s[1] as int - 48;
    let r = s[2] as int - 48;
    let t = s[3] as int - 48;
    let u = s[4] as int - 48;
    let v = s[5] as int - 48;
    assert(n == p * 100000 + q * 10000 + r * 1000 + t * 100 + u * 10 + v);
    assert(n / 10000 == p * 10 + q);
    assert(n % 10000 == r * 1000 + t * 100 + u * 10 + v);
    let high = n / 10000;
    let low = n % 10000;
    assert(high / 10 == p && high % 10 == q);
    assert(low / 10 == r * 100 + t * 10 + u && low % 10 == v);
    assert(low / 10 / 10 == r * 10 + t && low / 10 % 10 == u);
    assert(low / 10 / 10 / 10 == r && low / 10 / 10 % 10 == t);
    assert(digits(high, 2) =~= seq![s[0], s[1]]);
    assert(digits(low, 4) =~= seq![s[2], s[3], s[4], s[5]]);
    assert(digits(high, 2) + digits(low, 4) =~= s);
}

/// A shown hash is a hashed station.
proof fn lemma_hashed_station(hash: HashModel)
    ensures
        station(shown(hash), Some(hash)) == hashed_station(hash),
        shown(hash).len() > 0,
        shown(hash)[0] == '<',
{
    reveal_strlit("<");
    reveal_strlit("DE");
    reveal_strlit("QRZ");
    reveal_strlit("CQ");
    reveal_strlit("CQ ");
    reveal_strlit("CQ_");
    let text = shown(hash);
    assert(text[0] == '<');
    if starts_with(text, "CQ "@) || starts_with(text, "CQ_"@) {
        assert(text[0] == text.take(3)[0]);
    }
}

/// A VHF message is received with what its two hashes resolve to and its words.
pub proof fn vhf_messages_round_trip(history: History, w: Seq<Seq<char>>)
    requires
        vhf_payload(w) matches Ok(Some(_)),
    ensures
        unpacked(history, vhf_payload(w)->Ok_0->0) matches Ok(message) && message.kind
            == MessageKind::Vhf && message.text == enveloped(
            shown(resolve(history, hash12(bracketed(w[0])->0), 12)) + " "@ + shown(
                resolve(history, hash22(bracketed(w[1])->0), 22),
            ) + " "@ + roger(w.len() == 5) + w[w.len() - 2] + " "@ + w.last(),
        ) && message.grid == Some(w.last()) && message.fields == between(
            hashed_station(resolve(history, hash12(bracketed(w[0])->0), 12)),
            hashed_station(resolve(history, hash22(bracketed(w[1])->0), 22)),
            None,
        ) && message.hashes == seq![
            resolve(history, hash12(bracketed(w[0])->0), 12),
            resolve(history, hash22(bracketed(w[1])->0), 22),
        ],
{
    lemma2_to64();
    let bits = vhf_payload(w)->Ok_0->0;
    let a = hash12(bracketed(w[0])->0);
    let b = hash22(bracketed(w[1])->0);
    hashes_nest(bracketed(w[0])->0);
    hashes_nest(bracketed(w[1])->0);
    let n = decimal_value(w[w.len() - 2]);
    lemma_six_digits(w[w.len() - 2]);
    lemma_grid_six(w.last());
    let grid = grid_six_value(w.last())->0;
    let strength = (n / 10000 - 52) as nat;
    let serial = n % 10000;
    let rogered = flag(w.len() == 5);
    lemma_bits_length(a, 12);
    lemma_bits_length(b, 22);
    lemma_bits_length(rogered, 1);
    lemma_bits_length(strength, 3);
    lemma_bits_length(serial, 11);
    lemma_bits_length(grid, 25);
    lemma_bits_length(5, 3);
    reveal_with_fuel(bits_of, 2);
    assert(bits == bits_of(a, 12) + bits_of(b, 22) + bits_of(rogered, 1) + bits_of(strength, 3)
        + bits_of(serial, 11) + bits_of(grid, 25) + bits_of(5, 3));
    lemma_field(bits, 0, a, 12);
    lemma_field(bits, 12, b, 22);
    assert(bits[34] == bits_of(rogered, 1)[0]);
    lemma_field(bits, 35, strength, 3);
    lemma_field(bits, 38, serial, 11);
    lemma_field(bits, 49, grid, 25);
    lemma_field(bits, 74, 5, 3);
    reveal_strlit("CQ <");
    lemma_hashed_station(resolve(history, a, 12));
    lemma_hashed_station(resolve(history, b, 22));
    let first = shown(resolve(history, a, 12));
    let second = shown(resolve(history, b, 22));
    let text = first + " "@ + second + " "@ + roger(w.len() == 5) + w[w.len() - 2] + " "@
        + w.last();
    let made = first + " "@ + second + " "@ + roger(w.len() == 5) + digits(52 + strength, 2)
        + digits(serial, 4) + " "@ + grid_six_of(grid as int);
    assert(made =~= first + " "@ + second + " "@ + roger(w.len() == 5) + (digits(52 + strength, 2)
        + digits(serial, 4)) + " "@ + grid_six_of(grid as int));
    assert(text[0] == first[0] && first[0] == '<');
    if starts_with(text, "CQ <"@) {
        assert(text[0] == text.take(4)[0]);
    }
    assert(parsed_by_type(history, bits) == vhf(history, bits)) by {
        reveal(parsed_by_type);
    }
}

proof fn lemma_low_38(v: int, x: int)
    requires
        0 <= v,
        0 <= x < 38,
    ensures
        (v * 38 + x) / 38 == v,
        (v * 38 + x) % 38 == x,
{
}

proof fn lemma_call_digits(call: Seq<char>, n: nat, width: nat)
    requires
        n <= call.len(),
        n <= width,
        all_call_chars(call),
    ensures
        base_digits(packed_call(call, n), width, CALL_ALPHABET@) == spaces((width - n) as nat)
            + call.take(n as int),
        excess(packed_call(call, n), width, 38) == 0,
    decreases width,
{
    if width > 0 {
        if n == 0 {
            lemma_call_digits(call, 0, (width - 1) as nat);
            lemma_alphabets(' ');
        } else {
            lemma_call_digits(call, (n - 1) as nat, (width - 1) as nat);
            let c = call[n - 1];
            assert(is_call_char(c));
            lemma_alphabets(c);
            let v = packed_call(call, (n - 1) as nat);
            let x = call_index(c);
            lemma_low_38(v as int, x as int);
        }
    }
    assert(base_digits(packed_call(call, n), width, CALL_ALPHABET@) =~= spaces((width - n) as nat)
        + call.take(n as int));
}

proof fn lemma_packed_bound(call: Seq<char>, n: nat)
    requires
        n <= 11,
    ensures
        n == 0 ==> packed_call(call, n) < 1,
        n == 1 ==> packed_call(call, n) < 38,
        n == 2 ==> packed_call(call, n) < 1444,
        n == 3 ==> packed_call(call, n) < 54872,
        n == 4 ==> packed_call(call, n) < 2085136,
        n == 5 ==> packed_call(call, n) < 79235168,
        n == 6 ==> packed_call(call, n) < 3010936384,
        n == 7 ==> packed_call(call, n) < 114415582592,
        n == 8 ==> packed_call(call, n) < 4347792138496,
        n == 9 ==> packed_call(call, n) < 165216101262848,
        n == 10 ==> packed_call(call, n) < 6278211847988224,
        n == 11 ==> packed_call(call, n) < 238572050223552512,
    decreases n,
{
    if n > 0 {
        lemma_packed_bound(call, (n - 1) as nat);
    }
}

/// A nonstandard call message is received with its full call, what its hash
/// resolves to and its closing word; a CQ with its full call alone.
pub proof fn nonstandard_messages_round_trip(
    history: History,
    w: Seq<Seq<char>>,
    hashed: Seq<char>,
    call: Seq<char>,
    flip: bool,
)
    requires
        2 <= w.len() <= 3,
        nonstandard_bits(w, hashed, call, flip) matches Ok(Some(_)),
        w[0] == "CQ"@ ==> !flip,
    ensures
        ({
            let hash = shown(resolve(history, hash12(hashed), 12));
            let a = if flip {
                call
            } else {
                hash
            };
            let b = if flip {
                hash
            } else {
                call
            };
            unpacked(history, nonstandard_bits(w, hashed, call, flip)->Ok_0->0) matches Ok(message)
                && message.kind == MessageKind::Nonstandard && message.text == enveloped(
                if w[0] == "CQ"@ {
                    "CQ "@ + call
                } else {
                    a + " "@ + b + acknowledgement(closing_value(w)).1
                },
            ) && message.grid is None && message.fields == (if w[0] == "CQ"@ {
                between(None, spelled_station(call), Some(ExchangeType::Cq))
            } else if flip {
                between(
                    spelled_station(call),
                    hashed_station(resolve(history, hash12(hashed), 12)),
                    Some(told_closing(w)),
                )
            } else {
                between(
                    hashed_station(resolve(history, hash12(hashed), 12)),
                    spelled_station(call),
                    Some(told_closing(w)),
                )
            }) && message.hashes == (
            if w[0] == "CQ"@ {
                Seq::empty()
            } else {
                seq![resolve(history, hash12(hashed), 12)]
            })
        }),
        taught(history, nonstandard_bits(w, hashed, call, flip)->Ok_0->0) == (if flip {
            history
        } else {
            remembered(history, call)
        }),
{
    lemma2_to64();
    lemma2_to64_rest();
    let bits = nonstandard_bits(w, hashed, call, flip)->Ok_0->0;
    let h = hash12(hashed);
    let n = packed_call(call, call.len());
    let cq = w[0] == "CQ"@;
    hashes_nest(hashed);
    lemma_packed_bound(call, call.len());
    lemma_call_digits(call, call.len(), 11);
    assert(call.take(call.len() as int) =~= call);
    assert(is_call_char(call[0]) && is_call_char(call.last()));
    lemma_trim_padding((11 - call.len()) as nat, call, 0);
    assert(spaces((11 - call.len()) as nat) + call + spaces(0) =~= spaces(
        (11 - call.len()) as nat,
    ) + call);
    lemma_normal_word(call);
    let closing = closing_value(w);
    lemma_bits_length(h, 12);
    lemma_bits_length(n, 58);
    lemma_bits_length(flag(flip), 1);
    lemma_bits_length(closing, 2);
    lemma_bits_length(flag(cq), 1);
    lemma_bits_length(4, 3);
    reveal_with_fuel(bits_of, 2);
    assert(bits == bits_of(h, 12) + bits_of(n, 58) + bits_of(flag(flip), 1) + bits_of(closing, 2)
        + bits_of(flag(cq), 1) + bits_of(4, 3));
    lemma_field(bits, 0, h, 12);
    lemma_field(bits, 12, n, 58);
    assert(bits[70] == bits_of(flag(flip), 1)[0]);
    lemma_field(bits, 71, closing, 2);
    assert(bits[73] == bits_of(flag(cq), 1)[0]);
    lemma_field(bits, 74, 4, 3);
    reveal_strlit("<");
    reveal_strlit("CQ <");
    reveal_strlit("CQ ");
    reveal_strlit("<...>");
    let hash = shown(resolve(history, h, 12));
    assert(hash[0] == '<');
    let text = if cq {
        "CQ "@ + call
    } else if flip {
        call + " "@ + hash + acknowledgement(closing).1
    } else {
        hash + " "@ + call + acknowledgement(closing).1
    };
    assert(is_call_char(call[2]));
    if starts_with(text, "CQ <"@) {
        assert(text[0] == text.take(4)[0] && text[2] == text.take(4)[2] && text[3]
            == text.take(4)[3]);
        if cq {
            assert(text[3] == call[0]);
        } else if flip {
            assert(text[2] == call[2]);
        } else {
            assert(text[0] == hash[0]);
        }
    }
    assert(parsed_by_type(history, bits) == nonstandard(history, bits)) by {
        reveal(parsed_by_type);
    }
    assert(call != "<...>"@);
    reveal_strlit("DE");
    reveal_strlit("QRZ");
    reveal_strlit("CQ");
    reveal_strlit("CQ_");
    let k = choose|k: int| 0 <= k < call.len() && is_digit(#[trigger] call[k]);
    assert(is_digit(call[k]));
    if starts_with(call, "CQ "@) || starts_with(call, "CQ_"@) {
        assert(call[2] == call.take(3)[2]);
    }
    if starts_with(hash, "CQ "@) || starts_with(hash, "CQ_"@) {
        assert(hash[0] == hash.take(3)[0]);
    }
}

} // verus!
