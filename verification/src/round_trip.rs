//! What unpacking gives back of an encoded message.
use vstd::arithmetic::power2::{lemma2_to64, lemma_pow2_unfold, pow2};
use vstd::prelude::*;
use crate::callsign::{
    all_call_chars, base_digits, call_index, hash22, is_call_char, normal_call, without_brackets,
    ALPHANUMERIC, CALL_ALPHABET, LETTERS,
};
use crate::message::{ExchangeType, MessageError, MessageKind};
use crate::message_encode::{
    all_upper, any_digit, any_upper, area_of, base_of, base_value, bits_of, bracketed, call_value,
    carried_call, flag, grid_value, has_portable, has_rover, is_base, is_bracket, is_valid_call,
    lemma_whole_base, letters_value, padded_base, report_value, standard_exchange, standard_payload,
    token_value,
};
use crate::text::{
    all_digits, find_char, is_digit, is_space, is_upper, lemma_find_char, lemma_three_digits,
    starts_with, trim, trim_end, trim_start, upper, uppercase,
};
use crate::wire::{
    addressed, call28, call_digits, closing, cq_refused, enveloped, exchange_kind, field_of,
    grid_of, is_standard_call, last_digit, number, parsed_by_type, resolve, roger, shown,
    standard_text, station, suffixed, unpacked, with_hash, CallModel, FieldsModel, HashModel,
    History, StationModel, TOKEN_COUNT,
};

verus! {

// ---------------------------------------------------------------------------
// Bits
// ---------------------------------------------------------------------------

/// Bits spell the number they were made from.
pub proof fn bits_spell_their_number(value: nat, width: nat)
    requires
        value < pow2(width),
    ensures
        bits_of(value, width).len() == width,
        number(bits_of(value, width)) == value,
    decreases width,
{
    if width == 0 {
        lemma2_to64();
    } else {
        lemma_pow2_unfold(width);
        bits_spell_their_number(value / 2, (width - 1) as nat);
        assert(bits_of(value, width).drop_last() =~= bits_of(value / 2, (width - 1) as nat));
    }
}

/// A field whose bits are those of a number reads as that number.
pub proof fn lemma_field(bits: Seq<bool>, start: int, value: nat, width: nat)
    requires
        0 <= start,
        start + width <= bits.len(),
        value < pow2(width),
        bits.subrange(start, start + width) =~= bits_of(value, width),
    ensures
        field_of(bits, start, width as int) == value,
{
    bits_spell_their_number(value, width);
}

pub proof fn lemma_bits_length(value: nat, width: nat)
    ensures
        bits_of(value, width).len() == width,
    decreases width,
{
    if width > 0 {
        lemma_bits_length(value / 2, (width - 1) as nat);
    }
}

// ---------------------------------------------------------------------------
// Text
// ---------------------------------------------------------------------------

pub open spec fn spaces(n: nat) -> Seq<char> {
    Seq::new(n, |i: int| ' ')
}

proof fn lemma_trim_start_spaces(n: nat, s: Seq<char>)
    requires
        s.len() > 0,
        !is_space(s[0]),
    ensures
        trim_start(spaces(n) + s) == s,
    decreases n,
{
    let all = spaces(n) + s;
    if n == 0 {
        assert(all =~= s);
    } else {
        assert(all.skip(1) =~= spaces((n - 1) as nat) + s);
        lemma_trim_start_spaces((n - 1) as nat, s);
    }
}

proof fn lemma_trim_end_spaces(s: Seq<char>, n: nat)
    requires
        s.len() > 0,
        !is_space(s.last()),
    ensures
        trim_end(s + spaces(n)) == s,
    decreases n,
{
    let all = s + spaces(n);
    if n == 0 {
        assert(all =~= s);
    } else {
        assert(all.drop_last() =~= s + spaces((n - 1) as nat));
        lemma_trim_end_spaces(s, (n - 1) as nat);
    }
}

/// Padding with spaces is undone by trimming.
pub proof fn lemma_trim_padding(front: nat, s: Seq<char>, back: nat)
    requires
        s.len() > 0,
        !is_space(s[0]),
        !is_space(s.last()),
    ensures
        trim(spaces(front) + s + spaces(back)) == s,
{
    let tail = s + spaces(back);
    assert(spaces(front) + s + spaces(back) =~= spaces(front) + tail);
    assert(tail[0] == s[0]);
    lemma_trim_start_spaces(front, tail);
    lemma_trim_end_spaces(s, back);
}

/// A word of call characters is its own normal form.
pub proof fn lemma_normal_word(s: Seq<char>)
    requires
        3 <= s.len() <= 13,
        all_call_chars(s),
    ensures
        normal_call(s) == Some(s),
        trim(s) == s,
{
    assert(is_call_char(s[0]) && is_call_char(s.last()));
    assert(spaces(0) + s + spaces(0) =~= s);
    lemma_trim_padding(0, s, 0);
    assert(without_brackets(s) == s);
    assert forall|i: int| 0 <= i < s.len() implies upper(s[i]) == s[i] by {
        assert(is_call_char(s[i]));
    }
    assert(uppercase(s) =~= s);
}

// ---------------------------------------------------------------------------
// Calls
// ---------------------------------------------------------------------------

pub proof fn lemma_alphabets(c: char)
    ensures
        is_digit(c) ==> CALL_ALPHABET@[call_index(c) as int] == c && ALPHANUMERIC@[c as int - 48]
            == c,
        is_upper(c) ==> CALL_ALPHABET@[call_index(c) as int] == c && ALPHANUMERIC@[c as int - 55]
            == c && LETTERS@[c as int - 64] == c,
        CALL_ALPHABET@[0] == ' ',
        CALL_ALPHABET@[37] == '/',
        LETTERS@[0] == ' ',
{
}

proof fn lemma_last_digit(s: Seq<char>, area: int, n: nat)
    requires
        0 <= area < n <= s.len(),
        is_digit(s[area]),
        forall|i: int| area < i < s.len() ==> is_upper(#[trigger] s[i]),
    ensures
        last_digit(s, n) == area,
    decreases n,
{
    if n - 1 > area {
        assert(is_upper(s[n - 1]));
        lemma_last_digit(s, area, (n - 1) as nat);
    }
}

proof fn lemma_base_is_standard(call: Seq<char>)
    requires
        is_base(call),
        all_call_chars(call),
        call[0] != 'Q',
    ensures
        is_standard_call(call),
{
    let area = area_of(call);
    let tail = call.skip(area + 1);
    assert forall|i: int| area < i < call.len() implies is_upper(#[trigger] call[i]) by {
        assert(tail[i - area - 1] == call[i]);
    }
    lemma_last_digit(call, area, call.len());
    assert(is_upper(call[0]) || is_upper(call[1]));
    assert(!call.contains(' ')) by {
        assert forall|i: int| 0 <= i < call.len() implies call[i] != ' ' by {
            assert(is_call_char(call[i]));
        }
    }
}

proof fn lemma_packed_base(call: Seq<char>)
    requires
        is_base(call),
        all_call_chars(call),
        !call.contains('/'),
    ensures
        call_digits(base_value(call) as int) == padded_base(call),
        base_value(call) < 262177560,
{
    let c = padded_base(call);
    let area = area_of(call);
    let shift = 2 - area;
    assert(c.len() == 6);
    assert(forall|i: int| 0 <= i < call.len() ==> c[i + shift] == call[i]);
    assert(forall|i: int| call.len() + shift <= i < 6 ==> c[i] == ' ');
    assert(is_call_char(call[0]) && call[0] != '/');
    assert(is_call_char(call[1]) && call[1] != '/');
    let tail = call.skip(area + 1);
    assert(forall|i: int| area < i < call.len() ==> call[i] == tail[i - area - 1]);
    assert(c[3] == call[area + 1] && is_upper(c[3]));
    assert(c[4] == ' ' || is_upper(c[4])) by {
        if area + 2 < call.len() {
            assert(is_upper(tail[1]));
        }
    }
    assert(c[5] == ' ' || is_upper(c[5])) by {
        if area + 3 < call.len() {
            assert(is_upper(tail[2]));
        }
    }
    assert(is_digit(c[2]));
    assert(c[0] == ' ' || is_digit(c[0]) || is_upper(c[0]));
    assert(is_digit(c[1]) || is_upper(c[1]));
    lemma_alphabets(c[0]);
    lemma_alphabets(c[1]);
    lemma_alphabets(c[2]);
    lemma_alphabets(c[3]);
    lemma_alphabets(c[4]);
    lemma_alphabets(c[5]);
    lemma_radix(
        call_index(c[0]) as int,
        crate::message_encode::alphanumeric_index(c[1]) as int,
        crate::message_encode::alphanumeric_index(c[2]) as int,
        crate::message_encode::letter_index(c[3]) as int,
        crate::message_encode::letter_index(c[4]) as int,
        crate::message_encode::letter_index(c[5]) as int,
    );
    let found = call_digits(base_value(call) as int);
    assert(found[0] == c[0]);
    assert(found[1] == c[1]);
    assert(found[2] == c[2]);
    assert(found[3] == c[3]);
    assert(found[4] == c[4]);
    assert(found[5] == c[5]);
    assert(found =~= c);
}

proof fn lemma_radix(a: int, b: int, c: int, d: int, e: int, f: int)
    requires
        0 <= a < 37,
        0 <= b < 36,
        0 <= c < 10,
        0 <= d < 27,
        0 <= e < 27,
        0 <= f < 27,
    ensures
        ({
            let n = a * 7085880 + b * 196830 + c * 19683 + d * 729 + e * 27 + f;
            &&& 0 <= n < 262177560
            &&& n / 7085880 % 37 == a
            &&& n / 196830 % 36 == b
            &&& n / 19683 % 10 == c
            &&& n / 729 % 27 == d
            &&& n / 27 % 27 == e
            &&& n % 27 == f
        }),
{
    let n = a * 7085880 + b * 196830 + c * 19683 + d * 729 + e * 27 + f;
    assert(n / 7085880 == a);
    assert(n / 196830 == a * 36 + b);
    assert(n / 19683 == a * 360 + b * 10 + c);
    assert(n / 729 == a * 9720 + b * 270 + c * 27 + d);
    assert(n / 27 == a * 262440 + b * 7290 + c * 729 + d * 27 + e);
}

/// A base call comes back from its 28 bit value. Calls in Q are packed only for
/// one exception and not accepted back.
pub proof fn base_calls_round_trip(history: History, call: Seq<char>)
    requires
        base_of(call) == Some(call),
        call[0] != 'Q',
    ensures
        call_value(call) matches Ok(value) && value < 268435456 && call28(history, value as int)
            == Ok::<CallModel, MessageError>(CallModel { text: call, hash: None }),
{
    reveal(call28);
    reveal(call_value);
    lemma_whole_base(call);
    lemma_not_token(call);
    lemma_packed_base(call);
    lemma_base_is_standard(call);
    let area = area_of(call);
    let front = (2 - area) as nat;
    let back = (6 - call.len() - front) as nat;
    assert(is_call_char(call[0]) && is_call_char(call.last()));
    lemma_trim_padding(front, call, back);
    assert(padded_base(call) =~= spaces(front) + call + spaces(back));
}

/// Valid calls are no tokens.
pub proof fn lemma_not_token(call: Seq<char>)
    requires
        is_valid_call(call),
    ensures
        token_value(call) is None,
{
    reveal_strlit("DE");
    reveal_strlit("QRZ");
    reveal_strlit("CQ");
    reveal_strlit("CQ_");
    let k = choose|k: int| 0 <= k < call.len() && is_digit(#[trigger] call[k]);
    assert(is_digit(call[k]));
    if starts_with(call, "CQ_"@) {
        assert(call[2] == call.take(3)[2]);
        assert(is_call_char(call[2]));
    }
}

/// A bracketed call comes back as what its hash resolves to.
pub proof fn bracketed_calls_round_trip(history: History, word: Seq<char>)
    requires
        bracketed(word) is Some,
    ensures
        call_value(word) matches Ok(value) && value < 268435456 && ({
            let hash = resolve(history, hash22(bracketed(word)->0), 22);
            call28(history, value as int) == Ok::<CallModel, MessageError>(
                CallModel { text: shown(hash), hash: Some(hash) },
            )
        }),
{
    reveal(call28);
    reveal(call_value);
    reveal_strlit("DE");
    reveal_strlit("QRZ");
    reveal_strlit("CQ");
    reveal_strlit("CQ_");
    assert(word[0] == '<');
    if starts_with(word, "CQ_"@) {
        assert(word[0] == word.take(3)[0]);
    }
    crate::callsign::hashes_nest(bracketed(word)->0);
}

proof fn lemma_low_digit(v: int, x: int)
    requires
        0 <= v,
        0 <= x < 27,
    ensures
        (v * 27 + x) / 27 == v,
        (v * 27 + x) % 27 == x,
{
}

proof fn lemma_letter_digits(s: Seq<char>, width: nat)
    requires
        s.len() <= width,
        all_upper(s),
    ensures
        base_digits(letters_value(s), width, LETTERS@) == spaces((width - s.len()) as nat) + s,
    decreases width,
{
    if width > 0 {
        if s.len() == 0 {
            lemma_letter_digits(s, (width - 1) as nat);
            lemma_alphabets(' ');
            let before = base_digits(0, (width - 1) as nat, LETTERS@);
            assert(letters_value(s) == 0);
            assert(0nat / 27 == 0 && 0nat % 27 == 0);
            assert(before == spaces((width - 1) as nat) + s);
            assert(base_digits(0, width, LETTERS@) == before.push(' '));
            assert(before.push(' ') =~= spaces(width) + s);
        } else {
            let front = s.drop_last();
            assert(all_upper(front)) by {
                assert forall|i: int| 0 <= i < front.len() implies is_upper(
                    #[trigger] front[i],
                ) by {
                    assert(is_upper(s[i]));
                }
            }
            assert(is_upper(s.last()));
            lemma_letter_digits(front, (width - 1) as nat);
            lemma_alphabets(s.last());
            let v = letters_value(front);
            let x = s.last() as int - 64;
            lemma_low_digit(v as int, x);
            assert(letters_value(s) == v * 27 + x);
            let pad = spaces((width - s.len()) as nat);
            let before = base_digits(v, (width - 1) as nat, LETTERS@);
            assert(before == pad + front);
            assert(base_digits(letters_value(s), width, LETTERS@) == before.push(s.last()));
            assert(before.push(s.last()) =~= pad + s);
        }
    } else {
        assert(base_digits(letters_value(s), 0, LETTERS@) =~= spaces(0) + s);
    }
}

proof fn lemma_letters(s: Seq<char>)
    requires
        1 <= s.len() <= 4,
        all_upper(s),
    ensures
        letters_value(s) < 531441,
        trim_start(base_digits(letters_value(s), 4, LETTERS@)) == s,
{
    assert(is_upper(s[0]));
    lemma_letter_digits(s, 4);
    lemma_trim_start_spaces((4 - s.len()) as nat, s);
    lemma_letters_bound(s);
}

proof fn lemma_letters_bound(s: Seq<char>)
    requires
        s.len() <= 4,
        all_upper(s),
    ensures
        s.len() == 0 ==> letters_value(s) == 0,
        s.len() == 1 ==> letters_value(s) < 27,
        s.len() == 2 ==> letters_value(s) < 729,
        s.len() == 3 ==> letters_value(s) < 19683,
        s.len() == 4 ==> letters_value(s) < 531441,
    decreases s.len(),
{
    if s.len() > 0 {
        let front = s.drop_last();
        assert forall|i: int| 0 <= i < front.len() implies is_upper(#[trigger] front[i]) by {
            assert(is_upper(s[i]));
        }
        assert(is_upper(s.last()));
        lemma_letters_bound(front);
    }
}

/// A token comes back from its value.
pub proof fn tokens_round_trip(history: History, word: Seq<char>)
    requires
        token_value(word) is Some,
    ensures
        call_value(word) matches Ok(value) && value < TOKEN_COUNT && call28(history, value as int)
            == Ok::<CallModel, MessageError>(CallModel { text: word, hash: None }),
{
    reveal(call28);
    reveal(call_value);
    reveal_strlit("DE");
    reveal_strlit("QRZ");
    reveal_strlit("CQ");
    reveal_strlit("CQ_");
    if word != "DE"@ && word != "QRZ"@ && word != "CQ"@ {
        let s = word.skip(3);
        assert(word =~= "CQ_"@ + s);
        if s.len() == 3 && all_digits(s) {
            lemma_three_digits(s);
        } else {
            lemma_letters(s);
            assert(is_upper(s.last()));
            assert(spaces(0) =~= Seq::<char>::empty());
            lemma_trim_end_spaces(word, 0);
            assert(word + spaces(0) =~= word);
            assert(!word.contains(' ')) by {
                assert forall|i: int| 0 <= i < word.len() implies word[i] != ' ' by {
                    if i >= 3 {
                        assert(word[i] == s[i - 3] && is_upper(s[i - 3]));
                    }
                }
            }
        }
    }
}

// ---------------------------------------------------------------------------
// Locators and reports
// ---------------------------------------------------------------------------

/// A locator comes back from its number.
pub proof fn grids_round_trip(s: Seq<char>)
    requires
        grid_value(s) is Some,
    ensures
        grid_value(s)->0 < 32400,
        grid_of(grid_value(s)->0 as int) == s,
{
    let n = grid_value(s)->0 as int;
    let a = s[0] as int - 65;
    let b = s[1] as int - 65;
    let c = s[2] as int - 48;
    let d = s[3] as int - 48;
    assert(n == a * 1800 + b * 100 + c * 10 + d);
    lemma_grid_radix(a, b, c, d);
    assert(grid_of(n) =~= s);
}

proof fn lemma_grid_radix(a: int, b: int, c: int, d: int)
    requires
        0 <= a < 18,
        0 <= b < 18,
        0 <= c < 10,
        0 <= d < 10,
    ensures
        ({
            let n = a * 1800 + b * 100 + c * 10 + d;
            0 <= n < 32400 && n / 1800 == a && n / 100 % 18 == b && n / 10 % 10 == c && n % 10 == d
        }),
{
    let n = a * 1800 + b * 100 + c * 10 + d;
    assert(n / 1800 == a);
    assert(n / 100 == a * 18 + b);
    assert(n / 10 == a * 180 + b * 10 + c);
}

/// The exchange number of a report reads as that report.
pub proof fn reports_round_trip(report: int)
    requires
        -50 <= report <= 50,
    ensures
        ({
            let exchange = (32435 + report + (if report <= -31 { 101int } else { 0 })) as nat;
            32404 < exchange < 32768 && crate::wire::report_of(exchange) == report
        }),
{
}

// ---------------------------------------------------------------------------
// Standard messages
// ---------------------------------------------------------------------------

/// No base call in Q stands in the word; one exception is packed but not
/// accepted back.
pub open spec fn comes_back(word: Seq<char>) -> bool {
    base_of(word) matches Some(base) ==> base[0] != 'Q'
}

/// How a word of a standard message is displayed after it was received: a token
/// as itself, a bracketed call as what its hash resolves to, and any other call
/// as its base call with the portable or rover suffix it had.
pub open spec fn echo(history: History, word: Seq<char>, address: bool) -> Seq<char> {
    if address && token_value(word) is Some {
        addressed(word)
    } else if is_bracket(word) {
        shown(resolve(history, hash22(bracketed(word)->0), 22))
    } else if has_portable(word) {
        base_of(word)->0 + "/P"@
    } else if has_rover(word) {
        base_of(word)->0 + "/R"@
    } else {
        base_of(word)->0
    }
}

/// The hash that a bracketed call is received as.
pub open spec fn echo_hash(history: History, word: Seq<char>) -> Option<HashModel> {
    if is_bracket(word) {
        Some(resolve(history, hash22(bracketed(word)->0), 22))
    } else {
        None
    }
}

/// The hashes that two words are received as, in order.
pub open spec fn echo_hashes(history: History, a: Seq<char>, b: Seq<char>) -> Seq<HashModel> {
    with_hash(
        with_hash(Seq::empty(), CallModel { text: a, hash: echo_hash(history, a) }),
        CallModel { text: b, hash: echo_hash(history, b) },
    )
}

/// The locator that words carry: their last, where it is one and no RR73.
pub open spec fn carried_grid(w: Seq<Seq<char>>) -> Option<Seq<char>> {
    if w.len() > 2 && grid_value(w.last()) is Some && w.last() != "RR73"@ {
        Some(w.last())
    } else {
        None
    }
}

/// The report that words carry as their last, with or without a roger.
pub open spec fn carried_report(w: Seq<Seq<char>>) -> Option<i32> {
    let last = w.last();
    let rogered = starts_with(last, "R+"@) || starts_with(last, "R-"@);
    if w.len() == 3 && (rogered || (last.len() > 0 && (last[0] == '+' || last[0] == '-'))) {
        Some(
            report_value(
                if rogered {
                    last.skip(1)
                } else {
                    last
                },
            )->0 as i32,
        )
    } else {
        None
    }
}

/// The exchange that words tell: an address token decides, and else what follows the calls.
/// A signed number is a report, and a letter R in front of it or of a locator a roger.
pub open spec fn told_exchange(w: Seq<Seq<char>>) -> Option<ExchangeType> {
    let last = w.last();
    if token_value(w[0]) is Some {
        Some(
            if w[0] == "DE"@ {
                ExchangeType::De
            } else if w[0] == "QRZ"@ {
                ExchangeType::Qrz
            } else {
                ExchangeType::Cq
            },
        )
    } else if w.len() == 2 {
        Some(ExchangeType::Calls)
    } else if last == "RR73"@ {
        if w.len() == 3 {
            Some(ExchangeType::Rr73)
        } else {
            None
        }
    } else if last == "RRR"@ {
        Some(ExchangeType::Rrr)
    } else if last == "73"@ {
        Some(ExchangeType::Signoff)
    } else if last[0] == '+' || last[0] == '-' {
        Some(ExchangeType::Report)
    } else if last[1] == '+' || last[1] == '-' {
        Some(ExchangeType::RogerReport)
    } else if w.len() == 4 {
        Some(ExchangeType::RogerGrid)
    } else {
        Some(ExchangeType::Grid)
    }
}

/// The station that a word of a standard message is received as: none for a token.
pub open spec fn told_station(history: History, word: Seq<char>, address: bool) -> Option<
    StationModel,
> {
    if address && token_value(word) is Some {
        None
    } else if is_bracket(word) {
        let hash = resolve(history, hash22(bracketed(word)->0), 22);
        Some(StationModel { call: hash.resolved, hash: Some(hash) })
    } else {
        Some(StationModel { call: Some(echo(history, word, address)), hash: None })
    }
}

/// The direction of a CQ.
pub open spec fn told_direction(word: Seq<char>) -> Option<Seq<char>> {
    if token_value(word) is Some && starts_with(word, "CQ_"@) {
        Some(word.skip(3))
    } else {
        None
    }
}

/// What a standard message's words tell, field by field.
pub open spec fn told_fields(history: History, w: Seq<Seq<char>>) -> FieldsModel {
    FieldsModel {
        exchange_type: told_exchange(w),
        sender: told_station(history, w[1], false),
        recipient: told_station(history, w[0], true),
        cq_modifier: told_direction(w[0]),
        report_db: carried_report(w),
    }
}

/// A base call is its own base call.
pub proof fn base_calls_are_stable(call: Seq<char>)
    requires
        base_of(call) is Some,
    ensures
        base_of(base_of(call)->0) == base_of(call),
{
    let base = base_of(call)->0;
    let at = find_char(call, '/');
    lemma_find_char(call, '/');
    if at < call.len() {
        assert forall|i: int| at < i < call.len() implies call[i] != '/' by {
            assert(!(call[at] == '/' && call[i] == '/'));
        }
        assert forall|i: int| 0 <= i < base.len() implies base[i] != '/' && is_call_char(
            #[trigger] base[i],
        ) by {
            if base == call.take(at) {
                assert(base[i] == call[i]);
                assert(is_call_char(call[i]));
            } else {
                assert(base[i] == call[i + at + 1]);
                assert(is_call_char(call[i + at + 1]));
            }
        }
    } else {
        assert forall|i: int| 0 <= i < base.len() implies base[i] != '/' && is_call_char(
            #[trigger] base[i],
        ) by {
            assert(is_call_char(call[i]));
        }
    }
    let area = area_of(base);
    assert(is_digit(base[area]));
    assert(is_upper(base[0]) || is_upper(base[1]));
    assert(any_upper(base));
    assert(any_digit(base));
    lemma_find_char(base, '/');
    assert(find_char(base, '/') == base.len());
}

pub proof fn lemma_base_parts(call: Seq<char>)
    requires
        base_of(call) is Some,
    ensures
        3 <= base_of(call)->0.len() <= 6,
        all_call_chars(base_of(call)->0),
        !base_of(call)->0.contains('/'),
{
    base_calls_are_stable(call);
    lemma_whole_base(base_of(call)->0);
}

pub proof fn lemma_token_shape(word: Seq<char>)
    requires
        token_value(word) is Some,
    ensures
        !has_portable(word),
        !has_rover(word),
        word.len() > 0,
        word[0] != '<',
        !addressed(word).contains('<'),
        word.len() == addressed(word).len(),
        starts_with(word, "CQ"@) || word == "DE"@ || word == "QRZ"@,
        word.len() <= 7,
{
    reveal_strlit("DE");
    reveal_strlit("QRZ");
    reveal_strlit("CQ");
    reveal_strlit("CQ_");
    reveal_strlit("/P");
    reveal_strlit("/R");
    if starts_with(word, "CQ_"@) {
        let s = word.skip(3);
        assert(word[0] == word.take(3)[0] && word[1] == word.take(3)[1] && word[2]
            == word.take(3)[2]);
        assert forall|i: int| 3 <= i < word.len() implies #[trigger] word[i] != '/' && word[i]
            != '<' by {
            assert(word[i] == s[i - 3]);
            assert(is_upper(s[i - 3]) || is_digit(s[i - 3]));
        }
        assert(word.take(2) =~= "CQ"@);
    } else if word == "CQ"@ {
        assert(word.take(2) =~= "CQ"@);
    }
    assert forall|i: int| 0 <= i < word.len() implies #[trigger] word[i] != '/' && word[i] != '<' by {}
    if word.len() >= 2 {
        let tail = word.skip(word.len() - 2);
        assert(tail[0] == word[word.len() - 2]);
    }
}

/// A word's value is received as its echo, its suffix bit and the message type
/// given.
spec fn echoes(history: History, word: Seq<char>, address: bool, portable: bool) -> bool {
    let value = call_value(carried_call(word, address)->0)->Ok_0;
    let field = call28(history, value as int);
    let primary = if portable {
        2nat
    } else {
        1nat
    };
    let marked = has_portable(word) || has_rover(word);
    let shown_call = echo(history, word, address);
    &&& value < 268435456
    &&& field is Ok
    &&& field->Ok_0.hash == echo_hash(history, word)
    &&& suffixed(addressed(field->Ok_0.text), marked, primary) == shown_call
    &&& !address ==> suffixed(field->Ok_0.text, marked, primary) == shown_call
    &&& shown_call.len() > 0
    &&& is_bracket(word) <==> shown_call[0] == '<'
}

proof fn lemma_echo_token(history: History, word: Seq<char>, portable: bool)
    requires
        token_value(word) is Some,
    ensures
        echoes(history, word, true, portable),
{
    tokens_round_trip(history, word);
    lemma_token_shape(word);
    assert(addressed(word).contains(addressed(word)[0]));
}

proof fn lemma_echo_bracket(history: History, word: Seq<char>, address: bool, portable: bool)
    requires
        is_bracket(word),
        call_value(word) is Ok,
    ensures
        echoes(history, word, address, portable),
{
    reveal_strlit("CQ_");
    reveal_strlit("<");
    lemma_bracket_word(word);
    bracketed_calls_round_trip(history, word);
    let text = shown(resolve(history, hash22(bracketed(word)->0), 22));
    assert(text[0] == '<');
    if starts_with(text, "CQ_"@) {
        assert(text[0] == text.take(3)[0]);
    }
}

proof fn lemma_echo_base(history: History, word: Seq<char>, address: bool, portable: bool)
    requires
        !(address && token_value(word) is Some),
        !is_bracket(word),
        base_of(word) is Some,
        comes_back(word),
        has_rover(word) ==> !portable,
        has_portable(word) ==> portable,
    ensures
        echoes(history, word, address, portable),
{
    reveal_strlit("CQ_");
    let base = base_of(word)->0;
    base_calls_are_stable(word);
    lemma_base_parts(word);
    base_calls_round_trip(history, base);
    assert(is_call_char(base[0]) && is_call_char(base[2]));
    if starts_with(base, "CQ_"@) {
        assert(base[2] == base.take(3)[2]);
    }
    assert(base[0] != '<');
    assert(addressed(base) == base);
    assert(echo(history, word, address)[0] == base[0]);
}

proof fn lemma_echo(history: History, word: Seq<char>, address: bool, portable: bool)
    requires
        carried_call(word, address) is Some,
        call_value(carried_call(word, address)->0) is Ok,
        comes_back(word),
        has_rover(word) ==> !portable,
        has_portable(word) ==> portable,
    ensures
        echoes(history, word, address, portable),
{
    if address && token_value(word) is Some {
        lemma_echo_token(history, word, portable);
    } else if is_bracket(word) {
        lemma_echo_bracket(history, word, address, portable);
    } else {
        lemma_echo_base(history, word, address, portable);
    }
}

/// A word that starts with a bracket is accepted only as a bracketed call.
proof fn lemma_bracket_word(word: Seq<char>)
    requires
        is_bracket(word),
        call_value(word) is Ok,
    ensures
        bracketed(word) is Some,
        token_value(word) is None,
{
    reveal(call28);
    reveal(call_value);
    reveal_strlit("DE");
    reveal_strlit("QRZ");
    reveal_strlit("CQ");
    reveal_strlit("CQ_");
    if starts_with(word, "CQ_"@) {
        assert(word[0] == word.take(3)[0]);
    }
}

proof fn lemma_exchange_bounds(w: Seq<Seq<char>>)
    requires
        2 <= w.len() <= 4,
    ensures
        standard_exchange(w) matches Ok(Some(pair)) ==> pair.0 <= 1 && pair.1 < 32768 && pair.1
            != 32400,
{
    if grid_value(w.last()) is Some {
        grids_round_trip(w.last());
    }
}

/// The fields of a payload are those of the words.
spec fn carries(w: Seq<Seq<char>>, bits: Seq<bool>) -> bool {
    let (rogered, exchange) = standard_exchange(w)->Ok_0->0;
    &&& bits.len() == 77
    &&& field_of(bits, 0, 28) == call_value(carried_call(w[0], true)->0)->Ok_0
    &&& bits[28] == (has_portable(w[0]) || has_rover(w[0]))
    &&& field_of(bits, 29, 28) == call_value(carried_call(w[1], false)->0)->Ok_0
    &&& bits[57] == (has_portable(w[1]) || has_rover(w[1]))
    &&& bits[58] == (rogered == 1)
    &&& field_of(bits, 59, 15) == exchange
    &&& field_of(bits, 74, 3) == (if has_portable(w[0]) || has_portable(w[1]) {
        2nat
    } else {
        1nat
    })
}

proof fn lemma_standard_fields(w: Seq<Seq<char>>)
    requires
        standard_payload(w) matches Ok(Some(_)),
        comes_back(w[0]),
        comes_back(w[1]),
    ensures
        carries(w, standard_payload(w)->Ok_0->0),
{
    lemma2_to64();
    lemma_exchange_bounds(w);
    let history = crate::wire::silence();
    let (rogered, exchange) = standard_exchange(w)->Ok_0->0;
    let portable = has_portable(w[0]) || has_portable(w[1]);
    lemma_echo(history, w[0], true, portable);
    lemma_echo(history, w[1], false, portable);
    let a = call_value(carried_call(w[0], true)->0)->Ok_0;
    let b = call_value(carried_call(w[1], false)->0)->Ok_0;
    let fa = flag(has_portable(w[0]) || has_rover(w[0]));
    let fb = flag(has_portable(w[1]) || has_rover(w[1]));
    let kind = if portable { 2nat } else { 1nat };
    let bits = standard_payload(w)->Ok_0->0;
    lemma_bits_length(a, 28);
    lemma_bits_length(fa, 1);
    lemma_bits_length(b, 28);
    lemma_bits_length(fb, 1);
    lemma_bits_length(rogered, 1);
    lemma_bits_length(exchange, 15);
    lemma_bits_length(kind, 3);
    reveal_with_fuel(bits_of, 2);
    assert(bits == bits_of(a, 28) + bits_of(fa, 1) + bits_of(b, 28) + bits_of(fb, 1) + bits_of(
        rogered,
        1,
    ) + bits_of(exchange, 15) + bits_of(kind, 3));
    lemma_field(bits, 0, a, 28);
    assert(bits[28] == bits_of(fa, 1)[0]);
    lemma_field(bits, 29, b, 28);
    assert(bits[57] == bits_of(fb, 1)[0]);
    assert(bits[58] == bits_of(rogered, 1)[0]);
    lemma_field(bits, 59, exchange, 15);
    lemma_field(bits, 74, kind, 3);
}

/// The displayed text starts as a CQ only where the first word is one.
proof fn lemma_cq_text(history: History, first: Seq<char>, rest: Seq<char>)
    requires
        carried_call(first, true) is Some,
        call_value(carried_call(first, true)->0) is Ok,
        comes_back(first),
    ensures
        starts_with(echo(history, first, true) + " "@ + rest, "CQ "@) ==> starts_with(
            first,
            "CQ"@,
        ),
        starts_with(echo(history, first, true) + " "@ + rest, "CQ <"@) ==> starts_with(
            first,
            "CQ"@,
        ) && rest.len() > 0 && rest[0] == '<',
{
    reveal_strlit("CQ ");
    reveal_strlit("CQ <");
    reveal_strlit("CQ");
    reveal_strlit("CQ_");
    reveal_strlit("QRZ");
    reveal_strlit("DE");
    reveal_strlit(" ");
    reveal_strlit("<");
    reveal_strlit("/P");
    reveal_strlit("/R");
    let front = echo(history, first, true);
    let text = front + " "@ + rest;
    if starts_with(text, "CQ <"@) {
        assert(text[0] == text.take(4)[0] && text[1] == text.take(4)[1] && text[2]
            == text.take(4)[2] && text[3] == text.take(4)[3]);
        assert(text.take(3) =~= "CQ "@);
    }
    if starts_with(text, "CQ "@) {
        assert(text[0] == text.take(3)[0] && text[1] == text.take(3)[1] && text[2]
            == text.take(3)[2]);
        if token_value(first) is Some {
            lemma_token_shape(first);
            assert(front.len() == first.len());
        } else if is_bracket(first) {
            assert(front[0] == '<');
        } else {
            lemma_base_parts(first);
            let base = base_of(first)->0;
            assert(is_call_char(base[2]));
            assert(front[2] == base[2]);
        }
    }
    if starts_with(text, "CQ <"@) {
        if front.len() == 2 {
            assert(text[3] == rest[0]);
        } else if front.len() == 3 {
            assert(text[3] == ' ');
        } else {
            assert(front[3] == '<');
            assert(front.contains('<'));
        }
    }
}

/// The sender as it is displayed is a call that can be learned, or a hash.
proof fn lemma_sender(history: History, word: Seq<char>)
    requires
        !is_bracket(word),
        base_of(word) is Some,
    ensures
        normal_call(echo(history, word, false)) is Some,
        echo(history, word, false).len() > 0,
        echo(history, word, false)[0] != '<',
{
    lemma_base_parts(word);
    let base = base_of(word)->0;
    let b = echo(history, word, false);
    reveal_strlit("/P");
    reveal_strlit("/R");
    assert forall|i: int| 0 <= i < b.len() implies is_call_char(#[trigger] b[i]) by {
        if i < base.len() {
            assert(is_call_char(base[i]));
            assert(b[i] == base[i]);
        }
    }
    assert(is_call_char(b[0]));
    lemma_normal_word(b);
}

spec fn text_behind(b: Seq<char>, exchange: nat, rogered: bool) -> Seq<char> {
    if exchange < 32400 {
        b + " "@ + roger(rogered) + grid_of(exchange as int)
    } else {
        b + closing(exchange, rogered)
    }
}

proof fn lemma_text_parts(a: Seq<char>, b: Seq<char>, exchange: nat, rogered: bool)
    requires
        b.len() > 0,
    ensures
        standard_text(a, b, exchange, rogered) == a + " "@ + text_behind(b, exchange, rogered),
        text_behind(b, exchange, rogered).len() > 0,
        text_behind(b, exchange, rogered)[0] == b[0],
{
    assert(standard_text(a, b, exchange, rogered) =~= a + " "@ + text_behind(b, exchange, rogered));
}

/// What an encoded standard message guarantees of its words.
spec fn well_formed(w: Seq<Seq<char>>) -> bool {
    let (rogered, exchange) = standard_exchange(w)->Ok_0->0;
    &&& 2 <= w.len() <= 4
    &&& carried_call(w[0], true) is Some
    &&& carried_call(w[1], false) is Some
    &&& call_value(carried_call(w[0], true)->0) is Ok
    &&& call_value(carried_call(w[1], false)->0) is Ok
    &&& standard_exchange(w) matches Ok(Some(_))
    &&& rogered <= 1
    &&& exchange < 32768
    &&& exchange != 32400
    &&& starts_with(w[0], "CQ"@) ==> rogered == 0 && exchange <= 32401 && !is_bracket(w[1])
    &&& !((has_portable(w[0]) || has_portable(w[1])) && (has_rover(w[0]) || has_rover(w[1])))
}

proof fn lemma_well_formed(w: Seq<Seq<char>>)
    requires
        standard_payload(w) matches Ok(Some(_)),
    ensures
        well_formed(w),
{
    lemma_exchange_bounds(w);
}

proof fn lemma_not_refused(history: History, w: Seq<Seq<char>>)
    requires
        well_formed(w),
        comes_back(w[0]),
        comes_back(w[1]),
    ensures
        ({
            let (rogered, exchange) = standard_exchange(w)->Ok_0->0;
            let text = standard_text(
                echo(history, w[0], true),
                echo(history, w[1], false),
                exchange,
                rogered == 1,
            );
            !cq_refused(text, exchange, rogered == 1) && !starts_with(text, "CQ <"@)
        }),
{
    let (rogered, exchange) = standard_exchange(w)->Ok_0->0;
    let a = echo(history, w[0], true);
    let b = echo(history, w[1], false);
    reveal_strlit("<");
    if !is_bracket(w[1]) {
        lemma_sender(history, w[1]);
    }
    lemma_text_parts(a, b, exchange, rogered == 1);
    lemma_cq_text(history, w[0], text_behind(b, exchange, rogered == 1));
}

/// A standard message that encodes is received as its words: calls as the echo
/// of each, then the locator, report or acknowledgement. Its fields tell what its words
/// tell, and its hashes are those of its bracketed calls.
pub proof fn standard_messages_round_trip(history: History, w: Seq<Seq<char>>)
    requires
        standard_payload(w) matches Ok(Some(_)),
        comes_back(w[0]),
        comes_back(w[1]),
    ensures
        ({
            let bits = standard_payload(w)->Ok_0->0;
            let (rogered, exchange) = standard_exchange(w)->Ok_0->0;
            let text = standard_text(
                echo(history, w[0], true),
                echo(history, w[1], false),
                exchange,
                rogered == 1,
            );
            unpacked(history, bits) matches Ok(message) && message.text == enveloped(text)
                && message.kind == MessageKind::Standard && message.grid == carried_grid(w)
                && message.fields == told_fields(history, w) && message.hashes == echo_hashes(
                history,
                w[0],
                w[1],
            )
        }),
{
    lemma_standard_fields(w);
    lemma_well_formed(w);
    let bits = standard_payload(w)->Ok_0->0;
    let (rogered, exchange) = standard_exchange(w)->Ok_0->0;
    lemma_received(history, w, bits);
}

/// Any payload with the fields of the words is received as their text.
proof fn lemma_received(history: History, w: Seq<Seq<char>>, bits: Seq<bool>)
    requires
        well_formed(w),
        comes_back(w[0]),
        comes_back(w[1]),
        carries(w, bits),
    ensures
        ({
            let (rogered, exchange) = standard_exchange(w)->Ok_0->0;
            let text = standard_text(
                echo(history, w[0], true),
                echo(history, w[1], false),
                exchange,
                rogered == 1,
            );
            unpacked(history, bits) matches Ok(message) && message.text == enveloped(text)
                && message.kind == MessageKind::Standard && message.grid == carried_grid(w)
                && message.fields == told_fields(history, w) && message.hashes == echo_hashes(
                history,
                w[0],
                w[1],
            )
        }),
{
    let (rogered, exchange) = standard_exchange(w)->Ok_0->0;
    let portable = has_portable(w[0]) || has_portable(w[1]);
    lemma_echo(history, w[0], true, portable);
    lemma_echo(history, w[1], false, portable);
    lemma_not_refused(history, w);
    if !is_bracket(w[1]) {
        lemma_sender(history, w[1]);
    }
    let text = standard_text(
        echo(history, w[0], true),
        echo(history, w[1], false),
        exchange,
        rogered == 1,
    );
    lemma_accepted_text(history, bits, text);
    lemma_exchange_word(w);
    lemma_told_exchange(w);
    lemma_told_station(history, w[0], true, portable);
    lemma_told_station(history, w[1], false, portable);
    lemma_told_direction(history, w[0]);
}

/// The exchange type goes by the words.
proof fn lemma_told_exchange(w: Seq<Seq<char>>)
    requires
        2 <= w.len() <= 4,
        standard_exchange(w) matches Ok(Some(_)),
        carried_call(w[0], true) is Some,
        call_value(carried_call(w[0], true)->0) is Ok,
    ensures
        ({
            let (rogered, exchange) = standard_exchange(w)->Ok_0->0;
            let address = call_value(carried_call(w[0], true)->0)->Ok_0;
            exchange_kind(address, exchange, rogered == 1) == told_exchange(w)
        }),
{
    lemma_address(w[0]);
    reveal_strlit("DE");
    reveal_strlit("QRZ");
    reveal_strlit("CQ");
    reveal_strlit("CQ_");
    reveal_strlit("R+");
    reveal_strlit("R-");
    reveal_strlit("RRR");
    reveal_strlit("73");
    reveal_strlit("RR73");
    let last = w.last();
    if starts_with(last, "R+"@) || starts_with(last, "R-"@) {
        assert(last[0] == last.take(2)[0] && last[1] == last.take(2)[1]);
    }
    if w.len() > 2 {
        if grid_value(last) is Some {
            grids_round_trip(last);
        } else {
            let (rogered, exchange) = standard_exchange(w)->Ok_0->0;
            if last != "RRR"@ && last != "73"@ {
                let report = report_value(
                    if last[0] == 'R' {
                        last.skip(1)
                    } else {
                        last
                    },
                )->0;
                reports_round_trip(report);
            }
        }
    }
}

/// Only tokens have values below the calls.
proof fn lemma_address(word: Seq<char>)
    requires
        carried_call(word, true) is Some,
        call_value(carried_call(word, true)->0) is Ok,
    ensures
        ({
            let value = call_value(carried_call(word, true)->0)->Ok_0;
            match token_value(word) {
                Some(n) => value == n && n <= 532443,
                None => value >= TOKEN_COUNT,
            }
        }),
{
    reveal(call_value);
    reveal_strlit("DE");
    reveal_strlit("QRZ");
    reveal_strlit("CQ");
    reveal_strlit("CQ_");
    if token_value(word) is Some {
        if word != "DE"@ && word != "QRZ"@ && word != "CQ"@ {
            let s = word.skip(3);
            if s.len() == 3 && all_digits(s) {
                lemma_three_digits(s);
            } else {
                lemma_letters_bound(s);
            }
        }
    } else if !is_bracket(word) {
        base_calls_are_stable(word);
        lemma_not_token(base_of(word)->0);
    }
}

/// The station of a call field goes by its word.
proof fn lemma_told_station(history: History, word: Seq<char>, address: bool, portable: bool)
    requires
        carried_call(word, address) is Some,
        call_value(carried_call(word, address)->0) is Ok,
        comes_back(word),
        has_rover(word) ==> !portable,
        has_portable(word) ==> portable,
    ensures
        ({
            let value = call_value(carried_call(word, address)->0)->Ok_0;
            let hash = call28(history, value as int)->Ok_0.hash;
            told_station(history, word, address) == (if value >= TOKEN_COUNT {
                station(echo(history, word, address), hash)
            } else {
                None
            })
        }),
{
    reveal(call_value);
    lemma_echo(history, word, address, portable);
    reveal_strlit("DE");
    reveal_strlit("QRZ");
    reveal_strlit("CQ");
    reveal_strlit("CQ ");
    reveal_strlit("CQ_");
    reveal_strlit("<");
    reveal_strlit("/P");
    reveal_strlit("/R");
    if address && token_value(word) is Some {
        lemma_address(word);
    } else {
        let shown_call = echo(history, word, address);
        if starts_with(shown_call, "CQ "@) || starts_with(shown_call, "CQ_"@) {
            assert(shown_call[0] == shown_call.take(3)[0] && shown_call[2] == shown_call.take(3)[2]);
        }
        if is_bracket(word) {
            lemma_bracket_word(word);
            assert(shown_call[0] == '<');
        } else {
            base_calls_are_stable(word);
            let base = base_of(word)->0;
            lemma_base_parts(word);
            lemma_not_token(base);
            assert(is_call_char(base[2]));
            assert(shown_call[2] == base[2]);
            assert(any_digit(base));
            let k = choose|k: int| 0 <= k < base.len() && is_digit(#[trigger] base[k]);
            assert(shown_call[k] == base[k]);
        }
    }
}

/// The direction of a CQ goes by its word.
proof fn lemma_told_direction(history: History, word: Seq<char>)
    requires
        carried_call(word, true) is Some,
        call_value(carried_call(word, true)->0) is Ok,
        comes_back(word),
    ensures
        ({
            let value = call_value(carried_call(word, true)->0)->Ok_0;
            let text = call28(history, value as int)->Ok_0.text;
            told_direction(word) == (if starts_with(text, "CQ_"@) {
                Some(text.skip(3))
            } else {
                None
            })
        }),
{
    reveal_strlit("CQ_");
    reveal_strlit("<");
    if token_value(word) is Some {
        tokens_round_trip(history, word);
    } else if is_bracket(word) {
        lemma_bracket_word(word);
        bracketed_calls_round_trip(history, word);
        let text = shown(resolve(history, hash22(bracketed(word)->0), 22));
        assert(text[0] == '<');
        if starts_with(text, "CQ_"@) {
            assert(text[0] == text.take(3)[0]);
        }
    } else {
        base_calls_are_stable(word);
        let base = base_of(word)->0;
        base_calls_round_trip(history, base);
        lemma_base_parts(word);
        assert(is_call_char(base[2]));
        if starts_with(base, "CQ_"@) {
            assert(base[2] == base.take(3)[2]);
        }
    }
}

/// The exchange number of a standard message tells which locator and report its words
/// carry.
proof fn lemma_exchange_word(w: Seq<Seq<char>>)
    requires
        2 <= w.len() <= 4,
        standard_exchange(w) matches Ok(Some(_)),
    ensures
        ({
            let exchange = (standard_exchange(w)->Ok_0->0).1;
            &&& carried_grid(w) == (if exchange < 32400 && grid_of(exchange as int) != "RR73"@ {
                Some(grid_of(exchange as int))
            } else {
                None
            })
            &&& carried_report(w) == (if exchange > 32404 {
                Some(crate::wire::report_of(exchange) as i32)
            } else {
                None
            })
        }),
{
    reveal_strlit("R+");
    reveal_strlit("R-");
    reveal_strlit("RRR");
    reveal_strlit("73");
    let last = w.last();
    if starts_with(last, "R+"@) || starts_with(last, "R-"@) {
        assert(last[0] == last.take(2)[0] && last[1] == last.take(2)[1]);
    }
    if w.len() > 2 {
        if grid_value(last) is Some {
            grids_round_trip(last);
        } else if carried_report(w) is Some {
            let report = report_value(
                if last[0] == 'R' {
                    last.skip(1)
                } else {
                    last
                },
            )->0;
            if -50 <= report <= 50 {
                reports_round_trip(report);
            }
        }
    }
}

/// A standard payload whose calls are accepted is unpacked to its text.
proof fn lemma_accepted_text(history: History, bits: Seq<bool>, text: Seq<char>)
    requires
        ({
            let primary = field_of(bits, 74, 3);
            let exchange = field_of(bits, 59, 15);
            let a = call28(history, field_of(bits, 0, 28) as int);
            let b = call28(history, field_of(bits, 29, 28) as int);
            let sender = suffixed(b->Ok_0.text, bits[57], primary);
            &&& primary == 1 || primary == 2
            &&& a is Ok
            &&& b is Ok
            &&& exchange != 32400
            &&& text == standard_text(
                suffixed(addressed(a->Ok_0.text), bits[28], primary),
                sender,
                exchange,
                bits[58],
            )
            &&& !cq_refused(text, exchange, bits[58])
            &&& !starts_with(text, "CQ <"@)
            &&& (sender.len() > 0 && sender[0] == '<') || normal_call(sender) is Some
        }),
    ensures
        ({
            let exchange = field_of(bits, 59, 15);
            let a = call28(history, field_of(bits, 0, 28) as int)->Ok_0;
            let b = call28(history, field_of(bits, 29, 28) as int)->Ok_0;
            unpacked(history, bits) matches Ok(message) && message.text == enveloped(text)
                && message.kind == MessageKind::Standard && message.grid == (if exchange < 32400
                && grid_of(exchange as int) != "RR73"@ {
                Some(grid_of(exchange as int))
            } else {
                None
            }) && message.fields == (FieldsModel {
                exchange_type: exchange_kind(field_of(bits, 0, 28), exchange, bits[58]),
                recipient: if field_of(bits, 0, 28) >= TOKEN_COUNT {
                    station(
                        suffixed(addressed(a.text), bits[28], field_of(bits, 74, 3)),
                        a.hash,
                    )
                } else {
                    None
                },
                sender: if field_of(bits, 29, 28) >= TOKEN_COUNT {
                    station(suffixed(b.text, bits[57], field_of(bits, 74, 3)), b.hash)
                } else {
                    None
                },
                cq_modifier: if starts_with(a.text, "CQ_"@) {
                    Some(a.text.skip(3))
                } else {
                    None
                },
                report_db: if exchange > 32404 {
                    Some(crate::wire::report_of(exchange) as i32)
                } else {
                    None
                },
            }) && message.hashes == with_hash(with_hash(Seq::empty(), a), b)
        }),
{
    assert(parsed_by_type(history, bits) == crate::wire::standard(history, bits)) by {
        reveal(parsed_by_type);
    }
}

/// The type of a standard payload: two with a portable suffix, else one.
pub proof fn lemma_standard_type(w: Seq<Seq<char>>)
    requires
        standard_payload(w) matches Ok(Some(_)),
        comes_back(w[0]),
        comes_back(w[1]),
    ensures
        ({
            let bits = standard_payload(w)->Ok_0->0;
            &&& bits.len() == 77
            &&& field_of(bits, 74, 3) == (if has_portable(w[0]) || has_portable(w[1]) {
                2nat
            } else {
                1nat
            })
        }),
{
    lemma_standard_fields(w);
}

} // verus!
