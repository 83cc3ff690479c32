//! What received messages tell of the numbers that they carry.
use vstd::prelude::*;
use crate::callsign::{
    all_call_chars, base_digits, excess, hash10, hash12, hash22, normal_call, packed_call,
    without_brackets, ALPHANUMERIC, CALL_ALPHABET, TEXT_ALPHABET,
};
use crate::message::MessageKind;
use crate::message_encode::{alphanumeric_index, base_of, is_base};
use crate::round_trip::{lemma_trim_padding, spaces};
use crate::text::{
    decimal, decimal_value, digit, digits, ends_with, hexadecimal, is_digit, is_upper, letter,
    numerals_are_read_back, trim, uppercase,
};
use crate::wire::{
    call28, compound, field_of, free_text, grid_of, parsed, parsed_by_type, power_of, report_of,
    signed_two, standard, telemetry, trim_zeros, wspr_compound, wspr_plain, History,
};

verus! {

// ---------------------------------------------------------------------------
// Free text and telemetry
// ---------------------------------------------------------------------------

/// The number that places in an alphabet spell, the first most significant.
pub open spec fn spelled(places: Seq<nat>, base: nat) -> nat
    decreases places.len(),
{
    if places.len() == 0 {
        0
    } else {
        spelled(places.drop_last(), base) * base + places.last()
    }
}

proof fn lemma_spelled(places: Seq<nat>, alphabet: Seq<char>)
    requires
        alphabet.len() > 0,
        forall|i: int| 0 <= i < places.len() ==> #[trigger] places[i] < alphabet.len(),
    ensures
        base_digits(spelled(places, alphabet.len()), places.len(), alphabet) == places.map_values(
            |p: nat| alphabet[p as int],
        ),
        excess(spelled(places, alphabet.len()), places.len(), alphabet.len()) == 0,
    decreases places.len(),
{
    if places.len() > 0 {
        let front = places.drop_last();
        lemma_spelled(front, alphabet);
        let n = alphabet.len() as int;
        let v = spelled(front, alphabet.len()) as int;
        let x = places.last() as int;
        assert((v * n + x) / n == v && (v * n + x) % n == x) by (nonlinear_arith)
            requires
                n > 0,
                0 <= x < n,
        ;
        assert(places.map_values(|p: nat| alphabet[p as int]) =~= front.map_values(
            |p: nat| alphabet[p as int],
        ).push(alphabet[x]));
    } else {
        assert(places.map_values(|p: nat| alphabet[p as int]) =~= Seq::empty());
    }
}

/// Thirteen characters of free text, sent as a number of base 42, are received without the
/// spaces at their ends. Nothing but spaces is refused.
pub proof fn free_text_is_received(bits: Seq<bool>, places: Seq<nat>)
    requires
        places.len() == 13,
        forall|i: int| 0 <= i < 13 ==> #[trigger] places[i] < 42,
        field_of(bits, 0, 71) == spelled(places, 42),
    ensures
        ({
            let text = trim(places.map_values(|p: nat| TEXT_ALPHABET@[p as int]));
            &&& text.len() > 0 ==> (free_text(bits) matches Ok(r) && r.message.text == text
                && r.message.kind == MessageKind::FreeText)
            &&& text.len() == 0 ==> free_text(bits) is Err
        }),
{
    lemma_spelled(places, TEXT_ALPHABET@);
}

/// The value of hexadecimal digits in capitals.
pub open spec fn hex_value(s: Seq<char>) -> nat
    decreases s.len(),
{
    if s.len() == 0 {
        0
    } else {
        hex_value(s.drop_last()) * 16 + (if is_digit(s.last()) {
            s.last() as int - 48
        } else {
            s.last() as int - 55
        }) as nat
    }
}

proof fn lemma_hexadecimal(n: nat)
    ensures
        hex_value(hexadecimal(n)) == n,
        hexadecimal(n).len() > 0 ==> hexadecimal(n)[0] != '0',
        n > 0 ==> hexadecimal(n).len() > 0,
        forall|i: int|
            0 <= i < hexadecimal(n).len() ==> is_digit(#[trigger] hexadecimal(n)[i]) || 'A'
                <= hexadecimal(n)[i] <= 'F',
    decreases n,
{
    if n > 0 {
        lemma_hexadecimal(n / 16);
        let s = hexadecimal(n);
        assert(s.drop_last() =~= hexadecimal(n / 16));
        assert(s.last() == crate::text::hex_digit((n % 16) as int));
        if n / 16 > 0 {
            assert(s[0] == hexadecimal(n / 16)[0]);
        }
        assert forall|i: int| 0 <= i < s.len() implies is_digit(#[trigger] s[i]) || 'A' <= s[i]
            <= 'F' by {
            if i < s.len() - 1 {
                assert(s[i] == hexadecimal(n / 16)[i]);
            }
        }
    }
}

/// Telemetry is received as the hexadecimal numeral of its 71 bits, without leading zeros.
pub proof fn telemetry_is_received(bits: Seq<bool>)
    ensures
        telemetry(bits) matches Ok(r) && r.message.kind == MessageKind::Telemetry && hex_value(
            r.message.text,
        ) == field_of(bits, 0, 71) && (r.message.text.len() > 0 ==> r.message.text[0] != '0'),
{
    lemma_hexadecimal(field_of(bits, 0, 71));
}

// ---------------------------------------------------------------------------
// Reports
// ---------------------------------------------------------------------------

/// A sign and two digits at the end of a text, or three digits from 100 on.
pub open spec fn ends_with_report(text: Seq<char>, report: int) -> bool {
    let n = text.len() as int;
    if report >= 100 {
        &&& n >= 4
        &&& decimal_value(text.skip(n - 3)) == report
    } else {
        &&& n >= 4
        &&& text[n - 3] == (if report < 0 {
            '-'
        } else {
            '+'
        })
        &&& is_digit(text[n - 2]) && is_digit(text[n - 1])
        &&& decimal_value(text.skip(n - 2)) == (if report < 0 {
            -report
        } else {
            report
        })
    }
}

proof fn lemma_two(n: nat)
    requires
        n < 100,
    ensures
        digits(n, 2).len() == 2,
        decimal_value(digits(n, 2)) == n,
        is_digit(digits(n, 2)[0]) && is_digit(digits(n, 2)[1]),
{
    reveal_with_fuel(digits, 3);
    reveal_with_fuel(decimal_value, 3);
    let s = digits(n, 2);
    assert(s.drop_last().drop_last() =~= Seq::<char>::empty());
}

proof fn lemma_signed(front: Seq<char>, report: int)
    requires
        -100 < report < 100,
        front.len() > 0,
    ensures
        ends_with_report(front + signed_two(report), report),
{
    reveal_strlit("-");
    reveal_strlit("+");
    let text = front + signed_two(report);
    let n = text.len() as int;
    let size = (if report < 0 {
        -report
    } else {
        report
    }) as nat;
    lemma_two(size);
    assert(text.skip(n - 2) =~= digits(size, 2));
    assert(text[n - 2] == digits(size, 2)[0] && text[n - 1] == digits(size, 2)[1]);
}

/// The report that a standard message's fields tell is the one at the end of its text, for
/// every number that carries one; it lies between -50 and 231 dB.
pub proof fn shown_reports_are_told(history: History, bits: Seq<bool>)
    requires
        bits.len() == 77,
    ensures
        parsed(history, bits) matches Ok(r) ==> (r.message.fields.report_db matches Some(report)
            ==> r.message.kind == MessageKind::Standard && -50 <= report <= 231 && ends_with_report(
            r.message.text,
            report as int,
        )),
{
    reveal(parsed_by_type);
    if let Ok(r) = parsed(history, bits) {
        if let Some(report) = r.message.fields.report_db {
            let exchange = field_of(bits, 59, 15);
            crate::message::lemma_number_bound(bits.subrange(59, 74));
            vstd::arithmetic::power2::lemma2_to64();
            let told = report_of(exchange);
            assert(report == told as i32);
            reveal_strlit(" ");
            reveal_strlit("R");
            reveal_strlit("");
            let a = call28(history, field_of(bits, 0, 28) as int)->Ok_0;
            let b = call28(history, field_of(bits, 29, 28) as int)->Ok_0;
            let primary = field_of(bits, 74, 3);
            let to = crate::wire::suffixed(crate::wire::addressed(a.text), bits[28], primary);
            let from = crate::wire::suffixed(b.text, bits[57], primary);
            let mark = if bits[58] {
                "R"@
            } else {
                ""@
            };
            let front = to + " "@ + from + " "@ + mark;
            assert(r.message.text =~= front + crate::wire::report_text(told));
            if told < 100 {
                lemma_signed(front, told);
            } else {
                numerals_are_read_back(told as nat);
                lemma_hundreds(told as nat);
                let n = r.message.text.len() as int;
                assert(r.message.text.skip(n - 3) =~= decimal(told as nat));
            }
        }
    }
}

proof fn lemma_hundreds(n: nat)
    requires
        100 <= n < 1000,
    ensures
        decimal(n).len() == 3,
{
    reveal_with_fuel(decimal, 4);
}

/// The locator that a message's fields tell is the one at the end of its text, or before the
/// power of a beacon.
pub proof fn shown_locators_are_told(history: History, bits: Seq<bool>)
    ensures
        parsed(history, bits) matches Ok(r) ==> (r.message.grid matches Some(grid) ==> (r.message.kind
            != MessageKind::Wspr ==> ends_with(r.message.text, grid))),
{
    reveal(parsed_by_type);
    if let Ok(r) = parsed(history, bits) {
        if let Some(grid) = r.message.grid {
            if r.message.kind != MessageKind::Wspr {
                let text = r.message.text;
                assert(text.skip(text.len() - grid.len()) =~= grid);
            }
        }
    }
}

// ---------------------------------------------------------------------------
// Beacons
// ---------------------------------------------------------------------------

/// Power levels step by 3, 4 and 3 dB: 0, 3, 7, 10, 13, 17 and so on up to 60 dBm.
pub open spec fn level(n: nat) -> nat {
    n / 3 * 10 + (if n % 3 == 0 {
        0nat
    } else if n % 3 == 1 {
        3nat
    } else {
        7nat
    })
}

/// The text ends with a numeral behind a space.
pub open spec fn ends_with_number(text: Seq<char>, n: nat) -> bool {
    exists|at: int|
        0 < at < text.len() && #[trigger] text[at - 1] == ' ' && decimal_value(text.skip(at)) == n
            && crate::text::all_digits(text.skip(at))
}

proof fn lemma_number_behind(front: Seq<char>, n: nat)
    ensures
        ends_with_number(front + " "@ + decimal(n), n),
{
    reveal_strlit(" ");
    numerals_are_read_back(n);
    let text = front + " "@ + decimal(n);
    let at = front.len() as int + 1;
    assert(text[at - 1] == ' ');
    assert(text.skip(at) =~= decimal(n));
}

/// Beacons show their power level, which is refused above 60 dBm.
pub proof fn beacons_show_their_power(history: History, bits: Seq<bool>)
    ensures
        wspr_plain(history, bits) matches Ok(r) ==> level(field_of(bits, 43, 5)) <= 60
            && ends_with_number(r.message.text, level(field_of(bits, 43, 5))),
        wspr_compound(history, bits) matches Ok(r) ==> level(field_of(bits, 44, 5)) <= 60
            && ends_with_number(r.message.text, level(field_of(bits, 44, 5))),
        level(field_of(bits, 43, 5)) > 60 ==> wspr_plain(history, bits) is Err,
        level(field_of(bits, 44, 5)) > 60 ==> wspr_compound(history, bits) is Err,
{
    let n = field_of(bits, 43, 5);
    assert(power_of(n) == level(n)) by {
        assert(n == n / 3 * 3 + n % 3);
    }
    let k = field_of(bits, 44, 5);
    assert(power_of(k) == level(k)) by {
        assert(k == k / 3 * 3 + k % 3);
    }
    if let Ok(r) = wspr_plain(history, bits) {
        let call = call28(history, field_of(bits, 0, 28) as int)->Ok_0;
        lemma_number_behind(call.text + " "@ + grid_of(field_of(bits, 28, 15) as int), level(n));
    }
    if let Ok(r) = wspr_compound(history, bits) {
        let base = call28(history, field_of(bits, 0, 28) as int)->Ok_0;
        let call = compound(base.text, field_of(bits, 28, 16))->0;
        lemma_number_behind(call, level(k));
    }
}

/// The value of letters and digits in base 36.
pub open spec fn value36(s: Seq<char>) -> nat
    decreases s.len(),
{
    if s.len() == 0 {
        0
    } else {
        value36(s.drop_last()) * 36 + alphanumeric_index(s.last())
    }
}

proof fn lemma_alphanumeric(n: nat)
    requires
        n < 36,
    ensures
        alphanumeric_index(ALPHANUMERIC@[n as int]) == n,
        ALPHANUMERIC@[n as int] == '0' <==> n == 0,
        n < 36 ==> CALL_ALPHABET@[n as int + 1] == ALPHANUMERIC@[n as int],
{
}

proof fn lemma_zeros(s: Seq<char>)
    ensures
        value36(trim_zeros(s)) == value36(s),
        trim_zeros(s).len() <= s.len(),
        trim_zeros(s).len() > 0 ==> trim_zeros(s)[0] != '0',
    decreases s.len(),
{
    if s.len() > 0 && s[0] == '0' {
        lemma_zeros(s.skip(1));
        lemma_leading_zero(s);
    }
}

proof fn lemma_leading_zero(s: Seq<char>)
    requires
        s.len() > 0,
        s[0] == '0',
    ensures
        value36(s.skip(1)) == value36(s),
    decreases s.len(),
{
    if s.len() == 1 {
        assert(s.skip(1) =~= Seq::empty());
        assert(s.drop_last() =~= Seq::empty());
        reveal_with_fuel(value36, 2);
        assert(s.last() == '0');
    } else {
        lemma_leading_zero(s.drop_last());
        assert(s.skip(1).drop_last() =~= s.drop_last().skip(1));
        assert(s.skip(1).last() == s.last());
    }
}

proof fn lemma_spelled36(n: nat, width: nat)
    requires
        width == 1 ==> n < 36,
        width == 2 ==> n < 1296,
        width == 3 ==> n < 46656,
        1 <= width <= 3,
    ensures
        base_digits(n, width, ALPHANUMERIC@).len() == width,
        value36(base_digits(n, width, ALPHANUMERIC@)) == n,
{
    reveal_with_fuel(base_digits, 4);
    reveal_with_fuel(value36, 4);
    let s = base_digits(n, width, ALPHANUMERIC@);
    lemma_alphanumeric(n % 36);
    lemma_alphanumeric(n / 36 % 36);
    lemma_alphanumeric(n / 36 / 36 % 36);
    assert(s.last() == ALPHANUMERIC@[(n % 36) as int]);
    if width == 1 {
        assert(s.drop_last() =~= Seq::<char>::empty());
    } else if width == 2 {
        assert(s.drop_last().last() == ALPHANUMERIC@[(n / 36 % 36) as int]);
        assert(s.drop_last().drop_last() =~= Seq::<char>::empty());
    } else {
        assert(s.drop_last().last() == ALPHANUMERIC@[(n / 36 % 36) as int]);
        assert(s.drop_last().drop_last().last() == ALPHANUMERIC@[(n / 36 / 36 % 36) as int]);
        assert(s.drop_last().drop_last().drop_last() =~= Seq::<char>::empty());
    }
}

/// A compound call is its base call behind a prefix of up to three letters and digits, or
/// before a suffix of one, two or three, which spell the number that was sent.
pub proof fn compound_calls_spell_their_number(base: Seq<char>, p: nat)
    requires
        p < 65536,
    ensures
        match compound(base, p) {
            Some(call) => if p < 46656 {
                exists|prefix: Seq<char>|
                    1 <= prefix.len() <= 3 && value36(prefix) == p && #[trigger] (prefix + seq!['/']
                        + base) == call
            } else {
                exists|suffix: Seq<char>|
                    {
                        &&& #[trigger] (base + seq!['/'] + suffix) == call
                        &&& p < 46692 ==> suffix.len() == 1 && value36(suffix) == p - 46656
                        &&& 46692 <= p < 47952 ==> suffix.len() == 2 && value36(suffix) == p - 46656
                        &&& 47952 <= p ==> suffix.len() == 3 && is_digit(suffix[2]) && value36(
                            suffix.take(2),
                        ) * 10 + (suffix[2] as int - 48) == p - 46656
                    }
            },
            None => p >= 59616,
        },
{
    reveal_strlit("/");
    reveal_strlit("0");
    assert("/"@ =~= seq!['/']);
    if p < 46656 {
        let all = base_digits(p, 3, ALPHANUMERIC@);
        lemma_spelled36(p, 3);
        lemma_zeros(all);
        let prefix = if trim_zeros(all).len() == 0 {
            "0"@
        } else {
            trim_zeros(all)
        };
        if trim_zeros(all).len() == 0 {
            assert("0"@.drop_last() =~= Seq::<char>::empty());
            reveal_with_fuel(value36, 2);
            assert(value36("0"@) == 0);
        }
        assert(prefix + seq!['/'] + base == compound(base, p)->0);
    } else if p < 59616 {
        let s = (p - 46656) as nat;
        let call = compound(base, p)->0;
        if s < 36 {
            lemma_spelled36(s, 1);
            let suffix = base_digits(s, 1, ALPHANUMERIC@);
            assert(base + seq!['/'] + suffix == call);
        } else if s < 1296 {
            lemma_spelled36(s, 2);
            let suffix = base_digits(s, 2, ALPHANUMERIC@);
            assert(base + seq!['/'] + suffix == call);
        } else {
            let suffix = seq![
                CALL_ALPHABET@[(s / 360 + 1) as int],
                CALL_ALPHABET@[(s / 10 % 36 + 1) as int],
                digit((s % 10) as int),
            ];
            lemma_alphanumeric(s / 360);
            lemma_alphanumeric(s / 10 % 36);
            reveal_with_fuel(value36, 3);
            let two = suffix.take(2);
            assert(two.last() == suffix[1]);
            assert(two.drop_last().last() == suffix[0]);
            assert(two.drop_last().drop_last() =~= Seq::<char>::empty());
            assert(value36(two) == s / 360 * 36 + s / 10 % 36);
            assert(s / 10 == s / 360 * 36 + s / 10 % 36);
            assert(base + seq!['/'] + suffix == call);
        }
    }
}

// ---------------------------------------------------------------------------
// Calls
// ---------------------------------------------------------------------------

proof fn lemma_same_pack(a: Seq<char>, b: Seq<char>, n: nat)
    requires
        n <= a.len(),
        n <= b.len(),
        forall|i: int| 0 <= i < n ==> #[trigger] a[i] == b[i],
    ensures
        packed_call(a, n) == packed_call(b, n),
    decreases n,
{
    if n > 0 {
        lemma_same_pack(a, b, (n - 1) as nat);
    }
}

/// Hashes go by the first eleven characters of a call.
pub proof fn hashes_go_by_eleven_characters(a: Seq<char>, b: Seq<char>)
    requires
        a.len() >= 11,
        b.len() >= 11,
        a.take(11) == b.take(11),
    ensures
        hash10(a) == hash10(b),
        hash12(a) == hash12(b),
        hash22(a) == hash22(b),
{
    assert forall|i: int| 0 <= i < 11 implies a[i] == b[i] by {
        assert(a.take(11)[i] == a[i] && b.take(11)[i] == b[i]);
    }
    lemma_same_pack(a, b, 11);
}

/// A call of 3 to 13 letters, digits and strokes is recognized in any case, in brackets, and
/// between spaces; anything else in its place is not.
pub proof fn calls_are_recognized(call: Seq<char>, written: Seq<char>, front: nat, back: nat)
    requires
        uppercase(written) == call,
        written.len() > 0,
        written[0] != '<',
        written[0] != ' ' && written.last() != ' ',
        forall|i: int| 0 <= i < written.len() ==> ' ' <= #[trigger] written[i] <= '~',
    ensures
        ({
            let plain = 3 <= call.len() <= 13 && forall|i: int|
                0 <= i < call.len() ==> is_upper(#[trigger] call[i]) || is_digit(call[i]) || call[i]
                    == '/';
            let expected = if plain {
                Some(call)
            } else {
                None
            };
            &&& normal_call(written) == expected
            &&& normal_call(spaces(front) + written + spaces(back)) == expected
            &&& normal_call(spaces(front) + (seq!['<'] + written + seq!['>']) + spaces(back))
                == expected
        }),
{
    assert(' ' <= written[0] <= '~' && ' ' <= written[written.len() - 1] <= '~');
    lemma_trim_padding(front, written, back);
    let inner = seq!['<'] + written + seq!['>'];
    lemma_trim_padding(front, inner, back);
    assert(inner.subrange(1, inner.len() - 1) =~= written);
    assert(without_brackets(written) == written);
    assert(trim(written) == written) by {
        lemma_trim_padding(0, written, 0);
        assert(spaces(0) + written + spaces(0) =~= written);
    }
    let plain = 3 <= call.len() <= 13 && forall|i: int|
        0 <= i < call.len() ==> is_upper(#[trigger] call[i]) || is_digit(call[i]) || call[i] == '/';
    if 3 <= call.len() <= 13 {
        if plain {
            assert(all_call_chars(call));
        } else {
            let i = choose|i: int|
                0 <= i < call.len() && !(is_upper(#[trigger] call[i]) || is_digit(call[i]) || call[i]
                    == '/');
            assert(!crate::callsign::is_call_char(call[i]));
        }
    }
}

/// One or two letters and digits with a letter among them, a digit, and one to three letters
/// are a call that packs into 28 bits, unless it starts with Q.
pub proof fn ordinary_calls_pack(prefix: Seq<char>, area: char, suffix: Seq<char>)
    requires
        1 <= prefix.len() <= 2,
        forall|i: int| 0 <= i < prefix.len() ==> is_upper(#[trigger] prefix[i]) || is_digit(prefix[i]),
        exists|i: int| 0 <= i < prefix.len() && is_upper(#[trigger] prefix[i]),
        prefix[0] != 'Q',
        is_digit(area),
        1 <= suffix.len() <= 3,
        forall|i: int| 0 <= i < suffix.len() ==> is_upper(#[trigger] suffix[i]),
    ensures
        base_of(prefix + seq![area] + suffix) == Some(prefix + seq![area] + suffix),
{
    let call = prefix + seq![area] + suffix;
    let n = prefix.len() as int;
    let k = choose|i: int| 0 <= i < prefix.len() && is_upper(#[trigger] prefix[i]);
    assert(call[k] == prefix[k]);
    assert(call[n] == area);
    assert forall|i: int| 0 <= i < call.len() implies (is_upper(#[trigger] call[i]) || is_digit(
        call[i],
    )) by {
        if i < n {
            assert(call[i] == prefix[i]);
        } else if i > n {
            assert(call[i] == suffix[i - n - 1]);
        }
    }
    assert(call[n + 1] == suffix[0] && is_upper(suffix[0]));
    assert(call[0] == prefix[0]);
    crate::text::lemma_find_char(call, '/');
    assert(crate::text::find_char(call, '/') == call.len());
    assert(crate::message_encode::is_valid_call(call)) by {
        assert(all_call_chars(call));
        assert(is_upper(call[k]));
        assert(is_digit(call[n]));
    }
    assert(crate::message_encode::area_of(call) == n);
    assert(call.skip(n + 1) =~= suffix);
    assert(is_base(call));
}

} // verus!
