//! Bounded 77-bit payload synthesis for receive assistance. Unsupported input is
//! rejected instead of silently falling back to truncated free text, and there
//! are no callsign-history side effects.
use vstd::prelude::*;
use vstd::string::*;
use crate::callsign::{
    all_call_chars, call_hashes, call_index, hash10, hash12, hash22, index_of, only_call_chars,
    packed_call,
};
use crate::message::MessageError;
use crate::message_tables::{find_multiplier, find_section, multiplier_place, section_place};
use crate::text::{
    all_digits, ascii_digit, ascii_upper, decimal_value, digit_value, ends_with, find_char,
    has_char, has_prefix, has_suffix, is_digit, is_upper, lemma_find_char, lemma_three_digits,
    letter_value, position_of, same, split_words, starts_with, starts_with_char, uppercase,
    uppercased, words,
};
use crate::wire::{HASH22_COUNT, TOKEN_COUNT};

verus! {

// ---------------------------------------------------------------------------
// Bits
// ---------------------------------------------------------------------------

/// The `width` lowest bits of `value`, most significant first.
pub open spec fn bits_of(value: nat, width: nat) -> Seq<bool>
    decreases width,
{
    if width == 0 {
        Seq::empty()
    } else {
        bits_of(value / 2, (width - 1) as nat).push(value % 2 == 1)
    }
}

fn push_bits(bits: &mut Vec<bool>, value: u64, width: usize)
    ensures
        final(bits)@ == old(bits)@ + bits_of(value as nat, width as nat),
        final(bits)@.len() == old(bits)@.len() + width,
    decreases width,
{
    if width > 0 {
        push_bits(bits, value / 2, width - 1);
        bits.push(value % 2 == 1);
    }
    assert(bits@ =~= old(bits)@ + bits_of(value as nat, width as nat));
}

pub(crate) fn push_wide_bits(bits: &mut Vec<bool>, value: u128, width: usize)
    ensures
        final(bits)@ == old(bits)@ + bits_of(value as nat, width as nat),
        final(bits)@.len() == old(bits)@.len() + width,
    decreases width,
{
    if width > 0 {
        push_wide_bits(bits, value / 2, width - 1);
        bits.push(value % 2 == 1);
    }
    assert(bits@ =~= old(bits)@ + bits_of(value as nat, width as nat));
}

pub(crate) fn payload_of(bits: &Vec<bool>) -> (r: [bool; 77])
    requires
        bits.len() == 77,
    ensures
        r@ == bits@,
{
    let mut out: [bool; 77] = [false; 77];
    let mut i: usize = 0;
    while i < 77
        invariant
            i <= 77,
            bits.len() == 77,
            out@.len() == 77,
            forall|k: int| 0 <= k < i ==> out@[k] == bits@[k],
        decreases 77 - i,
    {
        out[i] = bits[i];
        i = i + 1;
    }
    assert(out@ =~= bits@);
    out
}

// ---------------------------------------------------------------------------
// Characters and numerals
// ---------------------------------------------------------------------------

/// A printable ASCII character or a space.
pub open spec fn is_plain(c: char) -> bool {
    ' ' <= c <= '~'
}

pub open spec fn all_plain(s: Seq<char>) -> bool {
    forall|i: int| 0 <= i < s.len() ==> is_plain(#[trigger] s[i])
}

pub open spec fn all_upper(s: Seq<char>) -> bool {
    forall|i: int| 0 <= i < s.len() ==> is_upper(#[trigger] s[i])
}

pub open spec fn any_upper(s: Seq<char>) -> bool {
    exists|i: int| 0 <= i < s.len() && is_upper(#[trigger] s[i])
}

pub open spec fn any_digit(s: Seq<char>) -> bool {
    exists|i: int| 0 <= i < s.len() && is_digit(#[trigger] s[i])
}

/// A decimal numeral of at most 64 bits with an optional plus sign.
pub open spec fn unsigned_value(s: Seq<char>) -> Option<nat> {
    let numeral = if s.len() > 0 && s[0] == '+' {
        s.skip(1)
    } else {
        s
    };
    if numeral.len() > 0 && all_digits(numeral) && decimal_value(numeral) <= u64::MAX {
        Some(decimal_value(numeral))
    } else {
        None
    }
}

/// A sign and one or two digits.
pub open spec fn report_value(s: Seq<char>) -> Option<int> {
    if 2 <= s.len() <= 3 && (s[0] == '+' || s[0] == '-') && all_digits(s.skip(1)) {
        Some(
            if s[0] == '-' {
                -(decimal_value(s.skip(1)) as int)
            } else {
                decimal_value(s.skip(1)) as int
            },
        )
    } else {
        None
    }
}

/// A locator of two letters up to R and two digits.
pub open spec fn grid_value(s: Seq<char>) -> Option<nat> {
    if s.len() == 4 && 'A' <= s[0] <= 'R' && 'A' <= s[1] <= 'R' && is_digit(s[2]) && is_digit(
        s[3],
    ) {
        Some(
            ((s[0] as int - 65) * 1800 + (s[1] as int - 65) * 100 + (s[2] as int - 48) * 10 + (
            s[3] as int - 48)) as nat,
        )
    } else {
        None
    }
}

// ---------------------------------------------------------------------------
// Calls
// ---------------------------------------------------------------------------

/// 3 to 11 letters and digits, at least one of each, with at most one stroke
/// that stands at neither end.
pub open spec fn is_valid_call(call: Seq<char>) -> bool {
    &&& 3 <= call.len() <= 11
    &&& all_call_chars(call)
    &&& any_upper(call)
    &&& any_digit(call)
    &&& call[0] != '/'
    &&& call.last() != '/'
    &&& forall|i: int, j: int| 0 <= i < j < call.len() ==> !(call[i] == '/' && call[j] == '/')
}

/// The call between angle brackets.
pub open spec fn bracketed(call: Seq<char>) -> Option<Seq<char>> {
    if call.len() >= 2 && call[0] == '<' && call.last() == '>' && is_valid_call(
        call.subrange(1, call.len() - 1),
    ) {
        Some(call.subrange(1, call.len() - 1))
    } else {
        None
    }
}

/// The longer side of a compound call, the right one of equals.
pub open spec fn longer_side(call: Seq<char>) -> Option<Seq<char>> {
    let at = find_char(call, '/');
    if at >= call.len() {
        Some(call)
    } else {
        let a = call.take(at);
        let b = call.skip(at + 1);
        if a.len() > 6 || b.len() > 6 {
            None
        } else if a.len() > b.len() {
            Some(a)
        } else {
            Some(b)
        }
    }
}

/// Place of the area digit: the third character, else the second.
pub open spec fn area_of(base: Seq<char>) -> int {
    if is_digit(base[2]) {
        2
    } else {
        1
    }
}

/// A call that packs into 28 bits.
pub open spec fn is_base(base: Seq<char>) -> bool {
    &&& 3 <= base.len() <= 6
    &&& base[0] != 'Q' || base == "QU1RK"@
    &&& is_upper(base[0]) || is_upper(base[1])
    &&& is_digit(base[2]) || is_digit(base[1])
    &&& 1 <= base.len() - area_of(base) - 1 <= 3
    &&& all_upper(base.skip(area_of(base) + 1))
}

/// The base call of a valid call.
pub open spec fn base_of(call: Seq<char>) -> Option<Seq<char>> {
    if is_valid_call(call) {
        match longer_side(call) {
            Some(base) => if is_base(base) {
                Some(base)
            } else {
                None
            },
            None => None,
        }
    } else {
        None
    }
}

/// Letters in base 27, A counting one.
pub open spec fn letters_value(s: Seq<char>) -> nat
    decreases s.len(),
{
    if s.len() == 0 {
        0
    } else {
        letters_value(s.drop_last()) * 27 + (s.last() as int - 64) as nat
    }
}

/// The value of an address token.
pub open spec fn token_value(call: Seq<char>) -> Option<nat> {
    if call == "DE"@ {
        Some(0)
    } else if call == "QRZ"@ {
        Some(1)
    } else if call == "CQ"@ {
        Some(2)
    } else if starts_with(call, "CQ_"@) {
        let s = call.skip(3);
        if s.len() == 3 && all_digits(s) {
            Some(3 + decimal_value(s))
        } else if 1 <= s.len() <= 4 && all_upper(s) {
            Some(1003 + letters_value(s))
        } else {
            None
        }
    } else {
        None
    }
}

/// Place of a letter among space and letters.
pub open spec fn letter_index(c: char) -> nat {
    if is_upper(c) {
        (c as int - 64) as nat
    } else {
        0
    }
}

/// Place of a character among digits and letters.
pub open spec fn alphanumeric_index(c: char) -> nat {
    if is_digit(c) {
        (c as int - 48) as nat
    } else {
        (c as int - 55) as nat
    }
}

/// A base call as six characters with its area digit in third place.
pub open spec fn padded_base(base: Seq<char>) -> Seq<char> {
    let front = if area_of(base) == 1 {
        seq![' '] + base
    } else {
        base
    };
    front + Seq::new((6 - front.len()) as nat, |i: int| ' ')
}

/// The number of a base call.
pub open spec fn base_value(base: Seq<char>) -> nat {
    let c = padded_base(base);
    call_index(c[0]) * 7085880 + alphanumeric_index(c[1]) * 196830 + alphanumeric_index(c[2])
        * 19683 + letter_index(c[3]) * 729 + letter_index(c[4]) * 27 + letter_index(c[5])
}

/// The 28 bit value of a token, a bracketed call, a base call or, by its hash,
/// any other valid call.
#[verifier::opaque]
pub open spec fn call_value(call: Seq<char>) -> Result<nat, MessageError> {
    match token_value(call) {
        Some(n) => Ok(n),
        None => if call.len() > 0 && call[0] == '<' {
            match bracketed(call) {
                Some(inner) => Ok(TOKEN_COUNT as nat + hash22(inner)),
                None => Err(MessageError::InvalidCallsign),
            }
        } else if !is_valid_call(call) {
            Err(MessageError::InvalidCallsign)
        } else if base_of(call) != Some(call) {
            Ok(TOKEN_COUNT as nat + hash22(call))
        } else {
            Ok(base_value(call) + TOKEN_COUNT as nat + HASH22_COUNT as nat)
        },
    }
}

// ---------------------------------------------------------------------------
// Payloads
// ---------------------------------------------------------------------------

/// A payload, or no payload where the words are of another kind.
pub type Attempt = Result<Option<Seq<bool>>, MessageError>;

pub open spec fn flag(b: bool) -> nat {
    if b {
        1
    } else {
        0
    }
}

/// The bits of a DXpedition message; odd reports round down.
pub open spec fn dxpedition_payload(w: Seq<Seq<char>>) -> Result<Seq<bool>, MessageError> {
    if base_of(w[0]) is None || base_of(w[2]) is None {
        Err(MessageError::InvalidCallsign)
    } else {
        match report_value(w[4]) {
            None => Err(MessageError::InvalidField),
            Some(report) => if !(-30 <= report <= 32) {
                Err(MessageError::InvalidField)
            } else {
                match (call_value(w[0]), call_value(w[2]), bracketed(w[3])) {
                    (Ok(a), Ok(b), Some(c)) => Ok(
                        bits_of(a, 28) + bits_of(b, 28) + bits_of(hash10(c), 10) + bits_of(
                            ((report + 30) / 2) as nat,
                            5,
                        ) + bits_of(1, 3) + bits_of(0, 3),
                    ),
                    _ => Err(MessageError::InvalidCallsign),
                }
            },
        }
    }
}

/// The call or token that a standard message carries for a word.
pub open spec fn carried_call(word: Seq<char>, address: bool) -> Option<Seq<char>> {
    if (address && token_value(word) is Some) || (word.len() > 0 && word[0] == '<') {
        Some(word)
    } else {
        base_of(word)
    }
}

pub open spec fn is_bracket(word: Seq<char>) -> bool {
    word.len() > 0 && word[0] == '<'
}

/// The roger flag and the exchange number of a standard message's last word.
pub open spec fn standard_exchange(w: Seq<Seq<char>>) -> Result<Option<(nat, nat)>, MessageError> {
    let last = w.last();
    if w.len() == 2 {
        Ok(Some((0, 32401)))
    } else {
        match grid_value(last) {
            Some(grid) => Ok(Some((flag(w.len() == 4), grid))),
            None => if w.len() == 3 && (last == "RRR"@ || last == "73"@) {
                Ok(
                    Some(
                        (
                            0,
                            if last == "RRR"@ {
                                32402
                            } else {
                                32404
                            },
                        ),
                    ),
                )
            } else if w.len() == 3 && ((last.len() > 0 && (last[0] == '+' || last[0] == '-'))
                || starts_with(last, "R+"@) || starts_with(last, "R-"@)) {
                let rogered = last[0] == 'R';
                match report_value(
                    if rogered {
                        last.skip(1)
                    } else {
                        last
                    },
                ) {
                    None => Err(MessageError::InvalidField),
                    Some(report) => if !(-50 <= report <= 50) {
                        Err(MessageError::InvalidField)
                    } else {
                        Ok(
                            Some(
                                (
                                    flag(rogered),
                                    (32435 + report + (if report <= -31 {
                                        101int
                                    } else {
                                        0
                                    })) as nat,
                                ),
                            ),
                        )
                    },
                }
            } else {
                Ok(None)
            },
        }
    }
}

/// The words have another form than a standard message.
pub open spec fn not_standard(w: Seq<Seq<char>>) -> bool {
    ||| !(2 <= w.len() <= 4)
    ||| carried_call(w[0], true) is None
    ||| carried_call(w[1], false) is None
    ||| is_bracket(w[0]) && w[1].contains('/')
    ||| is_bracket(w[1]) && w[0].contains('/')
    ||| w.len() == 2 && w[1].contains('/')
    ||| w.len() == 4 && w[2] != "R"@
}

pub open spec fn has_portable(word: Seq<char>) -> bool {
    ends_with(word, "/P"@)
}

pub open spec fn has_rover(word: Seq<char>) -> bool {
    ends_with(word, "/R"@)
}

pub open spec fn standard_payload(w: Seq<Seq<char>>) -> Attempt {
    if not_standard(w) {
        Ok(None)
    } else {
        match standard_exchange(w) {
            Err(error) => Err(error),
            Ok(None) => Ok(None),
            Ok(Some((rogered, exchange))) => {
                let portable = has_portable(w[0]) || has_portable(w[1]);
                let rover = has_rover(w[0]) || has_rover(w[1]);
                if starts_with(w[0], "CQ"@) && (rogered != 0 || exchange > 32401 || w.last()
                    == "RR73"@ || is_bracket(w[1])) {
                    Err(MessageError::InvalidField)
                } else if portable && rover {
                    Err(MessageError::InvalidField)
                } else {
                    match (
                        call_value(carried_call(w[0], true)->0),
                        call_value(carried_call(w[1], false)->0),
                    ) {
                        (Ok(a), Ok(b)) => Ok(
                            Some(
                                bits_of(a, 28) + bits_of(
                                    flag(has_portable(w[0]) || has_rover(w[0])),
                                    1,
                                ) + bits_of(b, 28) + bits_of(
                                    flag(has_portable(w[1]) || has_rover(w[1])),
                                    1,
                                ) + bits_of(rogered, 1) + bits_of(exchange, 15) + bits_of(
                                    if portable {
                                        2
                                    } else {
                                        1
                                    },
                                    3,
                                ),
                            ),
                        ),
                        _ => Err(MessageError::InvalidCallsign),
                    }
                }
            },
        }
    }
}

pub open spec fn field_day_payload(w: Seq<Seq<char>>) -> Attempt {
    if !(4 <= w.len() <= 5) || base_of(w[0]) is None || base_of(w[1]) is None {
        Ok(None)
    } else {
        let section = section_place(w.last());
        let class = w[w.len() - 2];
        if section >= 86 {
            Ok(None)
        } else if w.len() == 5 && w[2] != "R"@ {
            Err(MessageError::InvalidField)
        } else if class.len() == 0 {
            Err(MessageError::InvalidField)
        } else {
            match unsigned_value(class.drop_last()) {
                None => Err(MessageError::InvalidField),
                Some(count) => if !(1 <= count <= 32) || !('A' <= class.last() <= 'H') {
                    Err(MessageError::InvalidField)
                } else {
                    match (call_value(w[0]), call_value(w[1])) {
                        (Ok(a), Ok(b)) => Ok(
                            Some(
                                bits_of(a, 28) + bits_of(b, 28) + bits_of(flag(w.len() == 5), 1)
                                    + bits_of(((count - 1) % 16) as nat, 4) + bits_of(
                                    (class.last() as int - 65) as nat,
                                    3,
                                ) + bits_of((section + 1) as nat, 7) + bits_of(
                                    if count <= 16 {
                                        3
                                    } else {
                                        4
                                    },
                                    3,
                                ) + bits_of(0, 3),
                            ),
                        ),
                        _ => Err(MessageError::InvalidCallsign),
                    }
                },
            }
        }
    }
}

/// A report from 529 to 599.
pub open spec fn is_rtty_report(s: Seq<char>) -> bool {
    s.len() == 3 && s[0] == '5' && '2' <= s[1] <= '9' && s[2] == '9'
}

pub open spec fn rtty_number(word: Seq<char>) -> Option<nat> {
    let n = multiplier_place(word);
    if n < 171 {
        Some((8001 + n) as nat)
    } else {
        match unsigned_value(word) {
            Some(serial) => if 1 <= serial <= 7999 {
                Some(serial)
            } else {
                None
            },
            None => None,
        }
    }
}

pub open spec fn rtty_payload(all: Seq<Seq<char>>) -> Attempt {
    let thanks = all[0] == "TU;"@;
    let w = if thanks {
        all.skip(1)
    } else {
        all
    };
    if !(4 <= w.len() <= 5) || base_of(w[0]) is None || base_of(w[1]) is None || (w.len() == 5
        && w[2] != "R"@) || !is_rtty_report(w[w.len() - 2]) {
        Ok(None)
    } else {
        match rtty_number(w.last()) {
            None => Err(MessageError::InvalidField),
            Some(exchange) => match (call_value(w[0]), call_value(w[1])) {
                (Ok(a), Ok(b)) => Ok(
                    Some(
                        bits_of(flag(thanks), 1) + bits_of(a, 28) + bits_of(b, 28) + bits_of(
                            flag(w.len() == 5),
                            1,
                        ) + bits_of((w[w.len() - 2][1] as int - 50) as nat, 3) + bits_of(
                            exchange,
                            13,
                        ) + bits_of(3, 3),
                    ),
                ),
                _ => Err(MessageError::InvalidCallsign),
            },
        }
    }
}

/// The number of a closing word.
pub open spec fn closing_value(w: Seq<Seq<char>>) -> nat {
    if w.len() < 3 {
        0
    } else if w[2] == "RRR"@ {
        1
    } else if w[2] == "RR73"@ {
        2
    } else {
        3
    }
}

/// The bits of a nonstandard call message, its hashed and its full call given.
pub open spec fn nonstandard_bits(
    w: Seq<Seq<char>>,
    hashed: Seq<char>,
    call: Seq<char>,
    flip: bool,
) -> Attempt {
    let cq = w[0] == "CQ"@;
    if !is_valid_call(call) || (cq && call.len() <= 4) {
        Err(MessageError::InvalidCallsign)
    } else if base_of(call) == Some(call) && base_of(hashed) == Some(hashed) && !cq {
        Ok(None)
    } else {
        Ok(
            Some(
                bits_of(hash12(hashed), 12) + bits_of(packed_call(call, call.len()), 58) + bits_of(
                    flag(flip),
                    1,
                ) + bits_of(closing_value(w), 2) + bits_of(flag(cq), 1) + bits_of(4, 3),
            ),
        )
    }
}

pub open spec fn nonstandard_payload(w: Seq<Seq<char>>) -> Attempt {
    let cq = w[0] == "CQ"@;
    if !(2 <= w.len() <= 3) || (w.len() == 3 && (cq || !(w[2] == "RRR"@ || w[2] == "RR73"@ || w[2]
        == "73"@))) {
        Ok(None)
    } else if cq {
        nonstandard_bits(w, w[1], w[1], false)
    } else if is_bracket(w[0]) {
        match bracketed(w[0]) {
            Some(hashed) => nonstandard_bits(w, hashed, w[1], false),
            None => Err(MessageError::InvalidCallsign),
        }
    } else if is_bracket(w[1]) {
        match bracketed(w[1]) {
            Some(hashed) => nonstandard_bits(w, hashed, w[0], true),
            None => Err(MessageError::InvalidCallsign),
        }
    } else {
        Ok(None)
    }
}

/// A locator of two letters, two digits and two letters up to X.
pub open spec fn grid_six_value(s: Seq<char>) -> Option<nat> {
    if s.len() == 6 && 'A' <= s[4] <= 'X' && 'A' <= s[5] <= 'X' {
        match grid_value(s.take(4)) {
            Some(grid) => Some(
                (grid * 576 + (s[4] as int - 65) * 24 + (s[5] as int - 65)) as nat,
            ),
            None => None,
        }
    } else {
        None
    }
}

pub open spec fn vhf_payload(w: Seq<Seq<char>>) -> Attempt {
    if !(4 <= w.len() <= 5) || !is_bracket(w[0]) || !is_bracket(w[1]) {
        Ok(None)
    } else {
        let exchange = w[w.len() - 2];
        let n = decimal_value(exchange);
        if w.len() == 5 && w[2] != "R"@ {
            Err(MessageError::InvalidField)
        } else if exchange.len() != 6 || !all_digits(exchange) || !(52 <= n / 10000 <= 59) || !(1
            <= n % 10000 <= 2047) {
            Err(MessageError::InvalidField)
        } else {
            match grid_six_value(w.last()) {
                None => Err(MessageError::InvalidField),
                Some(grid) => match (bracketed(w[0]), bracketed(w[1])) {
                    (Some(a), Some(b)) => Ok(
                        Some(
                            bits_of(hash12(a), 12) + bits_of(hash22(b), 22) + bits_of(
                                flag(w.len() == 5),
                                1,
                            ) + bits_of((n / 10000 - 52) as nat, 3) + bits_of(n % 10000, 11)
                                + bits_of(grid, 25) + bits_of(5, 3),
                        ),
                    ),
                    _ => Err(MessageError::InvalidCallsign),
                },
            }
        }
    }
}

/// The words with a directed CQ joined to its token.
pub open spec fn joined_words(w: Seq<Seq<char>>) -> Result<Seq<Seq<char>>, MessageError> {
    if w.len() >= 3 && w[0] == "CQ"@ && base_of(w[2]) is Some {
        let cq = "CQ_"@ + w[1];
        if token_value(cq) is None {
            Err(MessageError::InvalidField)
        } else {
            Ok(seq![cq] + w.skip(2))
        }
    } else {
        Ok(w)
    }
}

/// The first kind of message that the words form.
pub open spec fn words_payload(w: Seq<Seq<char>>) -> Result<Seq<bool>, MessageError> {
    if w.len() == 5 && w[1] == "RR73;"@ {
        dxpedition_payload(w)
    } else {
        match field_day_payload(w) {
            Err(error) => Err(error),
            Ok(Some(bits)) => Ok(bits),
            Ok(None) => match standard_payload(w) {
                Err(error) => Err(error),
                Ok(Some(bits)) => Ok(bits),
                Ok(None) => match rtty_payload(w) {
                    Err(error) => Err(error),
                    Ok(Some(bits)) => Ok(bits),
                    Ok(None) => match nonstandard_payload(w) {
                        Err(error) => Err(error),
                        Ok(Some(bits)) => Ok(bits),
                        Ok(None) => match vhf_payload(w) {
                            Err(error) => Err(error),
                            Ok(Some(bits)) => Ok(bits),
                            Ok(None) => Err(MessageError::UnsupportedType),
                        },
                    },
                },
            },
        }
    }
}

/// The payload of a message text.
#[verifier::opaque]
pub open spec fn payload_of_text(text: Seq<char>) -> Result<Seq<bool>, MessageError> {
    let w = words(uppercase(text));
    if text.len() > 37 || !all_plain(text) {
        Err(MessageError::InvalidField)
    } else if w.len() < 2 || exists|i: int| 0 <= i < w.len() && (#[trigger] w[i]).len() > 13 {
        Err(MessageError::UnsupportedType)
    } else {
        match joined_words(w) {
            Err(error) => Err(error),
            Ok(joined) => words_payload(joined),
        }
    }
}

// ---------------------------------------------------------------------------
// Executable forms
// ---------------------------------------------------------------------------

fn plain(s: &str) -> (r: bool)
    ensures
        r == all_plain(s@),
{
    let n: usize = s.unicode_len();
    let mut i: usize = 0;
    while i < n
        invariant
            i <= n,
            n == s@.len(),
            forall|k: int| 0 <= k < i ==> is_plain(#[trigger] s@[k]),
        decreases n - i,
    {
        let c: char = s.get_char(i);
        if !(' ' <= c && c <= '~') {
            assert(!is_plain(s@[i as int]));
            return false;
        }
        i = i + 1;
    }
    true
}

pub(crate) fn only_digits(s: &str) -> (r: bool)
    ensures
        r == all_digits(s@),
{
    let n: usize = s.unicode_len();
    let mut i: usize = 0;
    while i < n
        invariant
            i <= n,
            n == s@.len(),
            forall|k: int| 0 <= k < i ==> is_digit(#[trigger] s@[k]),
        decreases n - i,
    {
        if !ascii_digit(s.get_char(i)) {
            assert(!is_digit(s@[i as int]));
            return false;
        }
        i = i + 1;
    }
    true
}

fn only_upper(s: &str) -> (r: bool)
    ensures
        r == all_upper(s@),
{
    let n: usize = s.unicode_len();
    let mut i: usize = 0;
    while i < n
        invariant
            i <= n,
            n == s@.len(),
            forall|k: int| 0 <= k < i ==> is_upper(#[trigger] s@[k]),
        decreases n - i,
    {
        if !ascii_upper(s.get_char(i)) {
            assert(!is_upper(s@[i as int]));
            return false;
        }
        i = i + 1;
    }
    true
}

proof fn lemma_prefix_value(s: Seq<char>, i: int)
    requires
        all_digits(s),
        0 <= i <= s.len(),
    ensures
        decimal_value(s.take(i)) <= decimal_value(s),
    decreases s.len() - i,
{
    if i < s.len() {
        lemma_prefix_value(s, i + 1);
        assert(s.take(i + 1).drop_last() =~= s.take(i));
        assert(is_digit(s[i]));
        assert(decimal_value(s.take(i + 1)) >= decimal_value(s.take(i)) * 10);
    } else {
        assert(s.take(i) =~= s);
    }
}

/// The value of a run of digits, where it fits in 64 bits.
pub(crate) fn number_value(s: &str) -> (r: Option<u64>)
    requires
        all_digits(s@),
    ensures
        match r {
            Some(n) => n == decimal_value(s@),
            None => decimal_value(s@) > u64::MAX,
        },
{
    let n: usize = s.unicode_len();
    let mut value: u64 = 0;
    let mut i: usize = 0;
    assert(s@.take(0) =~= Seq::<char>::empty());
    while i < n
        invariant
            i <= n,
            n == s@.len(),
            all_digits(s@),
            value == decimal_value(s@.take(i as int)),
        decreases n - i,
    {
        assert(is_digit(s@[i as int]));
        let d: u64 = digit_value(s.get_char(i)) as u64;
        proof {
            assert(s@.take(i + 1).drop_last() =~= s@.take(i as int));
            lemma_prefix_value(s@, i + 1);
        }
        if value > u64::MAX / 10 || value * 10 > u64::MAX - d {
            return None;
        }
        value = value * 10 + d;
        i = i + 1;
    }
    assert(s@.take(n as int) =~= s@);
    Some(value)
}

pub(crate) fn unsigned(s: &str) -> (r: Option<u64>)
    ensures
        match r {
            Some(n) => unsigned_value(s@) == Some(n as nat),
            None => unsigned_value(s@) is None,
        },
{
    let length: usize = s.unicode_len();
    let numeral: &str = if length > 0 && s.get_char(0) == '+' {
        s.substring_char(1, length)
    } else {
        s
    };
    assert(s@.len() > 0 && s@[0] == '+' ==> numeral@ =~= s@.skip(1));
    if numeral.unicode_len() == 0 || !only_digits(numeral) {
        return None;
    }
    number_value(numeral)
}

fn signed_report(s: &str) -> (r: Option<i32>)
    ensures
        match r {
            Some(n) => report_value(s@) == Some(n as int) && -99 <= n <= 99,
            None => report_value(s@) is None,
        },
{
    let n: usize = s.unicode_len();
    if n < 2 || n > 3 {
        return None;
    }
    let sign: char = s.get_char(0);
    if sign != '+' && sign != '-' {
        return None;
    }
    let numeral: &str = s.substring_char(1, n);
    assert(numeral@ =~= s@.skip(1));
    if !only_digits(numeral) {
        return None;
    }
    proof {
        reveal_with_fuel(decimal_value, 3);
        assert(is_digit(numeral@[0]));
        assert(n == 3 ==> is_digit(numeral@[1]));
        assert(n == 3 ==> numeral@.drop_last().drop_last() =~= Seq::<char>::empty());
        assert(n == 3 ==> numeral@.drop_last().last() == numeral@[0]);
        assert(n == 2 ==> numeral@.drop_last() =~= Seq::<char>::empty());
        assert(decimal_value(numeral@) <= 99);
    }
    match number_value(numeral) {
        Some(value) => {
            if sign == '-' {
                Some(-(value as i32))
            } else {
                Some(value as i32)
            }
        },
        None => None,
    }
}

fn grid4(s: &str) -> (r: Option<u64>)
    ensures
        match r {
            Some(n) => grid_value(s@) == Some(n as nat) && n < 32400,
            None => grid_value(s@) is None,
        },
{
    if s.unicode_len() != 4 {
        return None;
    }
    let a: char = s.get_char(0);
    let b: char = s.get_char(1);
    let c: char = s.get_char(2);
    let d: char = s.get_char(3);
    if 'A' <= a && a <= 'R' && 'A' <= b && b <= 'R' && ascii_digit(c) && ascii_digit(d) {
        Some(
            letter_value(a) as u64 * 1800 + letter_value(b) as u64 * 100 + digit_value(c) as u64
                * 10 + digit_value(d) as u64,
        )
    } else {
        None
    }
}

fn valid_call(call: &str) -> (r: bool)
    ensures
        r == is_valid_call(call@),
{
    let n: usize = call.unicode_len();
    if n < 3 || n > 11 || !only_call_chars(call) {
        return false;
    }
    let mut upper: bool = false;
    let mut digit: bool = false;
    let mut stroke: bool = false;
    let mut i: usize = 0;
    while i < n
        invariant
            i <= n,
            n == call@.len(),
            upper == exists|k: int| 0 <= k < i && is_upper(#[trigger] call@[k]),
            digit == exists|k: int| 0 <= k < i && is_digit(#[trigger] call@[k]),
            stroke == exists|k: int| 0 <= k < i && #[trigger] call@[k] == '/',
            forall|k: int, j: int| 0 <= k < j < i ==> !(call@[k] == '/' && call@[j] == '/'),
        decreases n - i,
    {
        let c: char = call.get_char(i);
        if ascii_upper(c) {
            assert(is_upper(call@[i as int]));
            upper = true;
        }
        if ascii_digit(c) {
            assert(is_digit(call@[i as int]));
            digit = true;
        }
        if c == '/' {
            if stroke {
                proof {
                    let k = choose|k: int| 0 <= k < i && #[trigger] call@[k] == '/';
                    assert(call@[k] == '/' && call@[i as int] == '/');
                }
                return false;
            }
            assert(call@[i as int] == '/');
            stroke = true;
        }
        i = i + 1;
    }
    upper && digit && call.get_char(0) != '/' && call.get_char(n - 1) != '/'
}

fn bracket_call<'a>(call: &'a str) -> (r: Option<&'a str>)
    ensures
        match r {
            Some(inner) => bracketed(call@) == Some(inner@) && is_valid_call(inner@),
            None => bracketed(call@) is None,
        },
{
    let n: usize = call.unicode_len();
    if n < 2 || call.get_char(0) != '<' || call.get_char(n - 1) != '>' {
        return None;
    }
    let inner: &str = call.substring_char(1, n - 1);
    if valid_call(inner) {
        Some(inner)
    } else {
        None
    }
}

fn packs(base: &str) -> (r: bool)
    ensures
        r == is_base(base@),
{
    let n: usize = base.unicode_len();
    if n < 3 || n > 6 {
        return false;
    }
    let a: char = base.get_char(0);
    let b: char = base.get_char(1);
    let c: char = base.get_char(2);
    if a == 'Q' && !same(base, "QU1RK") {
        return false;
    }
    if !ascii_upper(a) && !ascii_upper(b) {
        return false;
    }
    let area: usize = if ascii_digit(c) {
        2
    } else if ascii_digit(b) {
        1
    } else {
        return false;
    };
    if n < area + 2 || n > area + 4 {
        return false;
    }
    let tail: &str = base.substring_char(area + 1, n);
    assert(tail@ =~= base@.skip(area_of(base@) + 1));
    only_upper(tail)
}

// The longer side of a compound call counts (the right on ties).
fn base_call<'a>(call: &'a str) -> (r: Option<&'a str>)
    ensures
        match r {
            Some(base) => base_of(call@) == Some(base@),
            None => base_of(call@) is None,
        },
{
    if !valid_call(call) {
        return None;
    }
    let n: usize = call.unicode_len();
    let at: usize = position_of(call, '/', 0);
    let base: &str = if at < n {
        let a: &str = call.substring_char(0, at);
        let b: &str = call.substring_char(at + 1, n);
        assert(a@ =~= call@.take(at as int));
        assert(b@ =~= call@.skip(at + 1));
        if at > 6 || n - at - 1 > 6 {
            return None;
        }
        if at > n - at - 1 {
            a
        } else {
            b
        }
    } else {
        call
    };
    if packs(base) {
        Some(base)
    } else {
        None
    }
}

fn letters_number(s: &str) -> (r: u64)
    requires
        all_upper(s@),
        1 <= s@.len() <= 4,
    ensures
        r == letters_value(s@),
        r < 531441,
{
    let n: usize = s.unicode_len();
    let mut value: u64 = 0;
    let mut i: usize = 0;
    assert(s@.take(0) =~= Seq::<char>::empty());
    while i < n
        invariant
            i <= n,
            n == s@.len(),
            n <= 4,
            all_upper(s@),
            value == letters_value(s@.take(i as int)),
            i == 0 ==> value == 0,
            i == 1 ==> value < 27,
            i == 2 ==> value < 729,
            i == 3 ==> value < 19683,
            i == 4 ==> value < 531441,
        decreases n - i,
    {
        assert(is_upper(s@[i as int]));
        assert(s@.take(i + 1).drop_last() =~= s@.take(i as int));
        value = value * 27 + letter_value(s.get_char(i)) as u64 + 1;
        i = i + 1;
    }
    assert(s@.take(n as int) =~= s@);
    value
}

fn token(call: &str) -> (r: Option<u64>)
    ensures
        match r {
            Some(n) => token_value(call@) == Some(n as nat) && n < 532444,
            None => token_value(call@) is None,
        },
{
    if same(call, "DE") {
        return Some(0);
    }
    if same(call, "QRZ") {
        return Some(1);
    }
    if same(call, "CQ") {
        return Some(2);
    }
    if !has_prefix(call, "CQ_") {
        return None;
    }
    proof {
        reveal_strlit("CQ_");
    }
    let s: &str = call.substring_char(3, call.unicode_len());
    assert(s@ =~= call@.skip(3));
    let n: usize = s.unicode_len();
    if n == 3 && only_digits(s) {
        proof {
            lemma_three_digits(s@);
        }
        return match number_value(s) {
            Some(value) => Some(3 + value),
            None => None,
        };
    }
    if 1 <= n && n <= 4 && only_upper(s) {
        return Some(1003 + letters_number(s));
    }
    None
}

fn base_number(base: &str) -> (r: u64)
    requires
        is_base(base@),
        all_call_chars(base@),
        !base@.contains('/'),
    ensures
        r == base_value(base@),
        r < 262177560,
{
    let n: usize = base.unicode_len();
    let area: usize = if ascii_digit(base.get_char(2)) { 2 } else { 1 };
    let shift: usize = 2 - area;
    let ghost c = padded_base(base@);
    proof {
        assert(c.len() == 6);
        assert(forall|i: int| 0 <= i < n ==> c[i + shift] == base@[i]);
        assert(forall|i: int| n + shift <= i < 6 ==> c[i] == ' ');
        assert(crate::callsign::is_call_char(base@[0]) && base@[0] != '/');
        assert(crate::callsign::is_call_char(base@[1]) && base@[1] != '/');
        assert(shift == 1 ==> c[0] == ' ');
        let tail = base@.skip(area + 1);
        assert(forall|i: int| area < i < n ==> base@[i] == tail[i - area - 1]);
        assert(forall|i: int| area < i < n ==> is_upper(#[trigger] base@[i]));
    }
    let first: u64 = if shift == 1 { 0 } else { index_of(base.get_char(0)) };
    let second: char = base.get_char(1 - shift);
    let second_value: u64 = if ascii_digit(second) {
        digit_value(second) as u64
    } else {
        letter_value(second) as u64 + 10
    };
    let third: u64 = digit_value(base.get_char(area)) as u64;
    let fourth: u64 = letter_value(base.get_char(area + 1)) as u64 + 1;
    let fifth: u64 = if area + 2 < n {
        assert(is_upper(base@[area + 2]));
        letter_value(base.get_char(area + 2)) as u64 + 1
    } else {
        0
    };
    let sixth: u64 = if area + 3 < n {
        assert(is_upper(base@[area + 3]));
        letter_value(base.get_char(area + 3)) as u64 + 1
    } else {
        0
    };
    assert(first == call_index(c[0]) && first < 37);
    assert(second_value == alphanumeric_index(c[1]) && second_value < 36);
    assert(third == alphanumeric_index(c[2]));
    assert(fourth == letter_index(c[3]));
    assert(fifth == letter_index(c[4]));
    assert(sixth == letter_index(c[5]));
    first * 7085880 + second_value * 196830 + third * 19683 + fourth * 729 + fifth * 27 + sixth
}

/// A call that is its own base call has no stroke.
pub proof fn lemma_whole_base(call: Seq<char>)
    requires
        base_of(call) == Some(call),
    ensures
        is_base(call),
        all_call_chars(call),
        !call.contains('/'),
{
    lemma_find_char(call, '/');
    let at = find_char(call, '/');
    if at < call.len() {
        assert(call.take(at).len() < call.len());
        assert(call.skip(at + 1).len() < call.len());
    }
}

fn call28(call: &str) -> (r: Result<u64, MessageError>)
    ensures
        match r {
            Ok(n) => call_value(call@) == Ok::<nat, MessageError>(n as nat) && n < 268435456,
            Err(error) => call_value(call@) == Err::<nat, MessageError>(error) && error
                == MessageError::InvalidCallsign,
        },
{
    proof {
        reveal(call_value);
    }
    match token(call) {
        Some(n) => {
            return Ok(n);
        },
        None => {},
    }
    if starts_with_char(call, '<') {
        return match bracket_call(call) {
            Some(inner) => Ok(TOKEN_COUNT as u64 + call_hashes(inner)[2] as u64),
            None => Err(MessageError::InvalidCallsign),
        };
    }
    if !valid_call(call) {
        return Err(MessageError::InvalidCallsign);
    }
    let whole: bool = match base_call(call) {
        Some(base) => same(base, call),
        None => false,
    };
    if !whole {
        return Ok(TOKEN_COUNT as u64 + call_hashes(call)[2] as u64);
    }
    proof {
        lemma_whole_base(call@);
    }
    Ok(base_number(call) + TOKEN_COUNT as u64 + HASH22_COUNT as u64)
}

spec fn attempt_view(r: Result<Option<[bool; 77]>, MessageError>) -> Attempt {
    match r {
        Ok(Some(bits)) => Ok(Some(bits@)),
        Ok(None) => Ok(None),
        Err(error) => Err(error),
    }
}

fn dxpedition(w: &[String]) -> (r: Result<[bool; 77], MessageError>)
    requires
        w@.len() == 5,
    ensures
        match r {
            Ok(bits) => dxpedition_payload(w.deep_view()) == Ok::<Seq<bool>, MessageError>(bits@),
            Err(error) => dxpedition_payload(w.deep_view()) == Err::<Seq<bool>, MessageError>(
                error,
            ),
        },
{
    if base_call(w[0].as_str()).is_none() || base_call(w[2].as_str()).is_none() {
        return Err(MessageError::InvalidCallsign);
    }
    let report: i32 = match signed_report(w[4].as_str()) {
        Some(report) => report,
        None => {
            return Err(MessageError::InvalidField);
        },
    };
    if report < -30 || report > 32 {
        return Err(MessageError::InvalidField);
    }
    let a: u64 = match call28(w[0].as_str()) {
        Ok(n) => n,
        Err(error) => {
            return Err(error);
        },
    };
    let b: u64 = match call28(w[2].as_str()) {
        Ok(n) => n,
        Err(error) => {
            return Err(error);
        },
    };
    let c: u64 = match bracket_call(w[3].as_str()) {
        Some(inner) => call_hashes(inner)[0] as u64,
        None => {
            return Err(MessageError::InvalidCallsign);
        },
    };
    let mut bits: Vec<bool> = Vec::new();
    push_bits(&mut bits, a, 28);
    push_bits(&mut bits, b, 28);
    push_bits(&mut bits, c, 10);
    push_bits(&mut bits, ((report + 30) / 2) as u64, 5);
    push_bits(&mut bits, 1, 3);
    push_bits(&mut bits, 0, 3);
    assert(bits@ =~= dxpedition_payload(w.deep_view())->Ok_0);
    Ok(payload_of(&bits))
}

fn carry_call<'a>(word: &'a str, address: bool) -> (r: Option<&'a str>)
    ensures
        match r {
            Some(call) => carried_call(word@, address) == Some(call@),
            None => carried_call(word@, address) is None,
        },
{
    if (address && token(word).is_some()) || starts_with_char(word, '<') {
        Some(word)
    } else {
        base_call(word)
    }
}

spec fn exchange_view(r: Result<Option<(u64, u64)>, MessageError>) -> Result<
    Option<(nat, nat)>,
    MessageError,
> {
    match r {
        Ok(Some(pair)) => Ok(Some((pair.0 as nat, pair.1 as nat))),
        Ok(None) => Ok(None),
        Err(error) => Err(error),
    }
}

fn exchange(w: &[String]) -> (r: Result<Option<(u64, u64)>, MessageError>)
    requires
        2 <= w@.len() <= 4,
    ensures
        exchange_view(r) == standard_exchange(w.deep_view()),
{
    let n: usize = w.len();
    assert(w.deep_view().last() == w@[n - 1]@);
    if n == 2 {
        return Ok(Some((0, 32401)));
    }
    let last: &str = w[n - 1].as_str();
    match grid4(last) {
        Some(grid) => {
            return Ok(Some((if n == 4 { 1 } else { 0 }, grid)));
        },
        None => {},
    }
    if n == 3 && (same(last, "RRR") || same(last, "73")) {
        return Ok(Some((0, if same(last, "RRR") { 32402 } else { 32404 })));
    }
    if n == 3 && (starts_with_char(last, '+') || starts_with_char(last, '-') || has_prefix(
        last,
        "R+",
    ) || has_prefix(last, "R-")) {
        proof {
            reveal_strlit("R+");
            reveal_strlit("R-");
            if starts_with(last@, "R+"@) {
                assert(last@[0] == last@.take(2)[0]);
            }
            if starts_with(last@, "R-"@) {
                assert(last@[0] == last@.take(2)[0]);
            }
        }
        let rogered: bool = last.get_char(0) == 'R';
        let numeral: &str = if rogered {
            last.substring_char(1, last.unicode_len())
        } else {
            last
        };
        assert(rogered ==> numeral@ =~= last@.skip(1));
        let report: i32 = match signed_report(numeral) {
            Some(report) => report,
            None => {
                return Err(MessageError::InvalidField);
            },
        };
        if report < -50 || report > 50 {
            return Err(MessageError::InvalidField);
        }
        let folded: i32 = if report <= -31 { report + 101 } else { report };
        return Ok(Some((if rogered { 1 } else { 0 }, (32435 + folded) as u64)));
    }
    Ok(None)
}

fn standard(w: &[String]) -> (r: Result<Option<[bool; 77]>, MessageError>)
    ensures
        attempt_view(r) == standard_payload(w.deep_view()),
{
    let n: usize = w.len();
    if n < 2 || n > 4 {
        return Ok(None);
    }
    let first: &str = w[0].as_str();
    let second: &str = w[1].as_str();
    assert(w.deep_view()[0] == first@ && w.deep_view()[1] == second@);
    assert(w.deep_view().last() == w@[n - 1]@);
    let a: &str = match carry_call(first, true) {
        Some(call) => call,
        None => {
            return Ok(None);
        },
    };
    let b: &str = match carry_call(second, false) {
        Some(call) => call,
        None => {
            return Ok(None);
        },
    };
    if (starts_with_char(first, '<') && has_char(second, '/')) || (starts_with_char(second, '<')
        && has_char(first, '/')) || (n == 2 && has_char(second, '/')) {
        return Ok(None);
    }
    if n == 4 {
        assert(w.deep_view()[2] == w@[2]@);
        if !same(w[2].as_str(), "R") {
            return Ok(None);
        }
    }
    let (rogered, number) = match exchange(w) {
        Ok(Some(pair)) => pair,
        Ok(None) => {
            return Ok(None);
        },
        Err(error) => {
            return Err(error);
        },
    };
    if has_prefix(first, "CQ") && (rogered != 0 || number > 32401 || same(w[n - 1].as_str(), "RR73")
        || starts_with_char(second, '<')) {
        return Err(MessageError::InvalidField);
    }
    let portable: bool = has_suffix(first, "/P") || has_suffix(second, "/P");
    if portable && (has_suffix(first, "/R") || has_suffix(second, "/R")) {
        return Err(MessageError::InvalidField);
    }
    let a_value: u64 = match call28(a) {
        Ok(n) => n,
        Err(error) => {
            return Err(error);
        },
    };
    let b_value: u64 = match call28(b) {
        Ok(n) => n,
        Err(error) => {
            return Err(error);
        },
    };
    let mut bits: Vec<bool> = Vec::new();
    push_bits(&mut bits, a_value, 28);
    push_bits(&mut bits, if has_suffix(first, "/P") || has_suffix(first, "/R") { 1 } else { 0 }, 1);
    push_bits(&mut bits, b_value, 28);
    push_bits(
        &mut bits,
        if has_suffix(second, "/P") || has_suffix(second, "/R") {
            1
        } else {
            0
        },
        1,
    );
    push_bits(&mut bits, rogered, 1);
    push_bits(&mut bits, number, 15);
    push_bits(&mut bits, if portable { 2 } else { 1 }, 3);
    assert(bits@ =~= standard_payload(w.deep_view())->Ok_0->0);
    Ok(Some(payload_of(&bits)))
}

fn field_day(w: &[String]) -> (r: Result<Option<[bool; 77]>, MessageError>)
    ensures
        attempt_view(r) == field_day_payload(w.deep_view()),
{
    let n: usize = w.len();
    if n < 4 || n > 5 {
        return Ok(None);
    }
    assert(forall|i: int| 0 <= i < n ==> w.deep_view()[i] == (#[trigger] w@[i])@);
    assert(w.deep_view().last() == w@[n - 1]@);
    if base_call(w[0].as_str()).is_none() || base_call(w[1].as_str()).is_none() {
        return Ok(None);
    }
    let section: usize = find_section(w[n - 1].as_str());
    if section >= 86 {
        return Ok(None);
    }
    if n == 5 && !same(w[2].as_str(), "R") {
        return Err(MessageError::InvalidField);
    }
    let class: &str = w[n - 2].as_str();
    let length: usize = class.unicode_len();
    if length == 0 {
        return Err(MessageError::InvalidField);
    }
    let letter: char = class.get_char(length - 1);
    let numeral: &str = class.substring_char(0, length - 1);
    assert(numeral@ =~= class@.drop_last());
    let count: u64 = match unsigned(numeral) {
        Some(count) => count,
        None => {
            return Err(MessageError::InvalidField);
        },
    };
    if count < 1 || count > 32 || !('A' <= letter && letter <= 'H') {
        return Err(MessageError::InvalidField);
    }
    let a: u64 = match call28(w[0].as_str()) {
        Ok(n) => n,
        Err(error) => {
            return Err(error);
        },
    };
    let b: u64 = match call28(w[1].as_str()) {
        Ok(n) => n,
        Err(error) => {
            return Err(error);
        },
    };
    let mut bits: Vec<bool> = Vec::new();
    push_bits(&mut bits, a, 28);
    push_bits(&mut bits, b, 28);
    push_bits(&mut bits, if n == 5 { 1 } else { 0 }, 1);
    push_bits(&mut bits, (count - 1) % 16, 4);
    push_bits(&mut bits, letter_value(letter) as u64, 3);
    push_bits(&mut bits, (section + 1) as u64, 7);
    push_bits(&mut bits, if count <= 16 { 3 } else { 4 }, 3);
    push_bits(&mut bits, 0, 3);
    assert(bits@ =~= field_day_payload(w.deep_view())->Ok_0->0);
    Ok(Some(payload_of(&bits)))
}

fn rtty_exchange(word: &str) -> (r: Option<u64>)
    ensures
        match r {
            Some(n) => rtty_number(word@) == Some(n as nat),
            None => rtty_number(word@) is None,
        },
{
    let place: usize = find_multiplier(word);
    if place < 171 {
        return Some(8001 + place as u64);
    }
    match unsigned(word) {
        Some(serial) => if 1 <= serial && serial <= 7999 {
            Some(serial)
        } else {
            None
        },
        None => None,
    }
}

fn rtty(all: &[String]) -> (r: Result<Option<[bool; 77]>, MessageError>)
    requires
        all@.len() > 0,
    ensures
        attempt_view(r) == rtty_payload(all.deep_view()),
{
    let thanks: bool = same(all[0].as_str(), "TU;");
    let skip: usize = if thanks { 1 } else { 0 };
    let n: usize = all.len() - skip;
    let ghost w = if thanks {
        all.deep_view().skip(1)
    } else {
        all.deep_view()
    };
    assert(all.deep_view()[0] == all@[0]@);
    assert(w.len() == n);
    if n < 4 || n > 5 {
        return Ok(None);
    }
    assert(forall|i: int| 0 <= i < n ==> w[i] == #[trigger] all@[i + skip]@);
    let first: &str = all[skip].as_str();
    let second: &str = all[skip + 1].as_str();
    let third: &str = all[skip + 2].as_str();
    let report: &str = all[skip + n - 2].as_str();
    let last: &str = all[skip + n - 1].as_str();
    assert(w[0] == first@ && w[1] == second@ && w[2] == third@ && w[n - 2] == report@ && w.last()
        == last@);
    if base_call(first).is_none() || base_call(second).is_none() {
        return Ok(None);
    }
    if n == 5 && !same(third, "R") {
        return Ok(None);
    }
    if report.unicode_len() != 3 || report.get_char(0) != '5' || report.get_char(2) != '9' || !(
    '2' <= report.get_char(1) && report.get_char(1) <= '9') {
        return Ok(None);
    }
    let number: u64 = match rtty_exchange(last) {
        Some(number) => number,
        None => {
            return Err(MessageError::InvalidField);
        },
    };
    let a: u64 = match call28(first) {
        Ok(n) => n,
        Err(error) => {
            return Err(error);
        },
    };
    let b: u64 = match call28(second) {
        Ok(n) => n,
        Err(error) => {
            return Err(error);
        },
    };
    let mut bits: Vec<bool> = Vec::new();
    push_bits(&mut bits, if thanks { 1 } else { 0 }, 1);
    push_bits(&mut bits, a, 28);
    push_bits(&mut bits, b, 28);
    push_bits(&mut bits, if n == 5 { 1 } else { 0 }, 1);
    push_bits(&mut bits, digit_value(report.get_char(1)) as u64 - 2, 3);
    push_bits(&mut bits, number, 13);
    push_bits(&mut bits, 3, 3);
    assert(bits@ =~= rtty_payload(all.deep_view())->Ok_0->0);
    Ok(Some(payload_of(&bits)))
}

fn packed_number(call: &str) -> (r: u64)
    requires
        call@.len() <= 11,
    ensures
        r == packed_call(call@, call@.len()),
{
    let length: usize = call.unicode_len();
    let mut packed: u64 = 0;
    let mut n: usize = 0;
    while n < length
        invariant
            n <= length,
            length == call@.len(),
            length <= 11,
            packed == packed_call(call@, n as nat),
            n == 0 ==> packed < 1,
            n == 1 ==> packed < 38,
            n == 2 ==> packed < 1444,
            n == 3 ==> packed < 54872,
            n == 4 ==> packed < 2085136,
            n == 5 ==> packed < 79235168,
            n == 6 ==> packed < 3010936384,
            n == 7 ==> packed < 114415582592,
            n == 8 ==> packed < 4347792138496,
            n == 9 ==> packed < 165216101262848,
            n == 10 ==> packed < 6278211847988224,
        decreases length - n,
    {
        packed = packed * 38 + index_of(call.get_char(n));
        n = n + 1;
    }
    packed
}

fn nonstandard_with(w: &[String], hashed: &str, call: &str, flip: bool) -> (r: Result<
    Option<[bool; 77]>,
    MessageError,
>)
    requires
        2 <= w@.len() <= 3,
        w@.len() == 3 ==> w@[2]@ == "RRR"@ || w@[2]@ == "RR73"@ || w@[2]@ == "73"@,
    ensures
        attempt_view(r) == nonstandard_bits(w.deep_view(), hashed@, call@, flip),
{
    assert(forall|i: int| 0 <= i < w@.len() ==> w.deep_view()[i] == (#[trigger] w@[i])@);
    let cq: bool = same(w[0].as_str(), "CQ");
    if !valid_call(call) || (cq && call.unicode_len() <= 4) {
        return Err(MessageError::InvalidCallsign);
    }
    let call_whole: bool = match base_call(call) {
        Some(base) => same(base, call),
        None => false,
    };
    let hashed_whole: bool = match base_call(hashed) {
        Some(base) => same(base, hashed),
        None => false,
    };
    if call_whole && hashed_whole && !cq {
        return Ok(None);
    }
    let closing: u64 = if w.len() < 3 {
        0
    } else if same(w[2].as_str(), "RRR") {
        1
    } else if same(w[2].as_str(), "RR73") {
        2
    } else {
        3
    };
    let mut bits: Vec<bool> = Vec::new();
    push_bits(&mut bits, call_hashes(hashed)[1] as u64, 12);
    push_bits(&mut bits, packed_number(call), 58);
    push_bits(&mut bits, if flip { 1 } else { 0 }, 1);
    push_bits(&mut bits, closing, 2);
    push_bits(&mut bits, if cq { 1 } else { 0 }, 1);
    push_bits(&mut bits, 4, 3);
    assert(bits@ =~= nonstandard_bits(w.deep_view(), hashed@, call@, flip)->Ok_0->0);
    Ok(Some(payload_of(&bits)))
}

fn nonstandard(w: &[String]) -> (r: Result<Option<[bool; 77]>, MessageError>)
    ensures
        attempt_view(r) == nonstandard_payload(w.deep_view()),
{
    let n: usize = w.len();
    if n < 2 || n > 3 {
        return Ok(None);
    }
    assert(forall|i: int| 0 <= i < n ==> w.deep_view()[i] == (#[trigger] w@[i])@);
    let cq: bool = same(w[0].as_str(), "CQ");
    if n == 3 {
        let known: bool = same(w[2].as_str(), "RRR") || same(w[2].as_str(), "RR73") || same(
            w[2].as_str(),
            "73",
        );
        if cq || !known {
            return Ok(None);
        }
    }
    if cq {
        return nonstandard_with(w, w[1].as_str(), w[1].as_str(), false);
    }
    if starts_with_char(w[0].as_str(), '<') {
        return match bracket_call(w[0].as_str()) {
            Some(hashed) => nonstandard_with(w, hashed, w[1].as_str(), false),
            None => Err(MessageError::InvalidCallsign),
        };
    }
    if starts_with_char(w[1].as_str(), '<') {
        return match bracket_call(w[1].as_str()) {
            Some(hashed) => nonstandard_with(w, hashed, w[0].as_str(), true),
            None => Err(MessageError::InvalidCallsign),
        };
    }
    Ok(None)
}

fn grid6(s: &str) -> (r: Option<u64>)
    ensures
        match r {
            Some(n) => grid_six_value(s@) == Some(n as nat),
            None => grid_six_value(s@) is None,
        },
{
    if s.unicode_len() != 6 {
        return None;
    }
    let e: char = s.get_char(4);
    let f: char = s.get_char(5);
    if !('A' <= e && e <= 'X' && 'A' <= f && f <= 'X') {
        return None;
    }
    let square: &str = s.substring_char(0, 4);
    assert(square@ =~= s@.take(4));
    match grid4(square) {
        Some(grid) => Some(grid * 576 + letter_value(e) as u64 * 24 + letter_value(f) as u64),
        None => None,
    }
}

fn vhf(w: &[String]) -> (r: Result<Option<[bool; 77]>, MessageError>)
    ensures
        attempt_view(r) == vhf_payload(w.deep_view()),
{
    let n: usize = w.len();
    if n < 4 || n > 5 {
        return Ok(None);
    }
    assert(forall|i: int| 0 <= i < n ==> w.deep_view()[i] == (#[trigger] w@[i])@);
    assert(w.deep_view().last() == w@[n - 1]@);
    if !starts_with_char(w[0].as_str(), '<') || !starts_with_char(w[1].as_str(), '<') {
        return Ok(None);
    }
    if n == 5 && !same(w[2].as_str(), "R") {
        return Err(MessageError::InvalidField);
    }
    let exchange: &str = w[n - 2].as_str();
    if exchange.unicode_len() != 6 || !only_digits(exchange) {
        return Err(MessageError::InvalidField);
    }
    let number: u64 = match number_value(exchange) {
        Some(number) => number,
        None => {
            return Err(MessageError::InvalidField);
        },
    };
    let strength: u64 = number / 10000;
    let serial: u64 = number % 10000;
    if strength < 52 || strength > 59 || serial < 1 || serial > 2047 {
        return Err(MessageError::InvalidField);
    }
    let grid: u64 = match grid6(w[n - 1].as_str()) {
        Some(grid) => grid,
        None => {
            return Err(MessageError::InvalidField);
        },
    };
    let a: u64 = match bracket_call(w[0].as_str()) {
        Some(inner) => call_hashes(inner)[1] as u64,
        None => {
            return Err(MessageError::InvalidCallsign);
        },
    };
    let b: u64 = match bracket_call(w[1].as_str()) {
        Some(inner) => call_hashes(inner)[2] as u64,
        None => {
            return Err(MessageError::InvalidCallsign);
        },
    };
    let mut bits: Vec<bool> = Vec::new();
    push_bits(&mut bits, a, 12);
    push_bits(&mut bits, b, 22);
    push_bits(&mut bits, if n == 5 { 1 } else { 0 }, 1);
    push_bits(&mut bits, strength - 52, 3);
    push_bits(&mut bits, serial, 11);
    push_bits(&mut bits, grid, 25);
    push_bits(&mut bits, 5, 3);
    assert(bits@ =~= vhf_payload(w.deep_view())->Ok_0->0);
    Ok(Some(payload_of(&bits)))
}

spec fn payload_view(r: Result<[bool; 77], MessageError>) -> Result<Seq<bool>, MessageError> {
    match r {
        Ok(bits) => Ok(bits@),
        Err(error) => Err(error),
    }
}

fn encode_words(w: &[String]) -> (r: Result<[bool; 77], MessageError>)
    requires
        w@.len() > 0,
    ensures
        payload_view(r) == words_payload(w.deep_view()),
{
    if w.len() == 5 && same(w[1].as_str(), "RR73;") {
        assert(w.deep_view()[1] == w@[1]@);
        return dxpedition(w);
    }
    assert(w@.len() > 1 ==> w.deep_view()[1] == w@[1]@);
    match field_day(w) {
        Err(error) => {
            return Err(error);
        },
        Ok(Some(bits)) => {
            return Ok(bits);
        },
        Ok(None) => {},
    }
    match standard(w) {
        Err(error) => {
            return Err(error);
        },
        Ok(Some(bits)) => {
            return Ok(bits);
        },
        Ok(None) => {},
    }
    match rtty(w) {
        Err(error) => {
            return Err(error);
        },
        Ok(Some(bits)) => {
            return Ok(bits);
        },
        Ok(None) => {},
    }
    match nonstandard(w) {
        Err(error) => {
            return Err(error);
        },
        Ok(Some(bits)) => {
            return Ok(bits);
        },
        Ok(None) => {},
    }
    match vhf(w) {
        Err(error) => Err(error),
        Ok(Some(bits)) => Ok(bits),
        Ok(None) => Err(MessageError::UnsupportedType),
    }
}

fn join_words(w: Vec<String>) -> (r: Result<Vec<String>, MessageError>)
    ensures
        match r {
            Ok(joined) => joined_words(w.deep_view()) == Ok::<Seq<Seq<char>>, MessageError>(
                joined.deep_view(),
            ) && (w.len() >= 2 ==> joined.len() >= 2),
            Err(error) => joined_words(w.deep_view()) == Err::<Seq<Seq<char>>, MessageError>(
                error,
            ),
        },
{
    assert(forall|i: int| 0 <= i < w@.len() ==> w.deep_view()[i] == (#[trigger] w@[i])@);
    if w.len() >= 3 && same(w[0].as_str(), "CQ") && base_call(w[2].as_str()).is_some() {
        let mut cq: String = "CQ_".to_owned();
        cq.append(w[1].as_str());
        if token(cq.as_str()).is_none() {
            return Err(MessageError::InvalidField);
        }
        let ghost head = cq@;
        let mut joined: Vec<String> = Vec::new();
        joined.push(cq);
        let mut i: usize = 2;
        assert(joined.deep_view() =~= seq![head]);
        while i < w.len()
            invariant
                2 <= i <= w.len(),
                joined.len() == i - 1,
                joined.deep_view() =~= seq![head] + w.deep_view().subrange(2, i as int),
            decreases w.len() - i,
        {
            let word: String = w[i].clone();
            let ghost before = joined.deep_view();
            joined.push(word);
            assert(joined.deep_view() =~= before.push(word@));
            assert(w.deep_view()[i as int] == word@);
            i = i + 1;
        }
        assert(joined.deep_view() =~= seq![head] + w.deep_view().skip(2));
        Ok(joined)
    } else {
        Ok(w)
    }
}

/// Encode standard, DXpedition, Field Day, RTTY, nonstandard-call and VHF
/// exchanges. ASCII case and repeated spaces are normalized (input is limited
/// to 37 ASCII characters before normalization). Hashed and nonstandard calls
/// must fit the native 11-character field.
///
/// Standard signed dB reports accept -50..=50. DXpedition reports accept
/// -30..=32 in 2 dB steps: odd inputs round down, e.g. -11 becomes -12 and
/// +11 becomes +10. RTTY reports are 529, 539, ..., 599; VHF reports are 52..=59
/// with serials 1..=2047.
///
/// Standard compound-call messages use the base-call convention; `/P` and `/R`
/// are retained. Other prefixes/suffixes need the explicit bracketed form (e.g.
/// `<W9XYZ> PJ4/K1ABC RR73`) to retain the complete compound call. Free text,
/// telemetry, WSPR and ambiguous unbracketed nonstandard pairs are unsupported.
pub fn encode(text: &str) -> (r: Result<[bool; 77], MessageError>)
    ensures
        match r {
            Ok(bits) => payload_of_text(text@) == Ok::<Seq<bool>, MessageError>(bits@),
            Err(error) => payload_of_text(text@) == Err::<Seq<bool>, MessageError>(error),
        },
{
    proof {
        reveal(payload_of_text);
    }
    if text.unicode_len() > 37 || !plain(text) {
        return Err(MessageError::InvalidField);
    }
    let normalized: String = uppercased(text);
    let w: Vec<String> = split_words(normalized.as_str());
    let mut i: usize = 0;
    while i < w.len()
        invariant
            i <= w.len(),
            text@.len() <= 37,
            all_plain(text@),
            w.deep_view() == words(uppercase(text@)),
            forall|k: int| 0 <= k < i ==> (#[trigger] w.deep_view()[k]).len() <= 13,
        decreases w.len() - i,
    {
        assert(w.deep_view()[i as int] == w@[i as int]@);
        if w[i].as_str().unicode_len() > 13 {
            proof {
                reveal(payload_of_text);
            }
            return Err(MessageError::UnsupportedType);
        }
        i = i + 1;
    }
    if w.len() < 2 {
        return Err(MessageError::UnsupportedType);
    }
    match join_words(w) {
        Ok(joined) => encode_words(joined.as_slice()),
        Err(error) => Err(error),
    }
}

} // verus!
