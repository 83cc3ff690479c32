//! Character alphabets of the wire format, callsign normal form and hashes.
use vstd::prelude::*;
use vstd::string::*;
use crate::text::{
    ascii_digit, ascii_upper, digit, is_digit, is_upper, letter, string_of, trim, trimmed, upper,
    uppercase, uppercased,
};

verus! {

/// Space, digits, letters and the stroke.
pub const CALL_ALPHABET: [char; 38] = [
    ' ', '0', '1', '2', '3', '4', '5', '6', '7', '8', '9', 'A', 'B', 'C', 'D', 'E', 'F', 'G', 'H',
    'I', 'J', 'K', 'L', 'M', 'N', 'O', 'P', 'Q', 'R', 'S', 'T', 'U', 'V', 'W', 'X', 'Y', 'Z', '/',
];

/// What free text is made of.
pub const TEXT_ALPHABET: [char; 42] = [
    ' ', '0', '1', '2', '3', '4', '5', '6', '7', '8', '9', 'A', 'B', 'C', 'D', 'E', 'F', 'G', 'H',
    'I', 'J', 'K', 'L', 'M', 'N', 'O', 'P', 'Q', 'R', 'S', 'T', 'U', 'V', 'W', 'X', 'Y', 'Z', '+',
    '-', '.', '/', '?',
];

/// Space and letters.
pub const LETTERS: [char; 27] = [
    ' ', 'A', 'B', 'C', 'D', 'E', 'F', 'G', 'H', 'I', 'J', 'K', 'L', 'M', 'N', 'O', 'P', 'Q', 'R',
    'S', 'T', 'U', 'V', 'W', 'X', 'Y', 'Z',
];

/// Digits and letters.
pub const ALPHANUMERIC: [char; 36] = [
    '0', '1', '2', '3', '4', '5', '6', '7', '8', '9', 'A', 'B', 'C', 'D', 'E', 'F', 'G', 'H', 'I',
    'J', 'K', 'L', 'M', 'N', 'O', 'P', 'Q', 'R', 'S', 'T', 'U', 'V', 'W', 'X', 'Y', 'Z',
];

/// `width` characters that spell `value` in the base of the alphabet's length.
pub open spec fn base_digits(value: nat, width: nat, alphabet: Seq<char>) -> Seq<char>
    decreases width,
{
    if width == 0 {
        Seq::empty()
    } else {
        base_digits(value / alphabet.len(), (width - 1) as nat, alphabet).push(
            alphabet[(value % alphabet.len()) as int],
        )
    }
}

/// What is left of `value` above its `width` lowest digits.
pub open spec fn excess(value: nat, width: nat, base: nat) -> nat
    decreases width,
{
    if width == 0 {
        value
    } else {
        excess(value / base, (width - 1) as nat, base)
    }
}

/// The characters of `value`, unless it needs more than `width` of them.
pub fn base_text(value: u128, width: usize, alphabet: &[char]) -> (r: Option<String>)
    requires
        alphabet@.len() > 0,
    ensures
        match r {
            Some(text) => excess(value as nat, width as nat, alphabet@.len()) == 0 && text@
                == base_digits(value as nat, width as nat, alphabet@),
            None => excess(value as nat, width as nat, alphabet@.len()) != 0,
        },
{
    let base: u128 = alphabet.len() as u128;
    let mut reversed: Vec<char> = Vec::new();
    let mut rest: u128 = value;
    let mut n: usize = 0;
    assert(base_digits(value as nat, width as nat, alphabet@) =~= base_digits(
        value as nat,
        width as nat,
        alphabet@,
    ) + reversed@.reverse());
    while n < width
        invariant
            n <= width,
            base == alphabet@.len(),
            base > 0,
            reversed.len() == n,
            excess(value as nat, width as nat, alphabet@.len()) == excess(
                rest as nat,
                (width - n) as nat,
                alphabet@.len(),
            ),
            base_digits(value as nat, width as nat, alphabet@) == base_digits(
                rest as nat,
                (width - n) as nat,
                alphabet@,
            ) + reversed@.reverse(),
        decreases width - n,
    {
        let c: char = alphabet[(rest % base) as usize];
        let ghost before = reversed@;
        let ghost high = base_digits((rest / base) as nat, (width - n - 1) as nat, alphabet@);
        reversed.push(c);
        proof {
            assert(rest % base < base) by (nonlinear_arith)
                requires
                    base > 0,
            ;
            assert(high.push(c) + before.reverse() =~= high + reversed@.reverse());
        }
        rest = rest / base;
        n = n + 1;
    }
    if rest != 0 {
        return None;
    }
    let mut out: Vec<char> = Vec::new();
    let mut i: usize = 0;
    while i < width
        invariant
            i <= width,
            reversed.len() == width,
            out@ =~= reversed@.reverse().take(i as int),
        decreases width - i,
    {
        out.push(reversed[width - 1 - i]);
        i = i + 1;
    }
    proof {
        assert(out@ =~= reversed@.reverse());
        assert(base_digits(rest as nat, 0, alphabet@) + reversed@.reverse() =~= out@);
    }
    Some(string_of(out.as_slice()))
}

/// A letter, a digit or the stroke.
pub open spec fn is_call_char(c: char) -> bool {
    is_upper(c) || is_digit(c) || c == '/'
}

pub open spec fn all_call_chars(s: Seq<char>) -> bool {
    forall|i: int| 0 <= i < s.len() ==> is_call_char(#[trigger] s[i])
}

/// `s` without an enclosing pair of angle brackets.
pub open spec fn without_brackets(s: Seq<char>) -> Seq<char> {
    if s.len() > 0 && s[0] == '<' && s.last() == '>' {
        s.subrange(1, s.len() - 1)
    } else {
        s
    }
}

/// A callsign as it is remembered: trimmed, without brackets, in capitals, and
/// of 3 to 13 letters, digits and strokes. `None` for anything else.
pub open spec fn normal_call(call: Seq<char>) -> Option<Seq<char>> {
    let bare = uppercase(without_brackets(trim(call)));
    if 3 <= bare.len() <= 13 && all_call_chars(bare) {
        Some(bare)
    } else {
        None
    }
}

pub fn only_call_chars(s: &str) -> (r: bool)
    ensures
        r == all_call_chars(s@),
{
    let n: usize = s.unicode_len();
    let mut i: usize = 0;
    while i < n
        invariant
            i <= n,
            n == s@.len(),
            forall|k: int| 0 <= k < i ==> is_call_char(#[trigger] s@[k]),
        decreases n - i,
    {
        let c: char = s.get_char(i);
        if !(ascii_upper(c) || ascii_digit(c) || c == '/') {
            assert(!is_call_char(s@[i as int]));
            return false;
        }
        i = i + 1;
    }
    true
}

pub fn normalize_call(call: &str) -> (r: Option<String>)
    ensures
        r.deep_view() == normal_call(call@),
{
    let inner: &str = trimmed(call);
    let n: usize = inner.unicode_len();
    let bare: &str = if n > 0 && inner.get_char(0) == '<' && inner.get_char(n - 1) == '>' {
        inner.substring_char(1, n - 1)
    } else {
        inner
    };
    let text: String = uppercased(bare);
    let length: usize = text.as_str().unicode_len();
    if length < 3 || length > 13 || !only_call_chars(text.as_str()) {
        None
    } else {
        Some(text)
    }
}

// ---------------------------------------------------------------------------
// Hashes
// ---------------------------------------------------------------------------

/// Place of a character in the call alphabet.
pub open spec fn call_index(c: char) -> nat {
    if is_digit(c) {
        (c as int - 48 + 1) as nat
    } else if is_upper(c) {
        (c as int - 65 + 11) as nat
    } else if c == '/' {
        37
    } else {
        0
    }
}

/// The first `n` characters of a call, padded with spaces, in base 38.
pub open spec fn packed_call(call: Seq<char>, n: nat) -> nat
    decreases n,
{
    if n == 0 {
        0
    } else {
        packed_call(call, (n - 1) as nat) * 38 + (if n - 1 < call.len() {
            call_index(call[n - 1])
        } else {
            0
        })
    }
}

pub const HASH_MULTIPLIER: u64 = 47_055_833_459;

/// The product from whose upper bits all hashes of a call are taken.
pub open spec fn mixed_call(call: Seq<char>) -> nat {
    (packed_call(call, 11) * HASH_MULTIPLIER as nat) % 0x1_0000_0000_0000_0000
}

/// The 10 bit hash of a call.
pub open spec fn hash10(call: Seq<char>) -> nat {
    mixed_call(call) / 0x40_0000_0000_0000
}

/// The 12 bit hash of a call.
pub open spec fn hash12(call: Seq<char>) -> nat {
    mixed_call(call) / 0x10_0000_0000_0000
}

/// The 22 bit hash of a call.
pub open spec fn hash22(call: Seq<char>) -> nat {
    mixed_call(call) / 0x400_0000_0000
}

pub fn index_of(c: char) -> (r: u64)
    ensures
        r == call_index(c),
        r < 38,
{
    if ascii_digit(c) {
        c as u64 - 48 + 1
    } else if ascii_upper(c) {
        c as u64 - 65 + 11
    } else if c == '/' {
        37
    } else {
        0
    }
}

fn mixed(call: &str) -> (r: u64)
    ensures
        r == mixed_call(call@),
{
    let length: usize = call.unicode_len();
    let mut packed: u64 = 0;
    let mut bound: u64 = 1;
    let mut n: usize = 0;
    while n < 11
        invariant
            n <= 11,
            length == call@.len(),
            packed == packed_call(call@, n as nat),
            packed < bound,
            n == 0 ==> bound == 1,
            n == 1 ==> bound == 38,
            n == 2 ==> bound == 1444,
            n == 3 ==> bound == 54872,
            n == 4 ==> bound == 2085136,
            n == 5 ==> bound == 79235168,
            n == 6 ==> bound == 3010936384,
            n == 7 ==> bound == 114415582592,
            n == 8 ==> bound == 4347792138496,
            n == 9 ==> bound == 165216101262848,
            n == 10 ==> bound == 6278211847988224,
        decreases 11 - n,
    {
        let index: u64 = if n < length { index_of(call.get_char(n)) } else { 0 };
        packed = packed * 38 + index;
        bound = bound * 38;
        n = n + 1;
    }
    packed.wrapping_mul(HASH_MULTIPLIER)
}

/// The 10-, 12- and 22-bit hashes of a call.
pub fn call_hashes(call: &str) -> (r: [u32; 3])
    ensures
        r@[0] == hash10(call@),
        r@[1] == hash12(call@),
        r@[2] == hash22(call@),
        r@[0] < 1024,
        r@[1] < 4096,
        r@[2] < 4194304,
{
    let product: u64 = mixed(call);
    [
        (product / 0x40_0000_0000_0000) as u32,
        (product / 0x10_0000_0000_0000) as u32,
        (product / 0x400_0000_0000) as u32,
    ]
}

/// The hashes of a call are prefixes of each other.
pub proof fn hashes_nest(call: Seq<char>)
    ensures
        hash10(call) == hash12(call) / 4,
        hash12(call) == hash22(call) / 1024,
        hash22(call) < 4194304,
{
}

/// A normal form is its own normal form.
pub proof fn normal_calls_are_stable(call: Seq<char>)
    ensures
        normal_call(call) matches Some(bare) ==> normal_call(bare) == Some(bare),
{
    if let Some(bare) = normal_call(call) {
        assert(bare.len() > 0 && is_call_char(bare[0]) && is_call_char(bare.last()));
        assert(trim(bare) == bare);
        assert(without_brackets(bare) == bare);
        assert(uppercase(bare) =~= bare) by {
            assert forall|i: int| 0 <= i < bare.len() implies upper(bare[i]) == bare[i] by {
                assert(is_call_char(bare[i]));
            }
        }
    }
}

} // verus!
