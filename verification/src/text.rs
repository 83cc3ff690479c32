//! Text as sequences of characters: what the message and option grammars need
//! of trimming, words, prefixes, case and numerals.
use vstd::prelude::*;
use vstd::string::*;

verus! {

/// `String::push` appends the given character at the end and changes nothing
/// else.
pub assume_specification[ String::push ](s: &mut String, c: char)
    ensures
        final(s)@ == old(s)@.push(c),
;

// ---------------------------------------------------------------------------
// Characters
// ---------------------------------------------------------------------------

/// Unicode's White_Space property.
pub open spec fn is_space(c: char) -> bool {
    ||| '\u{9}' <= c <= '\u{d}'
    ||| c == ' '
    ||| c == '\u{85}'
    ||| c == '\u{a0}'
    ||| c == '\u{1680}'
    ||| '\u{2000}' <= c <= '\u{200a}'
    ||| '\u{2028}' <= c <= '\u{2029}'
    ||| c == '\u{202f}'
    ||| c == '\u{205f}'
    ||| c == '\u{3000}'
}

pub open spec fn is_digit(c: char) -> bool {
    '0' <= c <= '9'
}

pub open spec fn is_upper(c: char) -> bool {
    'A' <= c <= 'Z'
}

pub open spec fn is_lower(c: char) -> bool {
    'a' <= c <= 'z'
}

/// The decimal digit of value `n`.
pub open spec fn digit(n: int) -> char {
    (48 + n) as char
}

/// The capital letter number `n`, from zero.
pub open spec fn letter(n: int) -> char {
    (65 + n) as char
}

/// ASCII upper case.
pub open spec fn upper(c: char) -> char {
    if is_lower(c) {
        (c as int - 32) as char
    } else {
        c
    }
}

pub fn white_space(c: char) -> (r: bool)
    ensures
        r == is_space(c),
{
    ('\u{9}' <= c && c <= '\u{d}') || c == ' ' || c == '\u{85}' || c == '\u{a0}' || c
        == '\u{1680}' || ('\u{2000}' <= c && c <= '\u{200a}') || ('\u{2028}' <= c && c
        <= '\u{2029}') || c == '\u{202f}' || c == '\u{205f}' || c == '\u{3000}'
}

pub fn ascii_digit(c: char) -> (r: bool)
    ensures
        r == is_digit(c),
{
    '0' <= c && c <= '9'
}

pub fn ascii_upper(c: char) -> (r: bool)
    ensures
        r == is_upper(c),
{
    'A' <= c && c <= 'Z'
}

pub fn digit_char(n: u32) -> (r: char)
    requires
        n < 10,
    ensures
        r == digit(n as int),
{
    (48 + n as u8) as char
}

pub fn letter_char(n: u32) -> (r: char)
    requires
        n < 26,
    ensures
        r == letter(n as int),
{
    (65 + n as u8) as char
}

/// The value of a decimal digit.
pub fn digit_value(c: char) -> (r: u32)
    requires
        is_digit(c),
    ensures
        r == c as int - 48,
        r < 10,
{
    c as u32 - 48
}

/// The number of a capital letter, from zero.
pub fn letter_value(c: char) -> (r: u32)
    requires
        is_upper(c),
    ensures
        r == c as int - 65,
        r < 26,
{
    c as u32 - 65
}

pub fn upper_char(c: char) -> (r: char)
    ensures
        r == upper(c),
{
    if 'a' <= c && c <= 'z' {
        (c as u32 - 32) as u8 as char
    } else {
        c
    }
}

// ---------------------------------------------------------------------------
// Sequences of characters
// ---------------------------------------------------------------------------

pub open spec fn uppercase(s: Seq<char>) -> Seq<char> {
    s.map_values(|c: char| upper(c))
}

pub open spec fn starts_with(s: Seq<char>, prefix: Seq<char>) -> bool {
    prefix.len() <= s.len() && s.take(prefix.len() as int) == prefix
}

pub open spec fn ends_with(s: Seq<char>, suffix: Seq<char>) -> bool {
    suffix.len() <= s.len() && s.skip(s.len() - suffix.len()) == suffix
}

pub open spec fn trim_start(s: Seq<char>) -> Seq<char>
    decreases s.len(),
{
    if s.len() > 0 && is_space(s[0]) {
        trim_start(s.skip(1))
    } else {
        s
    }
}

pub open spec fn trim_end(s: Seq<char>) -> Seq<char>
    decreases s.len(),
{
    if s.len() > 0 && is_space(s.last()) {
        trim_end(s.drop_last())
    } else {
        s
    }
}

pub open spec fn trim(s: Seq<char>) -> Seq<char> {
    trim_end(trim_start(s))
}

/// How many characters stand before the first space.
pub open spec fn word_length(s: Seq<char>) -> nat
    decreases s.len(),
{
    if s.len() == 0 || is_space(s[0]) {
        0
    } else {
        1 + word_length(s.skip(1))
    }
}

pub proof fn lemma_word_length(s: Seq<char>)
    ensures
        word_length(s) <= s.len(),
    decreases s.len(),
{
    if s.len() > 0 && !is_space(s[0]) {
        lemma_word_length(s.skip(1));
    }
}

pub proof fn lemma_trim_start_length(s: Seq<char>)
    ensures
        trim_start(s).len() <= s.len(),
        trim_start(s).len() > 0 ==> !is_space(trim_start(s)[0]),
    decreases s.len(),
{
    if s.len() > 0 && is_space(s[0]) {
        lemma_trim_start_length(s.skip(1));
    }
}

/// The runs of characters between spaces.
pub open spec fn words(s: Seq<char>) -> Seq<Seq<char>>
    decreases s.len(),
{
    let rest = trim_start(s);
    let n = word_length(rest) as int;
    if rest.len() == 0 {
        Seq::empty()
    } else {
        proof {
            lemma_trim_start_length(s);
            lemma_word_length(rest);
        }
        seq![rest.take(n)] + words(rest.skip(n))
    }
}

/// Decimal numeral without leading zeros.
pub open spec fn decimal(n: nat) -> Seq<char>
    decreases n,
{
    if n < 10 {
        seq![digit(n as int)]
    } else {
        decimal(n / 10).push(digit((n % 10) as int))
    }
}

/// The last `width` decimal digits of `n`, with leading zeros.
pub open spec fn digits(n: nat, width: nat) -> Seq<char>
    decreases width,
{
    if width == 0 {
        Seq::empty()
    } else {
        digits(n / 10, (width - 1) as nat).push(digit((n % 10) as int))
    }
}

/// Decimal numeral with at least `width` digits.
pub open spec fn padded(n: nat, width: nat) -> Seq<char> {
    if decimal(n).len() < width {
        digits(n, width)
    } else {
        decimal(n)
    }
}

/// The value that a run of decimal digits spells.
pub open spec fn decimal_value(s: Seq<char>) -> nat
    decreases s.len(),
{
    if s.len() == 0 {
        0
    } else {
        decimal_value(s.drop_last()) * 10 + (s.last() as int - 48) as nat
    }
}

pub open spec fn all_digits(s: Seq<char>) -> bool {
    forall|i: int| 0 <= i < s.len() ==> is_digit(#[trigger] s[i])
}

/// One hexadecimal digit in capitals.
pub open spec fn hex_digit(n: int) -> char {
    if n < 10 {
        digit(n)
    } else {
        letter(n - 10)
    }
}

/// Hexadecimal numeral in capitals, without leading zeros; empty for zero.
pub open spec fn hexadecimal(n: nat) -> Seq<char>
    decreases n,
{
    if n == 0 {
        Seq::empty()
    } else {
        hexadecimal(n / 16).push(hex_digit((n % 16) as int))
    }
}

// ---------------------------------------------------------------------------
// Strings and character vectors
// ---------------------------------------------------------------------------

pub fn string_of(s: &[char]) -> (r: String)
    ensures
        r@ == s@,
{
    let mut out: String = String::new();
    let mut i: usize = 0;
    assert(s@.take(0) =~= Seq::<char>::empty());
    while i < s.len()
        invariant
            i <= s@.len(),
            out@ == s@.take(i as int),
        decreases s@.len() - i,
    {
        out.push(s[i]);
        assert(s@.take(i as int).push(s@[i as int]) =~= s@.take(i + 1));
        i = i + 1;
    }
    assert(s@.take(s@.len() as int) =~= s@);
    out
}

pub fn same(a: &str, b: &str) -> (r: bool)
    ensures
        r == (a@ == b@),
{
    let n: usize = a.unicode_len();
    if n != b.unicode_len() {
        return false;
    }
    let mut i: usize = 0;
    while i < n
        invariant
            i <= n,
            n == a@.len(),
            n == b@.len(),
            a@.take(i as int) == b@.take(i as int),
        decreases n - i,
    {
        if a.get_char(i) != b.get_char(i) {
            assert(a@[i as int] != b@[i as int]);
            return false;
        }
        assert(a@.take(i + 1) =~= a@.take(i as int).push(a@[i as int]));
        assert(b@.take(i + 1) =~= b@.take(i as int).push(b@[i as int]));
        i = i + 1;
    }
    assert(a@.take(n as int) =~= a@);
    assert(b@.take(n as int) =~= b@);
    true
}

pub fn has_prefix(s: &str, prefix: &str) -> (r: bool)
    ensures
        r == starts_with(s@, prefix@),
{
    let n: usize = prefix.unicode_len();
    if n > s.unicode_len() {
        return false;
    }
    same(s.substring_char(0, n), prefix)
}

pub fn has_suffix(s: &str, suffix: &str) -> (r: bool)
    ensures
        r == ends_with(s@, suffix@),
{
    let n: usize = suffix.unicode_len();
    let m: usize = s.unicode_len();
    if n > m {
        return false;
    }
    same(s.substring_char(m - n, m), suffix)
}

pub fn starts_with_char(s: &str, c: char) -> (r: bool)
    ensures
        r == (s@.len() > 0 && s@[0] == c),
{
    s.unicode_len() > 0 && s.get_char(0) == c
}

pub fn has_char(s: &str, c: char) -> (r: bool)
    ensures
        r == s@.contains(c),
{
    let n: usize = s.unicode_len();
    let mut i: usize = 0;
    while i < n
        invariant
            i <= n,
            n == s@.len(),
            forall|k: int| 0 <= k < i ==> s@[k] != c,
        decreases n - i,
    {
        if s.get_char(i) == c {
            return true;
        }
        i = i + 1;
    }
    false
}

pub fn trimmed_start<'a>(s: &'a str) -> (r: &'a str)
    ensures
        r@ == trim_start(s@),
{
    let n: usize = s.unicode_len();
    let mut i: usize = 0;
    assert(s@.skip(0) =~= s@);
    while i < n && white_space(s.get_char(i))
        invariant
            i <= n,
            n == s@.len(),
            trim_start(s@) == trim_start(s@.skip(i as int)),
        decreases n - i,
    {
        assert(s@.skip(i as int).skip(1) =~= s@.skip(i + 1));
        i = i + 1;
    }
    let r: &str = s.substring_char(i, n);
    assert(r@ =~= s@.skip(i as int));
    r
}

pub fn trimmed_end<'a>(s: &'a str) -> (r: &'a str)
    ensures
        r@ == trim_end(s@),
{
    let mut n: usize = s.unicode_len();
    assert(s@.take(n as int) =~= s@);
    while n > 0 && white_space(s.get_char(n - 1))
        invariant
            n <= s@.len(),
            trim_end(s@) == trim_end(s@.take(n as int)),
        decreases n,
    {
        assert(s@.take(n as int).drop_last() =~= s@.take(n - 1));
        n = n - 1;
    }
    s.substring_char(0, n)
}

pub fn trimmed<'a>(s: &'a str) -> (r: &'a str)
    ensures
        r@ == trim(s@),
{
    trimmed_end(trimmed_start(s))
}

pub fn uppercased(s: &str) -> (r: String)
    ensures
        r@ == uppercase(s@),
{
    let n: usize = s.unicode_len();
    let mut out: String = String::new();
    let mut i: usize = 0;
    while i < n
        invariant
            i <= n,
            n == s@.len(),
            out@ =~= uppercase(s@).take(i as int),
        decreases n - i,
    {
        out.push(upper_char(s.get_char(i)));
        i = i + 1;
    }
    assert(uppercase(s@).take(n as int) =~= uppercase(s@));
    out
}

fn word_end(s: &str, from: usize) -> (r: usize)
    requires
        from <= s@.len(),
    ensures
        from <= r <= s@.len(),
        r == from + word_length(s@.skip(from as int)),
{
    let n: usize = s.unicode_len();
    let mut i: usize = from;
    while i < n && !white_space(s.get_char(i))
        invariant
            from <= i <= n,
            n == s@.len(),
            word_length(s@.skip(from as int)) == (i - from) + word_length(s@.skip(i as int)),
        decreases n - i,
    {
        assert(s@.skip(i as int).skip(1) =~= s@.skip(i + 1));
        i = i + 1;
    }
    i
}

pub fn split_words(s: &str) -> (r: Vec<String>)
    ensures
        r.deep_view() == words(s@),
{
    let mut out: Vec<String> = Vec::new();
    let mut rest: &str = trimmed_start(s);
    let ghost mut left: Seq<char> = s@;
    assert(out.deep_view() =~= Seq::<Seq<char>>::empty());
    assert(Seq::<Seq<char>>::empty() + words(s@) =~= words(s@));
    while rest.unicode_len() > 0
        invariant
            rest@ == trim_start(left),
            words(s@) == out.deep_view() + words(left),
        decreases rest@.len(),
    {
        proof {
            lemma_trim_start_length(left);
        }
        assert(rest@.skip(0) =~= rest@);
        let end: usize = word_end(rest, 0);
        let word: String = rest.substring_char(0, end).to_owned();
        let tail: &str = rest.substring_char(end, rest.unicode_len());
        assert(rest@.take(end as int) =~= word@);
        assert(tail@ =~= rest@.skip(end as int));
        let ghost before = out.deep_view();
        out.push(word);
        proof {
            assert(out.deep_view() =~= before.push(word@));
            assert(before + (seq![word@] + words(tail@)) =~= before.push(word@) + words(tail@));
            left = tail@;
            lemma_trim_start_length(left);
        }
        rest = trimmed_start(tail);
    }
    assert(out.deep_view() + words(left) =~= out.deep_view());
    out
}

pub fn append_decimal(out: &mut String, n: u64)
    ensures
        final(out)@ == old(out)@ + decimal(n as nat),
    decreases n,
{
    if n >= 10 {
        append_decimal(out, n / 10);
    }
    let ghost before = out@;
    out.push(digit_char((n % 10) as u32));
    assert(out@ =~= old(out)@ + decimal(n as nat));
}

pub fn append_digits(out: &mut String, n: u64, width: usize)
    ensures
        final(out)@ == old(out)@ + digits(n as nat, width as nat),
    decreases width,
{
    if width > 0 {
        append_digits(out, n / 10, width - 1);
        out.push(digit_char((n % 10) as u32));
    }
    assert(out@ =~= old(out)@ + digits(n as nat, width as nat));
}

pub fn append_hexadecimal(out: &mut String, n: u128)
    ensures
        final(out)@ == old(out)@ + hexadecimal(n as nat),
    decreases n,
{
    if n > 0 {
        append_hexadecimal(out, n / 16);
        let low: u32 = (n % 16) as u32;
        if low < 10 {
            out.push(digit_char(low));
        } else {
            out.push(letter_char(low - 10));
        }
    }
    assert(out@ =~= old(out)@ + hexadecimal(n as nat));
}

/// `decimal` as a string of its own.
pub fn decimal_text(n: u64) -> (r: String)
    ensures
        r@ == decimal(n as nat),
{
    let mut out: String = String::new();
    append_decimal(&mut out, n);
    assert(Seq::<char>::empty() + decimal(n as nat) =~= decimal(n as nat));
    out
}

/// A numeral is read back as the number it was written for.
pub proof fn numerals_are_read_back(n: nat)
    ensures
        decimal(n).len() > 0,
        all_digits(decimal(n)),
        decimal_value(decimal(n)) == n,
    decreases n,
{
    if n >= 10 {
        numerals_are_read_back(n / 10);
        let s = decimal(n);
        assert(s.drop_last() =~= decimal(n / 10));
        assert(s.last() == digit((n % 10) as int));
    } else {
        let s = decimal(n);
        assert(s.drop_last() =~= Seq::<char>::empty());
        assert(decimal_value(s.drop_last()) == 0);
    }
}

/// Capitals stay what they are, and white space at the ends is gone for good.
pub proof fn normal_text_is_stable(s: Seq<char>)
    ensures
        uppercase(uppercase(s)) == uppercase(s),
        uppercase(trim(uppercase(trim(s)))) == uppercase(trim(s)),
{
    assert(uppercase(uppercase(s)) =~= uppercase(s));
    let t = trim(s);
    lemma_trim_end(trim_start(s));
    lemma_trim_start(s);
    let u = uppercase(t);
    if t.len() > 0 {
        assert(trim_start(s)[0] == t[0]);
        assert(u[0] == upper(t[0]) && u.last() == upper(t.last()));
        assert(!is_space(u[0]) && !is_space(u.last()));
    }
    assert(trim(u) == u);
    assert(uppercase(uppercase(t)) =~= uppercase(t));
}

proof fn lemma_trim_start(s: Seq<char>)
    ensures
        trim_start(s).len() > 0 ==> !is_space(trim_start(s)[0]),
    decreases s.len(),
{
    if s.len() > 0 && is_space(s[0]) {
        lemma_trim_start(s.skip(1));
    }
}

pub proof fn lemma_trim_end(s: Seq<char>)
    ensures
        trim_end(s).len() <= s.len(),
        trim_end(s) == s.take(trim_end(s).len() as int),
        trim_end(s).len() > 0 ==> !is_space(trim_end(s).last()),
    decreases s.len(),
{
    if s.len() > 0 && is_space(s.last()) {
        lemma_trim_end(s.drop_last());
        let n = trim_end(s.drop_last()).len() as int;
        assert(s.drop_last().take(n) =~= s.take(n));
    } else {
        assert(s.take(s.len() as int) =~= s);
    }
}

/// Place of the first `c` in `s`, or the length without one.
pub open spec fn find_char(s: Seq<char>, c: char) -> int
    decreases s.len(),
{
    if s.len() == 0 || s[0] == c {
        0
    } else {
        1 + find_char(s.skip(1), c)
    }
}

/// Place of the first `c` at or behind `from`, or the length without one.
pub fn position_of(s: &str, c: char, from: usize) -> (r: usize)
    requires
        from <= s@.len(),
    ensures
        from <= r <= s@.len(),
        r == from + find_char(s@.skip(from as int), c),
        from == 0 ==> r == find_char(s@, c),
{
    let n: usize = s.unicode_len();
    let mut i: usize = from;
    assert(s@.skip(0) =~= s@);
    while i < n && s.get_char(i) != c
        invariant
            from <= i <= n,
            n == s@.len(),
            find_char(s@.skip(from as int), c) == (i - from) + find_char(s@.skip(i as int), c),
        decreases n - i,
    {
        assert(s@.skip(i as int).skip(1) =~= s@.skip(i + 1));
        i = i + 1;
    }
    i
}

pub proof fn lemma_find_char(s: Seq<char>, c: char)
    ensures
        0 <= find_char(s, c) <= s.len(),
        find_char(s, c) < s.len() ==> s[find_char(s, c)] == c,
        forall|i: int| 0 <= i < find_char(s, c) ==> #[trigger] s[i] != c,
    decreases s.len(),
{
    if s.len() > 0 && s[0] != c {
        let rest = s.skip(1);
        lemma_find_char(rest, c);
        assert forall|i: int| 0 <= i < find_char(s, c) implies #[trigger] s[i] != c by {
            if i > 0 {
                assert(s[i] == rest[i - 1]);
            }
        }
    }
}

pub proof fn lemma_three_digits(s: Seq<char>)
    requires
        s.len() == 3,
        all_digits(s),
    ensures
        decimal_value(s) <= 999,
        digits(decimal_value(s), 3) == s,
{
    reveal_with_fuel(decimal_value, 4);
    reveal_with_fuel(digits, 4);
    assert(is_digit(s[0]) && is_digit(s[1]) && is_digit(s[2]));
    let two = s.drop_last();
    let one = two.drop_last();
    assert(two.last() == s[1] && one.last() == s[0] && s.last() == s[2]);
    assert(one.drop_last() =~= Seq::<char>::empty());
    assert(digits(decimal_value(s), 3) =~= s);
}

// ---------------------------------------------------------------------------
// Words
// ---------------------------------------------------------------------------

/// A run of characters without spaces.
pub open spec fn is_word(s: Seq<char>) -> bool {
    s.len() > 0 && forall|i: int| 0 <= i < s.len() ==> !is_space(#[trigger] s[i])
}

proof fn lemma_word_length_of(word: Seq<char>, rest: Seq<char>)
    requires
        forall|i: int| 0 <= i < word.len() ==> !is_space(#[trigger] word[i]),
        rest.len() > 0 ==> is_space(rest[0]),
    ensures
        word_length(word + rest) == word.len(),
    decreases word.len(),
{
    let all = word + rest;
    if word.len() == 0 {
        assert(all =~= rest);
    } else {
        assert(!is_space(word[0]));
        assert(all.skip(1) =~= word.skip(1) + rest);
        lemma_word_length_of(word.skip(1), rest);
    }
}

/// The first word of a text, and the words behind it.
pub proof fn lemma_first_word(word: Seq<char>, rest: Seq<char>)
    requires
        is_word(word),
    ensures
        words(word + seq![' '] + rest) == seq![word] + words(seq![' '] + rest),
        words(seq![' '] + rest) == words(rest),
{
    let tail = seq![' '] + rest;
    let all = word + tail;
    assert(word + seq![' '] + rest =~= all);
    assert(!is_space(all[0]) && all[0] == word[0]);
    lemma_word_length_of(word, tail);
    assert(all.take(word.len() as int) =~= word);
    assert(all.skip(word.len() as int) =~= tail);
    assert(tail.skip(1) =~= rest);
}

pub proof fn lemma_last_word(word: Seq<char>)
    requires
        is_word(word),
    ensures
        words(word) == seq![word],
{
    lemma_word_length_of(word, Seq::empty());
    assert(word + Seq::<char>::empty() =~= word);
    assert(!is_space(word[0]));
    assert(word.take(word.len() as int) =~= word);
    assert(word.skip(word.len() as int) =~= Seq::<char>::empty());
    assert(words(Seq::<char>::empty()) =~= Seq::<Seq<char>>::empty());
    assert(words(word) =~= seq![word]);
}

pub proof fn lemma_three_words(a: Seq<char>, b: Seq<char>, c: Seq<char>)
    requires
        is_word(a),
        is_word(b),
        is_word(c),
    ensures
        words(a + seq![' '] + b + seq![' '] + c) == seq![a, b, c],
{
    let behind_b = b + seq![' '] + c;
    assert(a + seq![' '] + b + seq![' '] + c =~= a + seq![' '] + behind_b);
    lemma_first_word(a, behind_b);
    lemma_first_word(b, c);
    lemma_last_word(c);
    assert(seq![a] + (seq![b] + seq![c]) =~= seq![a, b, c]);
}

pub proof fn lemma_four_words(a: Seq<char>, b: Seq<char>, c: Seq<char>, d: Seq<char>)
    requires
        is_word(a),
        is_word(b),
        is_word(c),
        is_word(d),
    ensures
        words(a + seq![' '] + b + seq![' '] + c + seq![' '] + d) == seq![a, b, c, d],
{
    let behind = b + seq![' '] + c + seq![' '] + d;
    assert(a + seq![' '] + b + seq![' '] + c + seq![' '] + d =~= a + seq![' '] + behind);
    lemma_first_word(a, behind);
    lemma_three_words(b, c, d);
    assert(seq![a] + seq![b, c, d] =~= seq![a, b, c, d]);
}

/// Words joined by single spaces.
pub open spec fn joined(w: Seq<Seq<char>>) -> Seq<char>
    decreases w.len(),
{
    if w.len() == 0 {
        Seq::empty()
    } else if w.len() == 1 {
        w[0]
    } else {
        w[0] + seq![' '] + joined(w.skip(1))
    }
}

pub open spec fn all_words(w: Seq<Seq<char>>) -> bool {
    forall|i: int| 0 <= i < w.len() ==> is_word(#[trigger] w[i])
}

/// Joined words are read back.
pub proof fn joined_words_are_read_back(w: Seq<Seq<char>>)
    requires
        all_words(w),
    ensures
        words(joined(w)) == w,
    decreases w.len(),
{
    if w.len() == 0 {
        assert(words(Seq::<char>::empty()) =~= w);
    } else if w.len() == 1 {
        lemma_last_word(w[0]);
        assert(seq![w[0]] =~= w);
    } else {
        let rest = w.skip(1);
        assert forall|i: int| 0 <= i < rest.len() implies is_word(#[trigger] rest[i]) by {
            assert(rest[i] == w[i + 1]);
        }
        joined_words_are_read_back(rest);
        lemma_first_word(w[0], joined(rest));
        assert(seq![w[0]] + rest =~= w);
    }
}

/// Every character of every word is one of the text's.
pub open spec fn is_spelled_from(w: Seq<Seq<char>>, s: Seq<char>) -> bool {
    forall|i: int, j: int|
        0 <= i < w.len() && 0 <= j < w[i].len() ==> s.contains(#[trigger] w[i][j])
}

/// What is read as words are words, of the text's characters, and no longer than the text
/// when they are joined again.
pub proof fn read_words_are_words(s: Seq<char>)
    ensures
        all_words(words(s)),
        is_spelled_from(words(s), s),
        joined(words(s)).len() <= s.len(),
    decreases s.len(), 0int,
{
    let rest = trim_start(s);
    let n = word_length(rest) as int;
    lemma_trim_start_length(s);
    lemma_word_length(rest);
    lemma_trim_start_behind(s);
    if rest.len() > 0 {
        let w = words(s);
        let tail = rest.skip(n);
        let first = rest.take(n);
        read_words_are_words(tail);
        lemma_word_part(rest);
        assert(w =~= seq![first] + words(tail));
        assert(w.skip(1) =~= words(tail));
        assert forall|i: int| 0 <= i < w.len() implies is_word(#[trigger] w[i]) by {
            if i > 0 {
                assert(w[i] == words(tail)[i - 1]);
            }
        }
        assert forall|i: int, j: int| 0 <= i < w.len() && 0 <= j < w[i].len() implies s.contains(
            #[trigger] w[i][j],
        ) by {
            let behind = s.len() - rest.len();
            if i == 0 {
                assert(s[behind + j] == rest[j]);
            } else {
                assert(w[i] == words(tail)[i - 1]);
                let c = words(tail)[i - 1][j];
                assert(tail.contains(c));
                let k = choose|k: int| 0 <= k < tail.len() && tail[k] == c;
                assert(s[behind + n + k] == c);
            }
        }
        if words(tail).len() > 0 {
            if tail.len() == 0 {
                assert(trim_start(tail).len() == 0);
            }
            lemma_joined_tail(tail);
        }
    }
}

/// What follows a word starts with a space, so that its own words are shorter.
proof fn lemma_joined_tail(tail: Seq<char>)
    requires
        tail.len() > 0 ==> is_space(tail[0]),
        words(tail).len() > 0,
    ensures
        joined(words(tail)).len() < tail.len(),
    decreases tail.len(), 1int,
{
    let rest = tail.skip(1);
    if tail.len() == 0 {
        assert(trim_start(tail).len() == 0);
    }
    assert(trim_start(tail) == trim_start(rest));
    assert(words(tail) == words(rest));
    read_words_are_words(rest);
}

proof fn lemma_trim_start_behind(s: Seq<char>)
    ensures
        trim_start(s).len() <= s.len(),
        trim_start(s) == s.skip(s.len() - trim_start(s).len()),
    decreases s.len(),
{
    if s.len() > 0 && is_space(s[0]) {
        lemma_trim_start_behind(s.skip(1));
        let n = s.len() - trim_start(s).len();
        assert(s.skip(1).skip(n - 1) =~= s.skip(n));
    } else {
        assert(s.skip(0) =~= s);
    }
}

proof fn lemma_word_part(s: Seq<char>)
    ensures
        word_length(s) <= s.len(),
        forall|i: int| 0 <= i < word_length(s) ==> !is_space(#[trigger] s[i]),
        word_length(s) < s.len() ==> is_space(s[word_length(s) as int]),
        s.len() > 0 && !is_space(s[0]) ==> word_length(s) > 0,
    decreases s.len(),
{
    if s.len() > 0 && !is_space(s[0]) {
        let rest = s.skip(1);
        lemma_word_part(rest);
        assert forall|i: int| 0 <= i < word_length(s) implies !is_space(#[trigger] s[i]) by {
            if i > 0 {
                assert(s[i] == rest[i - 1]);
            }
        }
    }
}

} // verus!
