//! Rendering for WAV decode events.
use vstd::prelude::*;
use vstd::string::*;
pub use crate::output_options::{OutputFormat, OutputOptions};
use crate::text::{
    append_decimal, append_digits, decimal, decimal_value, digit_value, digits, is_digit, padded,
    all_digits, same,
};

verus! {

// ---------------------------------------------------------------------------
// Events
// ---------------------------------------------------------------------------

/// A number as it is shown: plainly, with one and two decimals, and as a signed
/// offset with two decimals.
#[derive(Debug)]
pub struct NumberCell {
    pub unsigned: Option<u64>,
    pub text: String,
    pub tenths: String,
    pub hundredths: String,
    pub offset: String,
}

/// A value of an event. Lists and records carry their text.
#[derive(Debug)]
pub enum Cell {
    Null,
    Flag(bool),
    Number(NumberCell),
    Text(String),
    List(Vec<Cell>, String),
    Record(Vec<(String, Cell)>, String),
}

/// The value of the first entry with the given name, from `from` on.
pub open spec fn find_cell(entries: Seq<(String, Cell)>, name: Seq<char>, from: int) -> Option<Cell>
    decreases entries.len() - from,
{
    if from >= entries.len() {
        None
    } else if entries[from].0@ == name {
        Some(entries[from].1)
    } else {
        find_cell(entries, name, from + 1)
    }
}

/// A member of a record.
pub open spec fn cell_of(record: Option<Cell>, name: Seq<char>) -> Option<Cell> {
    match record {
        Some(Cell::Record(entries, _)) => find_cell(entries@, name, 0),
        _ => None,
    }
}

pub open spec fn text_cell(cell: Option<Cell>) -> Option<Seq<char>> {
    match cell {
        Some(Cell::Text(text)) => Some(text@),
        _ => None,
    }
}

/// The value of a nonnegative integer, zero for anything else.
pub open spec fn integer(cell: Option<Cell>) -> nat {
    match cell {
        Some(Cell::Number(number)) => match number.unsigned {
            Some(n) => n as nat,
            None => 0,
        },
        _ => 0,
    }
}

/// A decimal numeral of at most 128 bits with an optional plus sign.
pub open spec fn wide_value(s: Seq<char>) -> Option<nat> {
    let numeral = if s.len() > 0 && s[0] == '+' {
        s.skip(1)
    } else {
        s
    };
    if numeral.len() > 0 && all_digits(numeral) && decimal_value(numeral) <= u128::MAX {
        Some(decimal_value(numeral))
    } else {
        None
    }
}

/// An integer that stands as a number or as text.
pub open spec fn whole(cell: Option<Cell>) -> Option<nat> {
    match cell {
        Some(Cell::Text(text)) => wide_value(text@),
        Some(Cell::Number(number)) => match number.unsigned {
            Some(n) => Some(n as nat),
            None => None,
        },
        _ => None,
    }
}

/// The text of a value.
pub open spec fn value_text(cell: Cell) -> Seq<char> {
    match cell {
        Cell::Null => "—"@,
        Cell::Flag(flag) => if flag {
            "true"@
        } else {
            "false"@
        },
        Cell::Number(number) => number.text@,
        Cell::Text(text) => text@,
        Cell::List(_, text) => text@,
        Cell::Record(_, text) => text@,
    }
}

/// The text of a value, a dash without one.
pub open spec fn display(cell: Option<Cell>) -> Seq<char> {
    match cell {
        Some(value) => value_text(value),
        None => "—"@,
    }
}

pub open spec fn tenths_of(cell: Option<Cell>) -> Seq<char> {
    match cell {
        Some(Cell::Number(number)) => number.tenths@,
        _ => "—"@,
    }
}

pub open spec fn hundredths_of(cell: Option<Cell>) -> Seq<char> {
    match cell {
        Some(Cell::Number(number)) => number.hundredths@,
        _ => "—"@,
    }
}

pub open spec fn offset_of(cell: Option<Cell>) -> Seq<char> {
    match cell {
        Some(Cell::Number(number)) => number.offset@,
        _ => "—"@,
    }
}

/// What `str::to_uppercase` makes of a text.
pub uninterp spec fn unicode_upper(text: Seq<char>) -> Seq<char>;

/// `str::to_uppercase` maps every character to its Unicode upper case. The result
/// depends on the text alone.
#[verifier::external_body]
fn to_unicode_upper(text: &str) -> (r: String)
    ensures
        r@ == unicode_upper(text@),
{
    text.to_uppercase()
}

impl Cell {
    /// A member of a record.
    pub fn get<'a>(&'a self, name: &str) -> (r: Option<&'a Cell>)
        ensures
            match r {
                Some(cell) => cell_of(Some(*self), name@) == Some(*cell),
                None => cell_of(Some(*self), name@) is None,
            },
    {
        match self {
            Cell::Record(entries, _) => {
                let mut i: usize = 0;
                while i < entries.len()
                    invariant
                        i <= entries.len(),
                        cell_of(Some(*self), name@) == find_cell(entries@, name@, 0),
                        find_cell(entries@, name@, 0) == find_cell(entries@, name@, i as int),
                    decreases entries.len() - i,
                {
                    if same(entries[i].0.as_str(), name) {
                        return Some(&entries[i].1);
                    }
                    i = i + 1;
                }
                None
            },
            _ => None,
        }
    }
}

pub open spec fn seen(cell: Option<&Cell>) -> Option<Cell> {
    match cell {
        Some(found) => Some(*found),
        None => None,
    }
}

fn within<'a>(cell: Option<&'a Cell>, name: &str) -> (r: Option<&'a Cell>)
    ensures
        seen(r) == cell_of(seen(cell), name@),
{
    match cell {
        Some(record) => record.get(name),
        None => None,
    }
}

fn show(cell: Option<&Cell>) -> (r: String)
    ensures
        r@ == display(seen(cell)),
{
    match cell {
        None => "—".to_owned(),
        Some(Cell::Null) => "—".to_owned(),
        Some(Cell::Flag(true)) => "true".to_owned(),
        Some(Cell::Flag(false)) => "false".to_owned(),
        Some(Cell::Number(number)) => number.text.clone(),
        Some(Cell::Text(text)) => text.clone(),
        Some(Cell::List(_, text)) => text.clone(),
        Some(Cell::Record(_, text)) => text.clone(),
    }
}

fn count_of(cell: Option<&Cell>) -> (r: u64)
    ensures
        r == integer(seen(cell)),
{
    match cell {
        Some(Cell::Number(number)) => match number.unsigned {
            Some(n) => n,
            None => 0,
        },
        _ => 0,
    }
}

fn text_in<'a>(cell: Option<&'a Cell>) -> (r: Option<&'a str>)
    ensures
        match r {
            Some(text) => text_cell(seen(cell)) == Some(text@),
            None => text_cell(seen(cell)) is None,
        },
{
    match cell {
        Some(Cell::Text(text)) => Some(text.as_str()),
        _ => None,
    }
}

fn text_is(cell: Option<&Cell>, expected: &str) -> (r: bool)
    ensures
        r == (text_cell(seen(cell)) == Some(expected@)),
{
    match text_in(cell) {
        Some(text) => same(text, expected),
        None => false,
    }
}

proof fn lemma_prefix_value(s: Seq<char>, i: int)
    requires
        all_digits(s),
        0 <= i <= s.len(),
    ensures
        decimal_value(s.take(i)) <= decimal_value(s),
    decreases s.len() - i,
{
    if i < s.len() {
        lemma_prefix_value(s, i + 1);
        assert(s.take(i + 1).drop_last() =~= s.take(i));
        assert(is_digit(s[i]));
        assert(decimal_value(s.take(i + 1)) >= decimal_value(s.take(i)) * 10);
    } else {
        assert(s.take(i) =~= s);
    }
}

fn wide_number(text: &str) -> (r: Option<u128>)
    ensures
        match r {
            Some(n) => wide_value(text@) == Some(n as nat),
            None => wide_value(text@) is None,
        },
{
    let length: usize = text.unicode_len();
    let s: &str = if length > 0 && text.get_char(0) == '+' {
        text.substring_char(1, length)
    } else {
        text
    };
    assert(text@.len() > 0 && text@[0] == '+' ==> s@ =~= text@.skip(1));
    let n: usize = s.unicode_len();
    if n == 0 {
        return None;
    }
    if !crate::message_encode::only_digits(s) {
        return None;
    }
    let mut value: u128 = 0;
    let mut i: usize = 0;
    assert(s@.take(0) =~= Seq::<char>::empty());
    while i < n
        invariant
            i <= n,
            n == s@.len(),
            n > 0,
            all_digits(s@),
            s@ == (if text@.len() > 0 && text@[0] == '+' {
                text@.skip(1)
            } else {
                text@
            }),
            value == decimal_value(s@.take(i as int)),
        decreases n - i,
    {
        assert(is_digit(s@[i as int]));
        let d: u128 = digit_value(s.get_char(i)) as u128;
        proof {
            assert(s@.take(i + 1).drop_last() =~= s@.take(i as int));
            lemma_prefix_value(s@, i + 1);
        }
        if value > u128::MAX / 10 || value * 10 > u128::MAX - d {
            return None;
        }
        value = value * 10 + d;
        i = i + 1;
    }
    assert(s@.take(n as int) =~= s@);
    Some(value)
}

fn parse_integer(cell: Option<&Cell>) -> (r: Option<u128>)
    ensures
        match r {
            Some(n) => whole(seen(cell)) == Some(n as nat),
            None => whole(seen(cell)) is None,
        },
{
    match cell {
        Some(Cell::Text(text)) => wide_number(text.as_str()),
        Some(Cell::Number(number)) => match number.unsigned {
            Some(n) => Some(n as u128),
            None => None,
        },
        _ => None,
    }
}

// ---------------------------------------------------------------------------
// Times
// ---------------------------------------------------------------------------

/// Hours, minutes, seconds and milliseconds.
pub open spec fn clock(millis: nat, relative: bool) -> Seq<char> {
    (if relative {
        "+"@
    } else {
        ""@
    }) + padded(millis / 3_600_000, 2) + ":"@ + digits(millis / 60_000 % 60, 2) + ":"@ + digits(
        millis / 1_000 % 60,
        2,
    ) + "."@ + digits(millis % 1_000, 3)
}

/// Seconds with three decimals.
pub open spec fn duration(millis: nat) -> Seq<char> {
    decimal(millis / 1_000) + "."@ + digits(millis % 1_000, 3) + " s"@
}

/// Milliseconds of a number of 12 kHz samples; the product is limited to 128
/// bits.
pub open spec fn sample_millis(samples: nat) -> nat {
    (if samples * 1_000 > u128::MAX {
        u128::MAX as nat
    } else {
        samples * 1_000
    }) / 12_000
}

/// The time of day of a window, or its place in the recording.
pub open spec fn event_time(event: Cell) -> Seq<char> {
    match whole(cell_of(Some(event), "window_start_utc_ns"@)) {
        Some(ns) => clock(ns / 1_000_000 % 86_400_000, false),
        None => match whole(cell_of(Some(event), "window_start_sample"@)) {
            Some(samples) => clock(sample_millis(samples), true),
            None => "—"@,
        },
    }
}

fn append_wide(out: &mut String, n: u128)
    ensures
        final(out)@ == old(out)@ + decimal(n as nat),
    decreases n,
{
    if n >= 10 {
        append_wide(out, n / 10);
    }
    out.push(crate::text::digit_char((n % 10) as u32));
    assert(out@ =~= old(out)@ + decimal(n as nat));
}

proof fn lemma_one_digit(n: nat)
    ensures
        n >= 10 ==> decimal(n).len() >= 2,
        n < 10 ==> decimal(n).len() == 1,
{
    if n >= 10 {
        lemma_some_digit(n / 10);
    }
}

proof fn lemma_some_digit(n: nat)
    ensures
        decimal(n).len() >= 1,
    decreases n,
{
    if n >= 10 {
        lemma_some_digit(n / 10);
    }
}

fn format_clock(millis: u128, relative: bool) -> (r: String)
    ensures
        r@ == clock(millis as nat, relative),
{
    let mut out: String = String::new();
    if relative {
        out.append("+");
    } else {
        out.append("");
    }
    let hours: u128 = millis / 3_600_000;
    proof {
        lemma_one_digit(hours as nat);
    }
    if hours < 10 {
        append_digits(&mut out, hours as u64, 2);
    } else {
        append_wide(&mut out, hours);
    }
    out.append(":");
    append_digits(&mut out, (millis / 60_000 % 60) as u64, 2);
    out.append(":");
    append_digits(&mut out, (millis / 1_000 % 60) as u64, 2);
    out.append(".");
    append_digits(&mut out, (millis % 1_000) as u64, 3);
    assert(out@ =~= clock(millis as nat, relative));
    out
}

fn format_duration(millis: u128) -> (r: String)
    ensures
        r@ == duration(millis as nat),
{
    let mut out: String = String::new();
    append_wide(&mut out, millis / 1_000);
    out.append(".");
    append_digits(&mut out, (millis % 1_000) as u64, 3);
    out.append(" s");
    assert(out@ =~= duration(millis as nat));
    out
}

fn millis_of(samples: u128) -> (r: u128)
    ensures
        r == sample_millis(samples as nat),
{
    if samples > u128::MAX / 1_000 {
        u128::MAX / 12_000
    } else {
        samples * 1_000 / 12_000
    }
}

fn format_time(event: &Cell) -> (r: String)
    ensures
        r@ == event_time(*event),
{
    match parse_integer(event.get("window_start_utc_ns")) {
        Some(ns) => format_clock(ns / 1_000_000 % 86_400_000, false),
        None => match parse_integer(event.get("window_start_sample")) {
            Some(samples) => format_clock(millis_of(samples), true),
            None => "—".to_owned(),
        },
    }
}

// ---------------------------------------------------------------------------
// Columns
// ---------------------------------------------------------------------------

/// The least width of a column.
pub open spec fn least_width(field: Seq<char>) -> nat {
    if field == "time"@ {
        13
    } else if field == "mode"@ {
        4
    } else if field == "ap_type"@ {
        3
    } else if field == "snr"@ {
        3
    } else if field == "dt"@ || field == "freq"@ {
        6
    } else if field == "message"@ {
        37
    } else {
        0
    }
}

fn field_width(field: &str) -> (r: usize)
    ensures
        r == least_width(field@),
{
    if same(field, "time") {
        13
    } else if same(field, "mode") {
        4
    } else if same(field, "ap_type") {
        3
    } else if same(field, "snr") {
        3
    } else if same(field, "dt") || same(field, "freq") {
        6
    } else if same(field, "message") {
        37
    } else {
        0
    }
}

/// The heading of a column.
pub open spec fn heading(field: Seq<char>) -> Seq<char> {
    if field == "time"@ {
        "Time"@
    } else if field == "mode"@ {
        "Mode"@
    } else if field == "snr"@ {
        "SNR"@
    } else if field == "dt"@ {
        "DT"@
    } else if field == "freq"@ {
        "Freq"@
    } else if field == "message"@ {
        "Message"@
    } else if field == "type"@ {
        "Type"@
    } else if field == "fec"@ {
        "FEC"@
    } else if field == "bp_iterations"@ {
        "BP iterations"@
    } else if field == "osd_pass"@ {
        "OSD pass"@
    } else if field == "hard_errors"@ {
        "Hard errors"@
    } else if field == "pass"@ {
        "Pass"@
    } else if field == "hashes"@ {
        "Hashes"@
    } else if field == "payload"@ {
        "Payload"@
    } else if field == "assisted"@ {
        "Assisted"@
    } else if field == "ap_type"@ {
        "AP"@
    } else if field == "confidence"@ {
        "Confidence"@
    } else if field == "questionable"@ {
        "Questionable"@
    } else if field == "grid"@ {
        "Grid"@
    } else if field == "window_start_sample"@ {
        "Window start sample"@
    } else {
        "Unknown"@
    }
}

fn field_header(field: &str) -> (r: &'static str)
    ensures
        r@ == heading(field@),
{
    if same(field, "time") {
        "Time"
    } else if same(field, "mode") {
        "Mode"
    } else if same(field, "snr") {
        "SNR"
    } else if same(field, "dt") {
        "DT"
    } else if same(field, "freq") {
        "Freq"
    } else if same(field, "message") {
        "Message"
    } else if same(field, "type") {
        "Type"
    } else if same(field, "fec") {
        "FEC"
    } else if same(field, "bp_iterations") {
        "BP iterations"
    } else if same(field, "osd_pass") {
        "OSD pass"
    } else if same(field, "hard_errors") {
        "Hard errors"
    } else if same(field, "pass") {
        "Pass"
    } else if same(field, "hashes") {
        "Hashes"
    } else if same(field, "payload") {
        "Payload"
    } else if same(field, "assisted") {
        "Assisted"
    } else if same(field, "ap_type") {
        "AP"
    } else if same(field, "confidence") {
        "Confidence"
    } else if same(field, "questionable") {
        "Questionable"
    } else if same(field, "grid") {
        "Grid"
    } else if same(field, "window_start_sample") {
        "Window start sample"
    } else {
        "Unknown"
    }
}

pub open spec fn hash_text(hash: Cell) -> Seq<char> {
    display(cell_of(Some(hash), "width"@)) + ":"@ + display(cell_of(Some(hash), "value"@)) + ":"@
        + display(cell_of(Some(hash), "resolved"@))
}

/// The first `n` hashes with commas between them.
pub open spec fn hash_texts(hashes: Seq<Cell>, n: nat) -> Seq<char>
    decreases n,
{
    if n == 0 {
        Seq::empty()
    } else if n == 1 {
        hash_text(hashes[0])
    } else {
        hash_texts(hashes, (n - 1) as nat) + ","@ + hash_text(hashes[n - 1])
    }
}

/// The hashes of a message, a dash without any.
pub open spec fn hashes_text(cell: Option<Cell>) -> Seq<char> {
    match cell {
        Some(Cell::List(items, _)) => if items@.len() == 0 {
            "—"@
        } else {
            hash_texts(items@, items@.len())
        },
        _ => "—"@,
    }
}

fn format_hashes(cell: Option<&Cell>) -> (r: String)
    ensures
        r@ == hashes_text(seen(cell)),
{
    match cell {
        Some(Cell::List(items, _)) => {
            if items.len() == 0 {
                return "—".to_owned();
            }
            let mut out: String = String::new();
            let mut n: usize = 0;
            while n < items.len()
                invariant
                    n <= items.len(),
                    out@ == hash_texts(items@, n as nat),
                decreases items.len() - n,
            {
                let ghost before = out@;
                if n > 0 {
                    out.append(",");
                }
                let hash: &Cell = &items[n];
                out.append(show(hash.get("width")).as_str());
                out.append(":");
                out.append(show(hash.get("value")).as_str());
                out.append(":");
                out.append(show(hash.get("resolved")).as_str());
                assert(out@ =~= hash_texts(items@, (n + 1) as nat));
                n = n + 1;
            }
            out
        },
        _ => "—".to_owned(),
    }
}

/// The hypothesis type of a signal, with a mark where it is questionable.
pub open spec fn assistance_text(event: Cell) -> Seq<char> {
    match cell_of(Some(event), "ap_type"@) {
        Some(Cell::Number(number)) => match number.unsigned {
            Some(kind) => "a"@ + decimal(kind as nat) + (if cell_of(
                Some(event),
                "questionable"@,
            ) matches Some(Cell::Flag(flag)) && flag {
                "?"@
            } else {
                ""@
            }),
            None => ""@,
        },
        _ => ""@,
    }
}

pub open spec fn mode_text(event: Cell) -> Seq<char> {
    match text_cell(cell_of(Some(event), "mode"@)) {
        Some(text) => unicode_upper(text),
        None => "—"@,
    }
}

/// The text of a column.
pub open spec fn column_text(event: Cell, field: Seq<char>) -> Seq<char> {
    if field == "time"@ {
        event_time(event)
    } else if field == "mode"@ {
        mode_text(event)
    } else if field == "snr"@ {
        display(cell_of(Some(event), "snr_db"@))
    } else if field == "dt"@ {
        offset_of(cell_of(Some(event), "dt_seconds"@))
    } else if field == "freq"@ {
        tenths_of(cell_of(Some(event), "frequency_hz"@))
    } else if field == "message"@ {
        display(cell_of(Some(event), "message"@))
    } else if field == "ap_type"@ {
        assistance_text(event)
    } else if field == "confidence"@ {
        hundredths_of(cell_of(Some(event), "confidence"@))
    } else if field == "type"@ {
        display(cell_of(Some(event), "message_type"@))
    } else if field == "fec"@ || field == "bp_iterations"@ || field == "osd_pass"@ || field
        == "hard_errors"@ || field == "pass"@ {
        display(cell_of(cell_of(Some(event), "diagnostics"@), field))
    } else if field == "hashes"@ {
        hashes_text(cell_of(Some(event), "hashes"@))
    } else if field == "payload"@ || field == "assisted"@ || field == "questionable"@ || field
        == "grid"@ || field == "window_start_sample"@ {
        display(cell_of(Some(event), field))
    } else {
        "—"@
    }
}

fn assistance(event: &Cell) -> (r: String)
    ensures
        r@ == assistance_text(*event),
{
    match event.get("ap_type") {
        Some(Cell::Number(number)) => match number.unsigned {
            Some(kind) => {
                let mut out: String = "a".to_owned();
                append_decimal(&mut out, kind);
                match event.get("questionable") {
                    Some(Cell::Flag(true)) => {
                        out.append("?");
                    },
                    _ => {
                        out.append("");
                    },
                }
                out
            },
            None => "".to_owned(),
        },
        _ => "".to_owned(),
    }
}

fn field_value(event: &Cell, field: &str) -> (r: String)
    ensures
        r@ == column_text(*event, field@),
{
    if same(field, "time") {
        format_time(event)
    } else if same(field, "mode") {
        match text_in(event.get("mode")) {
            Some(text) => to_unicode_upper(text),
            None => "—".to_owned(),
        }
    } else if same(field, "snr") {
        show(event.get("snr_db"))
    } else if same(field, "dt") {
        match event.get("dt_seconds") {
            Some(Cell::Number(number)) => number.offset.clone(),
            _ => "—".to_owned(),
        }
    } else if same(field, "freq") {
        match event.get("frequency_hz") {
            Some(Cell::Number(number)) => number.tenths.clone(),
            _ => "—".to_owned(),
        }
    } else if same(field, "message") {
        show(event.get("message"))
    } else if same(field, "ap_type") {
        assistance(event)
    } else if same(field, "confidence") {
        match event.get("confidence") {
            Some(Cell::Number(number)) => number.hundredths.clone(),
            _ => "—".to_owned(),
        }
    } else if same(field, "type") {
        show(event.get("message_type"))
    } else if same(field, "fec") || same(field, "bp_iterations") || same(field, "osd_pass") || same(
        field,
        "hard_errors",
    ) || same(field, "pass") {
        show(within(event.get("diagnostics"), field))
    } else if same(field, "hashes") {
        format_hashes(event.get("hashes"))
    } else if same(field, "payload") || same(field, "assisted") || same(field, "questionable")
        || same(field, "grid") || same(field, "window_start_sample") {
        show(event.get(field))
    } else {
        "—".to_owned()
    }
}

pub open spec fn blanks(n: int) -> Seq<char> {
    Seq::new(
        (if n > 0 {
            n
        } else {
            0
        }) as nat,
        |i: int| ' ',
    )
}

/// The first `n` columns of a line, each but the last padded to its width and
/// followed by two spaces.
pub open spec fn columns_text(columns: Seq<Seq<char>>, widths: Seq<usize>, n: nat) -> Seq<char>
    decreases n,
{
    if n == 0 {
        Seq::empty()
    } else {
        let rest = columns_text(columns, widths, (n - 1) as nat);
        let column = columns[n - 1];
        if n == columns.len() {
            rest + column + "\n"@
        } else {
            rest + column + blanks(widths[n - 1] - column.len()) + "  "@
        }
    }
}

fn append_blanks(out: &mut String, n: usize)
    ensures
        final(out)@ == old(out)@ + blanks(n as int),
{
    let ghost before = out@;
    let mut i: usize = 0;
    assert(before + blanks(0) =~= before);
    while i < n
        invariant
            i <= n,
            out@ =~= before + blanks(i as int),
        decreases n - i,
    {
        out.push(' ');
        i = i + 1;
    }
}

fn write_columns(out: &mut String, columns: &Vec<String>, widths: &Vec<usize>)
    requires
        widths.len() == columns.len(),
    ensures
        final(out)@ == old(out)@ + columns_text(
            columns.deep_view(),
            widths@,
            columns.deep_view().len(),
        ),
{
    let ghost before = out@;
    let ghost all = columns.deep_view();
    let mut n: usize = 0;
    assert(before + Seq::<char>::empty() =~= before);
    while n < columns.len()
        invariant
            n <= columns.len(),
            widths.len() == columns.len(),
            all == columns.deep_view(),
            out@ == before + columns_text(all, widths@, n as nat),
        decreases columns.len() - n,
    {
        assert(all[n as int] == columns@[n as int]@);
        let ghost so_far = columns_text(all, widths@, n as nat);
        let column: &str = columns[n].as_str();
        out.append(column);
        if n + 1 == columns.len() {
            out.append("\n");
        } else {
            let length: usize = column.unicode_len();
            let missing: usize = if length < widths[n] { widths[n] - length } else { 0 };
            append_blanks(out, missing);
            out.append("  ");
            assert(blanks(missing as int) =~= blanks(widths@[n as int] - column@.len()));
        }
        assert(out@ =~= before + columns_text(all, widths@, (n + 1) as nat));
        n = n + 1;
    }
}

// ---------------------------------------------------------------------------
// State
// ---------------------------------------------------------------------------

/// What the summary tells.
#[derive(Clone, Copy, Debug, PartialEq, Eq)]
pub struct Summary {
    pub windows: u128,
    pub completed: u128,
    pub skipped: u128,
    pub cancelled: u128,
    pub failed: u128,
    pub messages: u128,
    pub candidates: u128,
    pub converted_millis: Option<u128>,
    pub has_stats: bool,
}

impl Summary {
    /// Room for one more event.
    pub open spec fn has_room(self) -> bool {
        &&& self.windows < 0x8000_0000_0000_0000_0000_0000_0000_0000
        &&& self.completed < 0x8000_0000_0000_0000_0000_0000_0000_0000
        &&& self.skipped < 0x8000_0000_0000_0000_0000_0000_0000_0000
        &&& self.cancelled < 0x8000_0000_0000_0000_0000_0000_0000_0000
        &&& self.failed < 0x8000_0000_0000_0000_0000_0000_0000_0000
        &&& self.messages < 0x8000_0000_0000_0000_0000_0000_0000_0000
        &&& self.candidates < 0x8000_0000_0000_0000_0000_0000_0000_0000
    }
}

/// The counters after the end of a window.
pub open spec fn counted(s: Summary, event: Cell) -> Summary {
    let status = text_cell(cell_of(Some(event), "status"@));
    let stats = cell_of(Some(event), "stats"@);
    Summary {
        windows: (s.windows + 1) as u128,
        completed: (s.completed + (if status == Some("completed"@) {
            1int
        } else {
            0
        })) as u128,
        skipped: (s.skipped + (if status == Some("skipped"@) {
            1int
        } else {
            0
        })) as u128,
        cancelled: (s.cancelled + (if status == Some("cancelled"@) {
            1int
        } else {
            0
        })) as u128,
        failed: (s.failed + (if status == Some("failed"@) {
            1int
        } else {
            0
        })) as u128,
        messages: (s.messages + integer(cell_of(Some(event), "message_count"@))) as u128,
        candidates: (s.candidates + integer(cell_of(stats, "candidates"@))) as u128,
        converted_millis: s.converted_millis,
        has_stats: s.has_stats || stats matches Some(Cell::Record(_, _)),
    }
}

/// What is kept between events.
#[verifier::ext_equal]
pub struct RenderState {
    pub errors: bool,
    pub wrote_header: bool,
    pub widths: Seq<usize>,
    pub last_slot: Option<u128>,
    pub summary: Summary,
}

/// What an event leads to: the new state, and what is written as results and as
/// diagnostics.
#[verifier::ext_equal]
pub struct Rendering {
    pub state: RenderState,
    pub out: Seq<char>,
    pub diagnostics: Seq<char>,
}

/// Incremental renderer for decoder events.
pub struct EventOutput {
    pub options: OutputOptions,
    pub errors: bool,
    pub wrote_header: bool,
    pub column_widths: Vec<usize>,
    pub last_slot: Option<u128>,
    pub summary: Summary,
}

/// The width that a column needs for its heading and a text.
pub open spec fn needed_width(field: Seq<char>, text: Seq<char>) -> nat {
    let a = least_width(field);
    let b = heading(field).len();
    let c = text.len();
    let ab = if a > b {
        a
    } else {
        b
    };
    if ab > c {
        ab
    } else {
        c
    }
}

/// Widths for as many columns as there are, new ones being zero.
pub open spec fn resized(widths: Seq<usize>, n: nat) -> Seq<usize> {
    Seq::new(
        n,
        |i: int|
            if i < widths.len() {
                widths[i]
            } else {
                0
            },
    )
}

/// The widths after a line: no column ever shrinks. The last one needs none.
pub open spec fn widened(
    widths: Seq<usize>,
    fields: Seq<Seq<char>>,
    texts: Seq<Seq<char>>,
) -> Seq<usize> {
    Seq::new(
        widths.len(),
        |i: int|
            if i + 1 < fields.len() && needed_width(fields[i], texts[i]) > widths[i] {
                needed_width(fields[i], texts[i]) as usize
            } else {
                widths[i]
            },
    )
}

pub open spec fn texts_of(event: Cell, fields: Seq<Seq<char>>) -> Seq<Seq<char>> {
    fields.map_values(|field: Seq<char>| column_text(event, field))
}

pub open spec fn headings_of(fields: Seq<Seq<char>>) -> Seq<Seq<char>> {
    fields.map_values(|field: Seq<char>| heading(field))
}

/// A decoded signal: a heading at first and whenever a column has widened, then
/// its line. A message alone has no heading.
pub open spec fn rendered_decode(s: RenderState, fields: Seq<Seq<char>>, event: Cell) -> Rendering {
    let texts = texts_of(event, fields);
    let old_widths = resized(s.widths, fields.len());
    let widths = widened(old_widths, fields, texts);
    let announced = (!s.wrote_header || widths != old_widths) && fields != seq!["message"@];
    Rendering {
        state: RenderState { wrote_header: s.wrote_header || announced, widths, ..s },
        out: (if announced {
            columns_text(headings_of(fields), widths, fields.len())
        } else {
            Seq::empty()
        }) + columns_text(texts, widths, fields.len()),
        diagnostics: Seq::empty(),
    }
}

/// A line of a warning or an error.
pub open spec fn complaint_line(label: Seq<char>, event: Cell) -> Seq<char> {
    label + ": "@ + (match cell_of(Some(event), "message"@) {
        Some(message) => value_text(message),
        None => match cell_of(Some(event), "reason"@) {
            Some(reason) => value_text(reason),
            None => "unknown failure"@,
        },
    }) + "\n"@
}

/// A word with its first character in upper case.
pub open spec fn titled(word: Seq<char>) -> Seq<char> {
    if word.len() == 0 {
        word
    } else {
        unicode_upper(word.take(1)) + word.skip(1)
    }
}

/// The line of a window that was not completed.
pub open spec fn unfinished_line(status: Seq<char>, event: Cell) -> Seq<char> {
    titled(status) + " window "@ + event_time(event) + ": "@ + display(
        cell_of(Some(event), "reason"@),
    ) + "\n"@
}

/// The line of a window's statistics.
pub open spec fn statistics_line(event: Cell) -> Seq<char> {
    let stats = cell_of(Some(event), "stats"@);
    "Window "@ + event_time(event) + ": "@ + display(cell_of(stats, "candidates"@))
        + " candidates, "@ + display(cell_of(stats, "passes"@)) + " passes, "@ + display(
        cell_of(stats, "internal_decodes"@),
    ) + " internal, "@ + display(cell_of(Some(event), "message_count"@)) + " emitted ("@ + display(
        cell_of(stats, "bp_decodes"@),
    ) + " BP, "@ + display(cell_of(stats, "osd_decodes"@)) + " OSD), "@ + hundredths_of(
        cell_of(stats, "decode_ms"@),
    ) + " ms, "@ + display(cell_of(Some(event), "status"@)) + "\n"@
}

/// The end of a window.
pub open spec fn rendered_done(s: RenderState, options: OutputOptions, event: Cell) -> Rendering {
    let status = text_cell(cell_of(Some(event), "status"@));
    let state = RenderState { summary: counted(s.summary, event), ..s };
    Rendering {
        state,
        out: Seq::empty(),
        diagnostics: if status == Some("failed"@) {
            complaint_line("Error"@, event)
        } else if options.quiet {
            Seq::empty()
        } else {
            (match status {
                Some(text) => if text != "completed"@ {
                    unfinished_line(text, event)
                } else {
                    Seq::empty()
                },
                None => Seq::empty(),
            }) + (if options.stats || options.verbosity > 0 {
                statistics_line(event)
            } else {
                Seq::empty()
            })
        },
    }
}

/// The description of the input.
pub open spec fn rendered_input(s: RenderState, event: Cell) -> Rendering {
    Rendering {
        state: RenderState {
            summary: Summary {
                converted_millis: match whole(cell_of(Some(event), "output_frames"@)) {
                    Some(frames) => Some(sample_millis(frames) as u128),
                    None => None,
                },
                ..s.summary
            },
            ..s
        },
        out: Seq::empty(),
        diagnostics: "Input: "@ + display(cell_of(Some(event), "source_rate"@)) + " Hz, "@ + display(
            cell_of(Some(event), "channels"@),
        ) + " "@ + (if integer(cell_of(Some(event), "channels"@)) == 1 {
            "channel"@
        } else {
            "channels"@
        }) + ", "@ + display(cell_of(Some(event), "bits_per_sample"@)) + "-bit "@ + display(
            cell_of(Some(event), "sample_format"@),
        ) + ", "@ + display(cell_of(Some(event), "channel"@)) + "; "@ + display(
            cell_of(Some(event), "source_frames"@),
        ) + " source frames → "@ + display(cell_of(Some(event), "output_frames"@)) + " at "@
            + display(cell_of(Some(event), "output_rate"@)) + " Hz\n"@,
    }
}

pub open spec fn plural_of(count: u128, singular: Seq<char>, plural: Seq<char>) -> Seq<char> {
    if count == 1 {
        singular
    } else {
        plural
    }
}

/// The summary. `decode_ms` is the decoding time so far, with two decimals.
pub open spec fn summary_text(s: Summary, decode_ms: Seq<char>) -> Seq<char> {
    "Summary: "@ + decimal(s.windows as nat) + " "@ + plural_of(s.windows, "window"@, "windows"@)
        + " ("@ + decimal(s.completed as nat) + " completed, "@ + decimal(s.skipped as nat)
        + " skipped, "@ + decimal(s.cancelled as nat) + " cancelled, "@ + decimal(s.failed as nat)
        + " failed), "@ + decimal(s.messages as nat) + " "@ + plural_of(
        s.messages,
        "message"@,
        "messages"@,
    ) + (if s.has_stats {
        ", "@ + decimal(s.candidates as nat) + " candidates"@
    } else {
        ""@
    }) + ", "@ + (match s.converted_millis {
        Some(millis) => duration(millis as nat),
        None => "—"@,
    }) + " converted"@ + (if s.has_stats {
        ", "@ + decode_ms + " ms decoder"@
    } else {
        ""@
    }) + "\n"@
}

/// The event belongs to a window other than the last one.
pub open spec fn opens_slot(s: RenderState, options: OutputOptions, kind: Seq<char>, event: Cell) -> bool {
    &&& options.slot_separators
    &&& kind == "decode"@ || kind == "done"@
    &&& whole(cell_of(Some(event), "window_start_sample"@)) matches Some(slot) && s.last_slot
        != Some(slot as u128)
}

pub open spec fn event_kind(event: Cell) -> Seq<char> {
    match text_cell(cell_of(Some(event), "type"@)) {
        Some(kind) => kind,
        None => ""@,
    }
}

/// What the event itself leads to, its slot being accounted for.
pub open spec fn rendered_by_kind(
    s: RenderState,
    options: OutputOptions,
    event: Cell,
    decode_ms: Seq<char>,
) -> Rendering {
    let kind = event_kind(event);
    let nothing = Rendering { state: s, out: Seq::empty(), diagnostics: Seq::empty() };
    if kind == "decode"@ {
        rendered_decode(s, options.columns(), event)
    } else if kind == "input"@ && !options.quiet {
        rendered_input(s, event)
    } else if kind == "done"@ {
        rendered_done(s, options, event)
    } else if kind == "warning"@ {
        Rendering { diagnostics: complaint_line("Warning"@, event), ..nothing }
    } else if kind == "error"@ {
        Rendering { diagnostics: complaint_line("Error"@, event), ..nothing }
    } else if (kind == "finish"@ || (kind == "ok"@ && text_cell(cell_of(Some(event), "command"@))
        == Some("finish"@))) && !options.quiet {
        Rendering { diagnostics: summary_text(s.summary, decode_ms), ..nothing }
    } else {
        nothing
    }
}

/// What an event leads to.
pub open spec fn rendered(
    s: RenderState,
    options: OutputOptions,
    event: Cell,
    decode_ms: Seq<char>,
) -> Rendering {
    let kind = event_kind(event);
    let failed = kind == "error"@ || (kind == "done"@ && text_cell(
        cell_of(Some(event), "status"@),
    ) == Some("failed"@));
    let noted = RenderState { errors: s.errors || failed, ..s };
    if options.format == OutputFormat::Jsonl {
        Rendering { state: noted, out: Seq::empty(), diagnostics: Seq::empty() }
    } else if opens_slot(noted, options, kind, event) {
        let slot = whole(cell_of(Some(event), "window_start_sample"@))->0 as u128;
        let separator = if noted.last_slot is Some {
            "--- "@ + event_time(event) + " ---\n"@
        } else {
            Seq::empty()
        };
        let rest = rendered_by_kind(
            RenderState { last_slot: Some(slot), ..noted },
            options,
            event,
            decode_ms,
        );
        Rendering { out: separator + rest.out, ..rest }
    } else {
        rendered_by_kind(noted, options, event, decode_ms)
    }
}

// ---------------------------------------------------------------------------
// Rendering
// ---------------------------------------------------------------------------

/// What is written for an event.
#[derive(Debug)]
pub struct Written {
    pub out: String,
    pub diagnostics: String,
}

impl Written {
    /// Whether the output is flushed: after each event that writes to it.
    pub fn flushes(&self) -> (r: bool)
        ensures
            r == (self.out@.len() > 0),
    {
        self.out.as_str().unicode_len() > 0
    }
}

fn plural(count: u128, singular: &'static str, many: &'static str) -> (r: &'static str)
    ensures
        r@ == plural_of(count, singular@, many@),
{
    if count == 1 {
        singular
    } else {
        many
    }
}

fn title(word: &str) -> (r: String)
    ensures
        r@ == titled(word@),
{
    let n: usize = word.unicode_len();
    if n == 0 {
        assert(word@ =~= Seq::<char>::empty());
        return String::new();
    }
    let first: &str = word.substring_char(0, 1);
    let rest: &str = word.substring_char(1, n);
    assert(first@ =~= word@.take(1));
    assert(rest@ =~= word@.skip(1));
    let mut out: String = to_unicode_upper(first);
    out.append(rest);
    out
}

fn complaint(label: &str, event: &Cell) -> (r: String)
    ensures
        r@ == complaint_line(label@, *event),
{
    let mut out: String = label.to_owned();
    out.append(": ");
    match event.get("message") {
        Some(message) => {
            out.append(show(Some(message)).as_str());
        },
        None => match event.get("reason") {
            Some(reason) => {
                out.append(show(Some(reason)).as_str());
            },
            None => {
                out.append("unknown failure");
            },
        },
    }
    out.append("\n");
    out
}

fn unfinished(status: &str, event: &Cell) -> (r: String)
    ensures
        r@ == unfinished_line(status@, *event),
{
    let mut out: String = title(status);
    out.append(" window ");
    out.append(format_time(event).as_str());
    out.append(": ");
    out.append(show(event.get("reason")).as_str());
    out.append("\n");
    out
}

fn statistics(event: &Cell) -> (r: String)
    ensures
        r@ == statistics_line(*event),
{
    let stats: Option<&Cell> = event.get("stats");
    let mut out: String = "Window ".to_owned();
    out.append(format_time(event).as_str());
    out.append(": ");
    out.append(show(within(stats, "candidates")).as_str());
    out.append(" candidates, ");
    out.append(show(within(stats, "passes")).as_str());
    out.append(" passes, ");
    out.append(show(within(stats, "internal_decodes")).as_str());
    out.append(" internal, ");
    out.append(show(event.get("message_count")).as_str());
    out.append(" emitted (");
    out.append(show(within(stats, "bp_decodes")).as_str());
    out.append(" BP, ");
    out.append(show(within(stats, "osd_decodes")).as_str());
    out.append(" OSD), ");
    match within(stats, "decode_ms") {
        Some(Cell::Number(number)) => {
            out.append(number.hundredths.as_str());
        },
        _ => {
            out.append("—");
        },
    }
    out.append(" ms, ");
    out.append(show(event.get("status")).as_str());
    out.append("\n");
    out
}

fn describe_input(event: &Cell) -> (r: String)
    ensures
        forall|s: RenderState| r@ == (#[trigger] rendered_input(s, *event)).diagnostics,
{
    let mut out: String = "Input: ".to_owned();
    out.append(show(event.get("source_rate")).as_str());
    out.append(" Hz, ");
    out.append(show(event.get("channels")).as_str());
    out.append(" ");
    if count_of(event.get("channels")) == 1 {
        out.append("channel");
    } else {
        out.append("channels");
    }
    out.append(", ");
    out.append(show(event.get("bits_per_sample")).as_str());
    out.append("-bit ");
    out.append(show(event.get("sample_format")).as_str());
    out.append(", ");
    out.append(show(event.get("channel")).as_str());
    out.append("; ");
    out.append(show(event.get("source_frames")).as_str());
    out.append(" source frames → ");
    out.append(show(event.get("output_frames")).as_str());
    out.append(" at ");
    out.append(show(event.get("output_rate")).as_str());
    out.append(" Hz\n");
    out
}

fn summarize(s: &Summary, decode_ms: &str) -> (r: String)
    ensures
        r@ == summary_text(*s, decode_ms@),
{
    let mut out: String = "Summary: ".to_owned();
    append_wide(&mut out, s.windows);
    out.append(" ");
    out.append(plural(s.windows, "window", "windows"));
    out.append(" (");
    append_wide(&mut out, s.completed);
    out.append(" completed, ");
    append_wide(&mut out, s.skipped);
    out.append(" skipped, ");
    append_wide(&mut out, s.cancelled);
    out.append(" cancelled, ");
    append_wide(&mut out, s.failed);
    out.append(" failed), ");
    append_wide(&mut out, s.messages);
    out.append(" ");
    out.append(plural(s.messages, "message", "messages"));
    let mut candidates: String = "".to_owned();
    let mut decoder: String = "".to_owned();
    if s.has_stats {
        candidates = ", ".to_owned();
        append_wide(&mut candidates, s.candidates);
        candidates.append(" candidates");
        decoder = ", ".to_owned();
        decoder.append(decode_ms);
        decoder.append(" ms decoder");
    }
    out.append(candidates.as_str());
    out.append(", ");
    match s.converted_millis {
        Some(millis) => {
            out.append(format_duration(millis).as_str());
        },
        None => {
            out.append("—");
        },
    }
    out.append(" converted");
    out.append(decoder.as_str());
    out.append("\n");
    out
}

fn wider(field: &str, text: &str) -> (r: usize)
    ensures
        r == needed_width(field@, text@),
{
    let a: usize = field_width(field);
    let b: usize = field_header(field).unicode_len();
    let c: usize = text.unicode_len();
    let ab: usize = if a > b { a } else { b };
    if ab > c {
        ab
    } else {
        c
    }
}

impl EventOutput {
    pub open spec fn state(&self) -> RenderState {
        RenderState {
            errors: self.errors,
            wrote_header: self.wrote_header,
            widths: self.column_widths@,
            last_slot: self.last_slot,
            summary: self.summary,
        }
    }

    pub fn new(options: OutputOptions) -> (r: Self)
        ensures
            r.options == options,
            r.state() == initial_state(),
    {
        let r = EventOutput {
            options,
            errors: false,
            wrote_header: false,
            column_widths: Vec::new(),
            last_slot: None,
            summary: Summary {
                windows: 0,
                completed: 0,
                skipped: 0,
                cancelled: 0,
                failed: 0,
                messages: 0,
                candidates: 0,
                converted_millis: None,
                has_stats: false,
            },
        };
        assert(r.state() =~= initial_state());
        r
    }

    /// Whether an error or a failed window went by.
    pub fn error_flag(&self) -> (r: bool)
        ensures
            r == self.errors,
    {
        self.errors
    }

    /// Whether the counters have room for one more event.
    pub fn has_room(&self) -> (r: bool)
        ensures
            r == self.summary.has_room(),
    {
        let limit: u128 = 0x8000_0000_0000_0000_0000_0000_0000_0000;
        self.summary.windows < limit && self.summary.completed < limit && self.summary.skipped
            < limit && self.summary.cancelled < limit && self.summary.failed < limit
            && self.summary.messages < limit && self.summary.candidates < limit
    }

    fn decode(&mut self, event: &Cell) -> (r: String)
        ensures
            final(self).options == old(self).options,
            ({
                let expected = rendered_decode(
                    old(self).state(),
                    old(self).options.columns(),
                    *event,
                );
                final(self).state() == expected.state && r@ == expected.out
            }),
    {
        let fields: Vec<String> = self.options.text_fields();
        let ghost names = fields.deep_view();
        let ghost texts = texts_of(*event, names);
        let ghost old_widths = resized(self.column_widths@, names.len());
        let mut columns: Vec<String> = Vec::new();
        let mut headings: Vec<String> = Vec::new();
        let mut widths: Vec<usize> = Vec::new();
        let mut grew: bool = false;
        let n: usize = fields.len();
        let mut i: usize = 0;
        while i < n
            invariant
                i <= n,
                n == fields.len(),
                names == fields.deep_view(),
                texts == texts_of(*event, names),
                old_widths == resized(self.column_widths@, names.len()),
                *self == *old(self),
                columns.deep_view() =~= texts.take(i as int),
                headings.deep_view() =~= headings_of(names).take(i as int),
                widths@ =~= widened(old_widths, names, texts).take(i as int),
                grew == exists|k: int|
                    0 <= k < i && #[trigger] widened(old_widths, names, texts)[k] != old_widths[k],
            decreases n - i,
        {
            assert(names[i as int] == fields@[i as int]@);
            let field: &str = fields[i].as_str();
            let text: String = field_value(event, field);
            let previous: usize = if i < self.column_widths.len() { self.column_widths[i] } else { 0 };
            let needed: usize = wider(field, text.as_str());
            let ghost expected = widened(old_widths, names, texts);
            if i + 1 < n && needed > previous {
                assert(expected[i as int] == needed);
                assert(expected[i as int] != old_widths[i as int]);
                widths.push(needed);
                grew = true;
            } else {
                assert(expected[i as int] == old_widths[i as int]);
                widths.push(previous);
            }
            let heading_text: String = field_header(field).to_owned();
            let ghost before_columns = columns.deep_view();
            let ghost before_headings = headings.deep_view();
            columns.push(text);
            headings.push(heading_text);
            assert(columns.deep_view() =~= before_columns.push(text@));
            assert(headings.deep_view() =~= before_headings.push(heading_text@));
            i = i + 1;
        }
        let ghost expected = widened(old_widths, names, texts);
        assert(columns.deep_view() =~= texts);
        assert(headings.deep_view() =~= headings_of(names));
        assert(widths@ =~= expected);
        proof {
            if !grew {
                assert(expected =~= old_widths);
            }
        }
        let message_only: bool = n == 1 && same(fields[0].as_str(), "message");
        proof {
            if message_only {
                assert(names =~= seq!["message"@]);
            } else if names == seq!["message"@] {
                assert(names[0] == fields@[0]@);
            }
        }
        let mut out: String = String::new();
        if (!self.wrote_header || grew) && !message_only {
            write_columns(&mut out, &headings, &widths);
            self.wrote_header = true;
        }
        assert(out@ =~= (if (!old(self).wrote_header || expected != old_widths) && names
            != seq!["message"@] {
            columns_text(headings_of(names), expected, names.len())
        } else {
            Seq::empty()
        }));
        write_columns(&mut out, &columns, &widths);
        self.column_widths = widths;
        assert(self.state() =~= rendered_decode(old(self).state(), names, *event).state);
        out
    }

    fn done(&mut self, event: &Cell) -> (r: String)
        requires
            old(self).summary.has_room(),
        ensures
            final(self).options == old(self).options,
            ({
                let expected = rendered_done(old(self).state(), old(self).options, *event);
                final(self).state() == expected.state && r@ == expected.diagnostics
            }),
    {
        let stats: Option<&Cell> = event.get("stats");
        let status: Option<&str> = text_in(event.get("status"));
        let s: Summary = self.summary;
        let completed: bool = text_is(event.get("status"), "completed");
        let skipped: bool = text_is(event.get("status"), "skipped");
        let cancelled: bool = text_is(event.get("status"), "cancelled");
        let failed: bool = text_is(event.get("status"), "failed");
        let told: bool = match stats {
            Some(Cell::Record(_, _)) => true,
            _ => false,
        };
        self.summary = Summary {
            windows: s.windows + 1,
            completed: s.completed + (if completed { 1 } else { 0 }),
            skipped: s.skipped + (if skipped { 1 } else { 0 }),
            cancelled: s.cancelled + (if cancelled { 1 } else { 0 }),
            failed: s.failed + (if failed { 1 } else { 0 }),
            messages: s.messages + count_of(event.get("message_count")) as u128,
            candidates: s.candidates + count_of(within(stats, "candidates")) as u128,
            converted_millis: s.converted_millis,
            has_stats: s.has_stats || told,
        };
        assert(self.summary == counted(s, *event));
        assert(self.state() =~= rendered_done(old(self).state(), old(self).options, *event).state);
        if failed {
            return complaint("Error", event);
        }
        let mut out: String = String::new();
        if self.options.quiet {
            return out;
        }
        match status {
            Some(text) => {
                if !same(text, "completed") {
                    out = unfinished(text, event);
                }
            },
            None => {},
        }
        let ghost first = out@;
        if self.options.window_stats_enabled() {
            out.append(statistics(event).as_str());
        } else {
            assert(first + Seq::<char>::empty() =~= first);
        }
        out
    }

    /// Renders one event. `decode_ms` is the decoding time so far in milliseconds,
    /// with two decimals. JSON lines are written by the caller.
    pub fn event(&mut self, event: &Cell, decode_ms: &str) -> (r: Written)
        requires
            old(self).summary.has_room(),
        ensures
            final(self).options == old(self).options,
            ({
                let expected = rendered(
                    old(self).state(),
                    old(self).options,
                    *event,
                    decode_ms@,
                );
                &&& final(self).state() == expected.state
                &&& r.out@ == expected.out
                &&& r.diagnostics@ == expected.diagnostics
            }),
    {
        let kind: &str = match text_in(event.get("type")) {
            Some(kind) => kind,
            None => "",
        };
        let done: bool = same(kind, "done");
        let decode: bool = same(kind, "decode");
        if same(kind, "error") || (done && text_is(event.get("status"), "failed")) {
            self.errors = true;
        }
        let ghost noted = self.state();
        assert(noted =~= RenderState {
            errors: old(self).errors || (kind@ == "error"@ || (kind@ == "done"@ && text_cell(
                cell_of(Some(*event), "status"@),
            ) == Some("failed"@))),
            ..old(self).state()
        });
        let mut out: String = String::new();
        let mut diagnostics: String = String::new();
        if self.options.format == OutputFormat::Jsonl {
            return Written { out, diagnostics };
        }
        if self.options.slot_separators && (decode || done) {
            match parse_integer(event.get("window_start_sample")) {
                Some(slot) => {
                    let known: bool = match self.last_slot {
                        Some(last) => last == slot,
                        None => false,
                    };
                    if !known {
                        if self.last_slot.is_some() {
                            out.append("--- ");
                            out.append(format_time(event).as_str());
                            out.append(" ---\n");
                        }
                        self.last_slot = Some(slot);
                    }
                },
                None => {},
            }
        }
        let ghost separator = out@;
        let ghost s = self.state();
        proof {
            let opened = opens_slot(noted, self.options, kind@, *event);
            assert(opened ==> s =~= RenderState {
                last_slot: Some(
                    whole(cell_of(Some(*event), "window_start_sample"@))->0 as u128,
                ),
                ..noted
            });
            assert(!opened ==> s =~= noted && separator =~= Seq::<char>::empty());
            assert(opened ==> separator =~= (if noted.last_slot is Some {
                "--- "@ + event_time(*event) + " ---\n"@
            } else {
                Seq::empty()
            }));
        }
        let finish: bool = same(kind, "finish") || (same(kind, "ok") && text_is(
            event.get("command"),
            "finish",
        ));
        if decode {
            let line: String = self.decode(event);
            out.append(line.as_str());
        } else if same(kind, "input") && !self.options.quiet {
            let frames: Option<u128> = parse_integer(event.get("output_frames"));
            self.summary.converted_millis = match frames {
                Some(n) => Some(millis_of(n)),
                None => None,
            };
            assert(self.state() =~= rendered_input(s, *event).state);
            diagnostics = describe_input(event);
        } else if done {
            diagnostics = self.done(event);
        } else if same(kind, "warning") {
            diagnostics = complaint("Warning", event);
        } else if same(kind, "error") {
            diagnostics = complaint("Error", event);
        } else if finish && !self.options.quiet {
            diagnostics = summarize(&self.summary, decode_ms);
        }
        proof {
            let rest = rendered_by_kind(s, old(self).options, *event, decode_ms@);
            assert(self.state() == rest.state);
            assert(diagnostics@ =~= rest.diagnostics);
            assert(out@ =~= separator + rest.out);
            assert(!opens_slot(noted, old(self).options, kind@, *event) ==> out@ =~= rest.out);
        }
        Written { out, diagnostics }
    }
}

/// Nothing rendered yet.
pub open spec fn initial_state() -> RenderState {
    RenderState {
        errors: false,
        wrote_header: false,
        widths: Seq::empty(),
        last_slot: None,
        summary: Summary {
            windows: 0,
            completed: 0,
            skipped: 0,
            cancelled: 0,
            failed: 0,
            messages: 0,
            candidates: 0,
            converted_millis: None,
            has_stats: false,
        },
    }
}

/// Columns only ever widen, and hold what is written in them.
pub proof fn columns_never_shrink(s: RenderState, fields: Seq<Seq<char>>, event: Cell, i: int)
    requires
        s.widths.len() == fields.len(),
        0 <= i < fields.len() - 1,
        column_text(event, fields[i]).len() <= usize::MAX,
    ensures
        ({
            let widths = rendered_decode(s, fields, event).state.widths;
            &&& widths.len() == fields.len()
            &&& widths[i] >= s.widths[i]
            &&& widths[i] >= column_text(event, fields[i]).len()
        }),
{
    lemma_heading_fits(fields[i]);
}

proof fn lemma_heading_fits(field: Seq<char>)
    ensures
        heading(field).len() <= 19,
{
    reveal_strlit("Time");
    reveal_strlit("Mode");
    reveal_strlit("SNR");
    reveal_strlit("DT");
    reveal_strlit("Freq");
    reveal_strlit("Message");
    reveal_strlit("Type");
    reveal_strlit("FEC");
    reveal_strlit("BP iterations");
    reveal_strlit("OSD pass");
    reveal_strlit("Hard errors");
    reveal_strlit("Pass");
    reveal_strlit("Hashes");
    reveal_strlit("Payload");
    reveal_strlit("Assisted");
    reveal_strlit("AP");
    reveal_strlit("Confidence");
    reveal_strlit("Questionable");
    reveal_strlit("Grid");
    reveal_strlit("Window start sample");
    reveal_strlit("Unknown");
}

/// An error once noted stays noted.
pub proof fn errors_stay_noted(
    s: RenderState,
    options: OutputOptions,
    event: Cell,
    decode_ms: Seq<char>,
)
    requires
        s.errors,
    ensures
        rendered(s, options, event, decode_ms).state.errors,
{
}

} // verus!
