//! What the columns and the lines of the output tell.
use vstd::prelude::*;
use crate::json::listed;
use crate::output::{
    assistance_text, cell_of, column_text, complaint_line, find_cell, hash_text, hash_texts,
    hashes_text, mode_text, rendered_done, summary_text, text_cell, unfinished_line, Cell,
    RenderState, Summary,
};
use crate::output_options::{
    field_complaint, fields_of, split_commas, OutputOptions, ALLOWED_FIELDS, LEVEL_ONE_FIELDS,
};
use crate::text::{decimal, decimal_value, find_char, lemma_find_char, numerals_are_read_back};

verus! {

/// The entries of a record have different names.
pub open spec fn are_named_apart(entries: Seq<(String, Cell)>) -> bool {
    forall|i: int, j: int|
        0 <= i < j < entries.len() ==> (#[trigger] entries[i]).0@ != (#[trigger] entries[j]).0@
}

proof fn lemma_found(entries: Seq<(String, Cell)>, k: int, from: int)
    requires
        are_named_apart(entries),
        0 <= from <= k < entries.len(),
    ensures
        find_cell(entries, entries[k].0@, from) == Some(entries[k].1),
    decreases k - from,
{
    if from < k {
        lemma_found(entries, k, from + 1);
    }
}

/// Every entry of an event is found by its name.
pub proof fn cells_are_found(event: Cell, entries: Seq<(String, Cell)>, k: int)
    requires
        event matches Cell::Record(all, _) && all@ == entries,
        are_named_apart(entries),
        0 <= k < entries.len(),
    ensures
        cell_of(Some(event), entries[k].0@) == Some(entries[k].1),
{
    lemma_found(entries, k, 0);
}

/// The fields have different names: of different lengths, or with different letters in one
/// place.
proof fn lemma_fields_differ()
    ensures
        "dt"@.len() == 2,
        "snr"@.len() == 3 && "snr"@[0] == 's',
        "fec"@.len() == 3 && "fec"@[0] == 'f',
        "time"@.len() == 4 && "time"@[2] == 'm',
        "mode"@.len() == 4 && "mode"@[2] == 'd',
        "freq"@.len() == 4 && "freq"@[2] == 'e',
        "type"@.len() == 4 && "type"@[2] == 'p',
        "pass"@.len() == 4 && "pass"@[2] == 's',
        "grid"@.len() == 4 && "grid"@[2] == 'i',
        "hashes"@.len() == 6,
        "message"@.len() == 7 && "message"@[0] == 'm',
        "ap_type"@.len() == 7 && "ap_type"@[0] == 'a',
        "payload"@.len() == 7 && "payload"@[0] == 'p',
        "osd_pass"@.len() == 8 && "osd_pass"@[0] == 'o',
        "assisted"@.len() == 8 && "assisted"@[0] == 'a',
        "confidence"@.len() == 10,
        "hard_errors"@.len() == 11,
        "questionable"@.len() == 12,
        "bp_iterations"@.len() == 13,
        "window_start_sample"@.len() == 19,
{
    reveal_strlit("time");
    reveal_strlit("mode");
    reveal_strlit("snr");
    reveal_strlit("dt");
    reveal_strlit("freq");
    reveal_strlit("message");
    reveal_strlit("ap_type");
    reveal_strlit("confidence");
    reveal_strlit("type");
    reveal_strlit("fec");
    reveal_strlit("bp_iterations");
    reveal_strlit("osd_pass");
    reveal_strlit("hard_errors");
    reveal_strlit("pass");
    reveal_strlit("hashes");
    reveal_strlit("payload");
    reveal_strlit("assisted");
    reveal_strlit("questionable");
    reveal_strlit("grid");
    reveal_strlit("window_start_sample");
}

/// The text that a cell shows.
pub open spec fn shows(cell: Cell, text: Seq<char>) -> bool {
    match cell {
        Cell::Null => text == "—"@,
        Cell::Flag(flag) => text == (if flag {
            "true"@
        } else {
            "false"@
        }),
        Cell::Number(number) => text == number.text@,
        Cell::Text(found) => text == found@,
        Cell::List(_, found) => text == found@,
        Cell::Record(_, found) => text == found@,
    }
}

/// The name under which an event holds what a plain column shows.
pub open spec fn is_plain_column(field: Seq<char>, name: Seq<char>) -> bool {
    ||| field == "snr"@ && name == "snr_db"@
    ||| field == "message"@ && name == "message"@
    ||| field == "type"@ && name == "message_type"@
    ||| field == "payload"@ && name == field
    ||| field == "assisted"@ && name == field
    ||| field == "questionable"@ && name == field
    ||| field == "grid"@ && name == field
    ||| field == "window_start_sample"@ && name == field
}

/// A plain column shows what the event holds under its name, and a dash where it holds
/// nothing.
pub proof fn plain_columns_tell_their_value(event: Cell, field: Seq<char>, name: Seq<char>)
    requires
        is_plain_column(field, name),
    ensures
        cell_of(Some(event), name) matches Some(cell) ==> shows(cell, column_text(event, field)),
        cell_of(Some(event), name) is None ==> column_text(event, field) == "—"@,
{
    lemma_fields_differ();
}

/// The columns on the correction show what the diagnostics hold.
pub proof fn diagnostic_columns_tell_their_value(event: Cell, field: Seq<char>)
    requires
        field == "fec"@ || field == "bp_iterations"@ || field == "osd_pass"@ || field
            == "hard_errors"@ || field == "pass"@,
    ensures
        cell_of(cell_of(Some(event), "diagnostics"@), field) matches Some(cell) ==> shows(
            cell,
            column_text(event, field),
        ),
        cell_of(cell_of(Some(event), "diagnostics"@), field) is None ==> column_text(event, field)
            == "—"@,
{
    lemma_fields_differ();
}

/// Frequency, offset and confidence are shown with the decimals that they are meant to have.
pub proof fn measured_columns_tell_their_value(event: Cell)
    ensures
        cell_of(Some(event), "frequency_hz"@) matches Some(Cell::Number(number)) ==> column_text(
            event,
            "freq"@,
        ) == number.tenths@,
        cell_of(Some(event), "dt_seconds"@) matches Some(Cell::Number(number)) ==> column_text(
            event,
            "dt"@,
        ) == number.offset@,
        cell_of(Some(event), "confidence"@) matches Some(Cell::Number(number)) ==> column_text(
            event,
            "confidence"@,
        ) == number.hundredths@,
        column_text(event, "mode"@) == mode_text(event),
        column_text(event, "ap_type"@) == assistance_text(event),
        column_text(event, "hashes"@) == hashes_text(cell_of(Some(event), "hashes"@)),
{
    lemma_fields_differ();
}

/// The cell holds this number.
pub open spec fn is_kind(cell: Option<Cell>, kind: u64) -> bool {
    cell matches Some(Cell::Number(number)) && number.unsigned == Some(kind)
}

/// What was assumed is told by a letter and its number, with a mark exactly where the result
/// is questionable. Without an assumption there is nothing.
pub proof fn assumptions_are_told(event: Cell, kind: u64)
    ensures
        ({
            let text = assistance_text(event);
            let n = decimal(kind as nat).len() as int;
            let doubted = cell_of(Some(event), "questionable"@) == Some(Cell::Flag(true));
            &&& is_kind(cell_of(Some(event), "ap_type"@), kind) ==> {
                &&& text[0] == 'a'
                &&& decimal_value(text.subrange(1, n + 1)) == kind
                &&& doubted ==> text.len() == n + 2 && text.last() == '?'
                &&& !doubted ==> text.len() == n + 1
            }
            &&& cell_of(Some(event), "ap_type"@) is None ==> text.len() == 0
        }),
{
    reveal_strlit("a");
    reveal_strlit("?");
    reveal_strlit("");
    numerals_are_read_back(kind as nat);
    let text = assistance_text(event);
    let n = decimal(kind as nat).len() as int;
    if let Some(Cell::Number(number)) = cell_of(Some(event), "ap_type"@) {
        if number.unsigned == Some(kind) {
            assert(text.subrange(1, n + 1) =~= decimal(kind as nat));
        }
    }
}

/// The hashes of a message are all told, in order, with a comma between two: a longer list
/// starts with the shorter one.
pub proof fn hashes_are_all_told(hashes: Seq<Cell>, n: nat)
    requires
        0 < n,
    ensures
        hash_texts(hashes, 1) == hash_text(hashes[0]),
        hash_texts(hashes, n + 1) == hash_texts(hashes, n) + seq![','] + hash_text(
            hashes[n as int],
        ),
{
    reveal_strlit(",");
    assert(","@ =~= seq![',']);
}

/// A hash is told by its width, its value and its call, with colons between them.
pub proof fn hashes_tell_their_parts(hash: Cell, width: Cell, value: Cell, call: Cell)
    requires
        cell_of(Some(hash), "width"@) == Some(width),
        cell_of(Some(hash), "value"@) == Some(value),
        cell_of(Some(hash), "resolved"@) == Some(call),
    ensures
        exists|a: Seq<char>, b: Seq<char>, c: Seq<char>|
            #![trigger shows(width, a), shows(value, b), shows(call, c)]
            shows(width, a) && shows(value, b) && shows(call, c) && hash_text(hash) == a + seq![':']
                + b + seq![':'] + c,
{
    reveal_strlit(":");
    assert(":"@ =~= seq![':']);
    let a = crate::output::value_text(width);
    let b = crate::output::value_text(value);
    let c = crate::output::value_text(call);
    assert(shows(width, a) && shows(value, b) && shows(call, c));
}

// ---------------------------------------------------------------------------
// Lines
// ---------------------------------------------------------------------------

/// A warning or an error tells its message, or else its reason.
pub proof fn complaints_are_told(label: Seq<char>, event: Cell)
    ensures
        cell_of(Some(event), "message"@) matches Some(Cell::Text(message)) ==> complaint_line(
            label,
            event,
        ) == label + ": "@ + message@ + "\n"@,
        cell_of(Some(event), "message"@) is None ==> (cell_of(Some(event), "reason"@) matches Some(
            Cell::Text(reason),
        ) ==> complaint_line(label, event) == label + ": "@ + reason@ + "\n"@),
{
}

/// Of the ends of windows a failed one is always told, a completed one only in statistics,
/// and any other unless the output is to be quiet.
pub proof fn ends_of_windows_are_told(s: RenderState, options: OutputOptions, event: Cell)
    requires
        !options.stats,
        options.verbosity == 0,
    ensures
        ({
            let status = text_cell(cell_of(Some(event), "status"@));
            let told = rendered_done(s, options, event);
            &&& told.out.len() == 0
            &&& status == Some("failed"@) ==> told.diagnostics == complaint_line("Error"@, event)
            &&& status == Some("completed"@) ==> told.diagnostics.len() == 0
            &&& status is Some && status != Some("completed"@) && status != Some("failed"@)
                && !options.quiet ==> told.diagnostics == unfinished_line(status->0, event)
            &&& status != Some("failed"@) && options.quiet ==> told.diagnostics.len() == 0
        }),
{
    reveal_strlit("failed");
    reveal_strlit("completed");
    assert("failed"@.len() != "completed"@.len());
    let status = text_cell(cell_of(Some(event), "status"@));
    if status is Some && status != Some("completed"@) && status != Some("failed"@) {
        assert(unfinished_line(status->0, event) + Seq::<char>::empty() =~= unfinished_line(
            status->0,
            event,
        ));
    }
}

/// The numeral of a number.
pub open spec fn is_numeral_of(text: Seq<char>, n: int) -> bool {
    text.len() > 0 && decimal_value(text) == n
}

/// The summary tells how many windows there were, how they ended, and how many messages were
/// found.
pub proof fn summaries_tell_their_counts(s: Summary, decode_ms: Seq<char>)
    ensures
        exists|a: Seq<char>, b: Seq<char>, c: Seq<char>, d: Seq<char>, e: Seq<char>, f: Seq<char>|
            #![trigger is_summary(summary_text(s, decode_ms), s.windows, a, b, c, d, e, f)]
            is_summary(summary_text(s, decode_ms), s.windows, a, b, c, d, e, f)
                && is_numeral_of(a, s.windows as int) && is_numeral_of(b, s.completed as int)
                && is_numeral_of(c, s.skipped as int) && is_numeral_of(d, s.cancelled as int)
                && is_numeral_of(e, s.failed as int) && is_numeral_of(f, s.messages as int),
{
    let a = decimal(s.windows as nat);
    let b = decimal(s.completed as nat);
    let c = decimal(s.skipped as nat);
    let d = decimal(s.cancelled as nat);
    let e = decimal(s.failed as nat);
    let f = decimal(s.messages as nat);
    numerals_are_read_back(s.windows as nat);
    numerals_are_read_back(s.completed as nat);
    numerals_are_read_back(s.skipped as nat);
    numerals_are_read_back(s.cancelled as nat);
    numerals_are_read_back(s.failed as nat);
    numerals_are_read_back(s.messages as nat);
    let text = summary_text(s, decode_ms);
    let front = summary_front(s.windows, a, b, c, d, e, f);
    assert(text.take(front.len() as int) =~= front);
    assert(is_summary(text, s.windows, a, b, c, d, e, f));
}

/// How a summary starts.
pub open spec fn summary_front(
    windows: u128,
    a: Seq<char>,
    b: Seq<char>,
    c: Seq<char>,
    d: Seq<char>,
    e: Seq<char>,
    f: Seq<char>,
) -> Seq<char> {
    "Summary: "@ + a + " "@ + (if windows == 1 {
        "window"@
    } else {
        "windows"@
    }) + " ("@ + b + " completed, "@ + c + " skipped, "@ + d + " cancelled, "@ + e + " failed), "@
        + f + " "@
}

/// A summary of these numerals.
pub open spec fn is_summary(
    text: Seq<char>,
    windows: u128,
    a: Seq<char>,
    b: Seq<char>,
    c: Seq<char>,
    d: Seq<char>,
    e: Seq<char>,
    f: Seq<char>,
) -> bool {
    summary_front(windows, a, b, c, d, e, f).is_prefix_of(text)
}

// ---------------------------------------------------------------------------
// Lists of fields
// ---------------------------------------------------------------------------

/// Names with commas between them.
pub open spec fn list_of(parts: Seq<Seq<char>>) -> Seq<char>
    decreases parts.len(),
{
    if parts.len() == 0 {
        Seq::empty()
    } else if parts.len() == 1 {
        parts[0]
    } else {
        parts[0] + seq![','] + list_of(parts.skip(1))
    }
}

/// Names without commas.
pub open spec fn are_names(parts: Seq<Seq<char>>) -> bool {
    forall|i: int|
        0 <= i < parts.len() ==> (#[trigger] parts[i]).len() > 0 && !parts[i].contains(',')
}

proof fn lemma_split(parts: Seq<Seq<char>>)
    requires
        parts.len() > 0,
        are_names(parts),
    ensures
        split_commas(list_of(parts)) == parts,
        list_of(parts).len() > 0,
    decreases parts.len(),
{
    let first = parts[0];
    let text = list_of(parts);
    lemma_find_char(text, ',');
    let at = find_char(text, ',');
    assert(!first.contains(','));
    if at < first.len() {
        assert(text[at] == first[at]);
    }
    if parts.len() == 1 {
        assert(parts =~= seq![first]);
    } else {
        let rest = parts.skip(1);
        assert(forall|i: int| 0 <= i < rest.len() ==> #[trigger] rest[i] == parts[i + 1]);
        lemma_split(rest);
        assert(text[first.len() as int] == ',');
        assert(at == first.len());
        assert(text.take(at) =~= first);
        assert(text.skip(at + 1) =~= list_of(rest));
        assert(seq![first] + rest =~= parts);
    }
}

proof fn lemma_no_complaint(parts: Seq<Seq<char>>, from: int)
    requires
        0 <= from <= parts.len(),
        are_names(parts),
        parts.no_duplicates(),
        forall|i: int| 0 <= i < parts.len() ==> listed(ALLOWED_FIELDS@, #[trigger] parts[i]),
    ensures
        field_complaint(parts, from) is None,
    decreases parts.len() - from,
{
    if from < parts.len() {
        assert(parts[from].len() > 0);
        if parts.take(from).contains(parts[from]) {
            let i = choose|i: int| 0 <= i < from && parts.take(from)[i] == parts[from];
            assert(parts[i] == parts[from]);
        }
        lemma_no_complaint(parts, from + 1);
    }
}

/// Every list of different known fields is accepted as it is.
pub proof fn lists_of_fields_are_accepted(parts: Seq<Seq<char>>)
    requires
        parts.len() > 0,
        are_names(parts),
        parts.no_duplicates(),
        forall|i: int| 0 <= i < parts.len() ==> listed(ALLOWED_FIELDS@, #[trigger] parts[i]),
    ensures
        fields_of(list_of(parts)) == Ok::<Seq<Seq<char>>, Seq<char>>(parts),
{
    lemma_split(parts);
    lemma_no_complaint(parts, 0);
}

/// The fields that can be shown.
pub proof fn fields_have_names(name: Seq<char>)
    ensures
        listed(ALLOWED_FIELDS@, name) <==> {
            ||| name == "time"@
            ||| name == "mode"@
            ||| name == "snr"@
            ||| name == "dt"@
            ||| name == "freq"@
            ||| name == "message"@
            ||| name == "type"@
            ||| name == "fec"@
            ||| name == "bp_iterations"@
            ||| name == "osd_pass"@
            ||| name == "hard_errors"@
            ||| name == "pass"@
            ||| name == "hashes"@
            ||| name == "payload"@
            ||| name == "assisted"@
            ||| name == "ap_type"@
            ||| name == "confidence"@
            ||| name == "questionable"@
            ||| name == "grid"@
            ||| name == "window_start_sample"@
        },
{
    let n = ALLOWED_FIELDS@;
    assert(n[0]@ == "time"@);
    assert(n[1]@ == "mode"@);
    assert(n[2]@ == "snr"@);
    assert(n[3]@ == "dt"@);
    assert(n[4]@ == "freq"@);
    assert(n[5]@ == "message"@);
    assert(n[6]@ == "type"@);
    assert(n[7]@ == "fec"@);
    assert(n[8]@ == "bp_iterations"@);
    assert(n[9]@ == "osd_pass"@);
    assert(n[10]@ == "hard_errors"@);
    assert(n[11]@ == "pass"@);
    assert(n[12]@ == "hashes"@);
    assert(n[13]@ == "payload"@);
    assert(n[14]@ == "assisted"@);
    assert(n[15]@ == "ap_type"@);
    assert(n[16]@ == "confidence"@);
    assert(n[17]@ == "questionable"@);
    assert(n[18]@ == "grid"@);
    assert(n[19]@ == "window_start_sample"@);
    assert(n.len() == 20);
}

/// As much is told of each signal as its columns need: the payload where that is shown, how
/// it was corrected where one of those columns is, and more the more is asked for.
pub proof fn columns_get_what_they_show(options: OutputOptions, i: int)
    requires
        0 <= i < options.columns().len(),
    ensures
        options.columns()[i] == "payload"@ ==> options.level() == 2,
        options.columns()[i] == "fec"@ || options.columns()[i] == "bp_iterations"@
            || options.columns()[i] == "osd_pass"@ || options.columns()[i] == "hard_errors"@
            || options.columns()[i] == "pass"@ ==> options.level() >= 1,
        options.verbosity >= 1 ==> options.level() >= 1,
        options.verbosity >= 2 ==> options.level() == 2,
        options.level() <= 2,
{
    let n = LEVEL_ONE_FIELDS@;
    let name = options.columns()[i];
    assert(n[2]@ == "fec"@);
    assert(n[3]@ == "bp_iterations"@);
    assert(n[4]@ == "osd_pass"@);
    assert(n[5]@ == "hard_errors"@);
    assert(n[6]@ == "pass"@);
}

} // verus!
