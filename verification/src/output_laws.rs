//! What rendered events tell.
use vstd::prelude::*;
use crate::output::{
    cell_of, clock, columns_text, counted, duration, event_kind, event_time, headings_of, integer,
    rendered, rendered_decode, sample_millis, text_cell, texts_of, whole, Cell, OutputFormat,
    OutputOptions, RenderState, Summary,
};
use crate::text::{
    all_digits, decimal, decimal_value, digit, digits, numerals_are_read_back, padded,
};

verus! {

// ---------------------------------------------------------------------------
// Times
// ---------------------------------------------------------------------------

proof fn lemma_two_digits(n: nat)
    requires
        n < 100,
    ensures
        digits(n, 2).len() == 2,
        all_digits(digits(n, 2)),
        decimal_value(digits(n, 2)) == n,
{
    reveal_with_fuel(digits, 3);
    reveal_with_fuel(decimal_value, 3);
    let s = digits(n, 2);
    assert(s.drop_last().drop_last() =~= Seq::<char>::empty());
    assert(s.last() == digit((n % 10) as int));
    assert(s.drop_last().last() == digit((n / 10 % 10) as int));
}

proof fn lemma_three_places(n: nat)
    requires
        n < 1000,
    ensures
        digits(n, 3).len() == 3,
        all_digits(digits(n, 3)),
        decimal_value(digits(n, 3)) == n,
{
    reveal_with_fuel(digits, 4);
    reveal_with_fuel(decimal_value, 4);
    let s = digits(n, 3);
    assert(s.drop_last().drop_last().drop_last() =~= Seq::<char>::empty());
    assert(s.last() == digit((n % 10) as int));
    assert(s.drop_last().last() == digit((n / 10 % 10) as int));
    assert(s.drop_last().drop_last().last() == digit((n / 10 / 10 % 10) as int));
    assert(n / 10 / 10 % 10 == n / 100);
}

proof fn lemma_padded(n: nat)
    ensures
        padded(n, 2).len() >= 2,
        all_digits(padded(n, 2)),
        decimal_value(padded(n, 2)) == n,
{
    numerals_are_read_back(n);
    if decimal(n).len() < 2 {
        if n >= 10 {
            numerals_are_read_back(n / 10);
        }
        lemma_two_digits(n);
    }
}

/// A shown time reads as so many milliseconds: behind an optional sign hours of two digits
/// or more, minutes and seconds of two digits below 60, and three decimals.
pub open spec fn reads_as(text: Seq<char>, sign: int, millis: nat) -> bool {
    let n = text.len() as int;
    let hours = text.subrange(sign, n - 10);
    let minutes = text.subrange(n - 9, n - 7);
    let seconds = text.subrange(n - 6, n - 4);
    let decimals = text.subrange(n - 3, n);
    &&& n >= sign + 12
    &&& text[n - 10] == ':'
    &&& text[n - 7] == ':'
    &&& text[n - 4] == '.'
    &&& all_digits(hours) && all_digits(minutes) && all_digits(seconds) && all_digits(decimals)
    &&& decimal_value(minutes) < 60
    &&& decimal_value(seconds) < 60
    &&& decimal_value(hours) * 3_600_000 + decimal_value(minutes) * 60_000 + decimal_value(seconds)
        * 1_000 + decimal_value(decimals) == millis
}

proof fn lemma_clock(millis: nat, relative: bool)
    ensures
        reads_as(
            clock(millis, relative),
            if relative {
                1
            } else {
                0
            },
            millis,
        ),
        relative ==> clock(millis, relative)[0] == '+',
{
    reveal_strlit("+");
    reveal_strlit("");
    reveal_strlit(":");
    reveal_strlit(".");
    let text = clock(millis, relative);
    let n = text.len() as int;
    let sign = if relative {
        1int
    } else {
        0
    };
    lemma_padded(millis / 3_600_000);
    lemma_two_digits(millis / 60_000 % 60);
    lemma_two_digits(millis / 1_000 % 60);
    lemma_three_places(millis % 1_000);
    let front = if relative {
        "+"@
    } else {
        ""@
    };
    let hours = padded(millis / 3_600_000, 2);
    assert(text == front + hours + ":"@ + digits(millis / 60_000 % 60, 2) + ":"@ + digits(
        millis / 1_000 % 60,
        2,
    ) + "."@ + digits(millis % 1_000, 3));
    assert(n == sign + hours.len() + 10);
    assert(text.subrange(sign, n - 10) =~= hours);
    assert(text.subrange(n - 9, n - 7) =~= digits(millis / 60_000 % 60, 2));
    assert(text.subrange(n - 6, n - 4) =~= digits(millis / 1_000 % 60, 2));
    assert(text.subrange(n - 3, n) =~= digits(millis % 1_000, 3));
    lemma_parts_of_time(millis);
}

proof fn lemma_parts_of_time(millis: nat)
    ensures
        millis / 3_600_000 * 3_600_000 + millis / 60_000 % 60 * 60_000 + millis / 1_000 % 60 * 1_000
            + millis % 1_000 == millis,
{
    assert(millis / 60_000 == millis / 3_600_000 * 60 + millis / 60_000 % 60);
    assert(millis / 1_000 == millis / 60_000 * 60 + millis / 1_000 % 60);
}

/// The event belongs to a recording without a time of day, at this sample.
pub open spec fn is_at_sample(event: Cell, sample: nat) -> bool {
    &&& whole(cell_of(Some(event), "window_start_utc_ns"@)) is None
    &&& whole(cell_of(Some(event), "window_start_sample"@)) == Some(sample)
}

/// A relative time tells the place in the recording: 12 samples are one millisecond, and no
/// hour is left out however long the recording is.
pub proof fn relative_times_tell_the_place(event: Cell, sample: nat)
    requires
        is_at_sample(event, sample),
        sample * 1000 <= u128::MAX,
    ensures
        event_time(event)[0] == '+',
        reads_as(event_time(event), 1, sample / 12),
{
    lemma_clock(sample_millis(sample), true);
    assert(sample * 1000 / 12000 == sample / 12);
}

/// Windows a millisecond or more apart never show the same relative time.
pub proof fn relative_times_differ(a: Cell, b: Cell, first: nat, second: nat)
    requires
        is_at_sample(a, first),
        is_at_sample(b, second),
        first + 12 <= second,
        second * 1000 <= u128::MAX,
    ensures
        event_time(a) != event_time(b),
{
    relative_times_tell_the_place(a, first);
    relative_times_tell_the_place(b, second);
    assert(first / 12 < second / 12);
}

/// A window with a time shows its time of day to the millisecond, whatever its sample.
pub proof fn times_of_day_are_told(event: Cell, ns: nat)
    requires
        whole(cell_of(Some(event), "window_start_utc_ns"@)) == Some(ns),
    ensures
        reads_as(event_time(event), 0, (ns % 86_400_000_000_000) / 1_000_000),
        event_time(event).len() == 12,
{
    let millis = ns / 1_000_000 % 86_400_000;
    lemma_clock(millis, false);
    assert(millis == (ns % 86_400_000_000_000) / 1_000_000);
    let hours = millis / 3_600_000;
    assert(hours < 24);
    reveal_strlit("");
    reveal_strlit(":");
    reveal_strlit(".");
    lemma_two_digits(millis / 60_000 % 60);
    lemma_two_digits(millis / 1_000 % 60);
    lemma_three_places(millis % 1_000);
    lemma_two_digits(hours);
    numerals_are_read_back(hours);
    if hours >= 10 {
        assert(decimal(hours / 10) =~= seq![digit((hours / 10) as int)]);
        assert(decimal(hours).len() == 2);
    }
    assert(padded(hours, 2).len() == 2);
}

/// A duration reads as its seconds and three decimals.
pub proof fn durations_are_told(millis: nat)
    ensures
        ({
            let text = duration(millis);
            let n = text.len() as int;
            &&& n >= 7
            &&& text.subrange(n - 2, n) == seq![' ', 's']
            &&& text[n - 6] == '.'
            &&& decimal_value(text.subrange(0, n - 6)) * 1_000 + decimal_value(
                text.subrange(n - 5, n - 2),
            ) == millis
        }),
{
    reveal_strlit(".");
    reveal_strlit(" s");
    let text = duration(millis);
    let n = text.len() as int;
    numerals_are_read_back(millis / 1_000);
    lemma_three_places(millis % 1_000);
    assert(text.subrange(n - 2, n) =~= seq![' ', 's']);
    assert(text.subrange(0, n - 6) =~= decimal(millis / 1_000));
    assert(text.subrange(n - 5, n - 2) =~= digits(millis % 1_000, 3));
}

// ---------------------------------------------------------------------------
// Columns
// ---------------------------------------------------------------------------

/// Where a column starts: each before it takes its width and two spaces.
pub open spec fn column_start(widths: Seq<usize>, i: nat) -> int
    decreases i,
{
    if i == 0 {
        0
    } else {
        column_start(widths, (i - 1) as nat) + widths[i - 1] + 2
    }
}

/// Every column but the last holds its text.
pub open spec fn texts_fit(columns: Seq<Seq<char>>, widths: Seq<usize>) -> bool {
    &&& widths.len() == columns.len()
    &&& forall|i: int| 0 <= i < columns.len() - 1 ==> (#[trigger] columns[i]).len() <= widths[i]
}

/// The text stands at this place, with spaces behind it up to `end`.
pub open spec fn stands_at(line: Seq<char>, text: Seq<char>, start: int, end: int) -> bool {
    &&& 0 <= start
    &&& start + text.len() <= end <= line.len()
    &&& line.subrange(start, start + text.len()) == text
    &&& forall|k: int| start + text.len() <= k < end ==> #[trigger] line[k] == ' '
}

proof fn lemma_columns(columns: Seq<Seq<char>>, widths: Seq<usize>, n: nat)
    requires
        texts_fit(columns, widths),
        n < columns.len(),
    ensures
        columns_text(columns, widths, n).len() == column_start(widths, n),
        forall|i: int|
            0 <= i < n ==> stands_at(
                columns_text(columns, widths, n),
                #[trigger] columns[i],
                column_start(widths, i as nat),
                column_start(widths, (i + 1) as nat),
            ),
    decreases n,
{
    if n > 0 {
        lemma_columns(columns, widths, (n - 1) as nat);
        reveal_strlit("  ");
        let before = columns_text(columns, widths, (n - 1) as nat);
        let line = columns_text(columns, widths, n);
        let column = columns[n - 1];
        let start = column_start(widths, (n - 1) as nat);
        assert(column.len() <= widths[n - 1]);
        assert(line == before + column + crate::output::blanks(widths[n - 1] - column.len())
            + "  "@);
        assert(line.subrange(start, start + column.len()) =~= column);
        assert forall|i: int| 0 <= i < n implies stands_at(
            line,
            #[trigger] columns[i],
            column_start(widths, i as nat),
            column_start(widths, (i + 1) as nat),
        ) by {
            if i < n - 1 {
                let from = column_start(widths, i as nat);
                let to = column_start(widths, (i + 1) as nat);
                assert(stands_at(before, columns[i], from, to));
                assert(line.subrange(from, from + columns[i].len()) =~= before.subrange(
                    from,
                    from + columns[i].len(),
                ));
                assert forall|k: int| from + columns[i].len() <= k < to implies #[trigger] line[k]
                    == ' ' by {
                    assert(before[k] == ' ');
                }
            }
        }
    }
}

/// Every line has its columns at the same places, which the widths alone decide, filled up
/// with spaces; the last column and a line break end it.
pub proof fn columns_are_aligned(columns: Seq<Seq<char>>, widths: Seq<usize>)
    requires
        texts_fit(columns, widths),
        columns.len() > 0,
    ensures
        ({
            let line = columns_text(columns, widths, columns.len());
            let last = columns.len() - 1;
            &&& forall|i: int|
                0 <= i < last ==> stands_at(
                    line,
                    #[trigger] columns[i],
                    column_start(widths, i as nat),
                    column_start(widths, (i + 1) as nat),
                )
            &&& line.len() == column_start(widths, last as nat) + columns[last].len() + 1
            &&& line.subrange(column_start(widths, last as nat), line.len() - 1) == columns[last]
            &&& line.last() == '\n'
        }),
{
    let last = columns.len() - 1;
    lemma_columns(columns, widths, last as nat);
    reveal_strlit("\n");
    let before = columns_text(columns, widths, last as nat);
    let line = columns_text(columns, widths, columns.len());
    assert(line == before + columns[last] + "\n"@);
    assert(line.subrange(column_start(widths, last as nat), line.len() - 1) =~= columns[last]);
    assert forall|i: int| 0 <= i < last implies stands_at(
        line,
        #[trigger] columns[i],
        column_start(widths, i as nat),
        column_start(widths, (i + 1) as nat),
    ) by {
        let from = column_start(widths, i as nat);
        let to = column_start(widths, (i + 1) as nat);
        assert(stands_at(before, columns[i], from, to));
        assert(line.subrange(from, from + columns[i].len()) =~= before.subrange(
            from,
            from + columns[i].len(),
        ));
        assert forall|k: int| from + columns[i].len() <= k < to implies #[trigger] line[k] == ' ' by {
            assert(before[k] == ' ');
        }
    }
}

/// A decoded signal always writes its line, and a heading before it exactly where there was
/// none yet or a column has become wider; a message alone never has a heading.
pub proof fn decodes_are_always_written(s: RenderState, fields: Seq<Seq<char>>, event: Cell)
    requires
        s.widths.len() == fields.len(),
    ensures
        ({
            let r = rendered_decode(s, fields, event);
            let line = columns_text(texts_of(event, fields), r.state.widths, fields.len());
            let top = columns_text(headings_of(fields), r.state.widths, fields.len());
            let wider = exists|i: int|
                0 <= i < fields.len() && #[trigger] r.state.widths[i] != s.widths[i];
            let alone = fields.len() == 1 && fields[0] == "message"@;
            &&& r.out == (if (!s.wrote_header || wider) && !alone {
                top + line
            } else {
                line
            })
            &&& r.diagnostics.len() == 0
            &&& r.state.errors == s.errors
            &&& r.state.last_slot == s.last_slot
            &&& r.state.summary == s.summary
        }),
{
    let r = rendered_decode(s, fields, event);
    let line = columns_text(texts_of(event, fields), r.state.widths, fields.len());
    assert(crate::output::resized(s.widths, fields.len()) =~= s.widths);
    assert(Seq::<char>::empty() + line =~= line);
    let wider = exists|i: int| 0 <= i < fields.len() && #[trigger] r.state.widths[i] != s.widths[i];
    if !wider {
        assert(r.state.widths =~= s.widths);
    }
    if fields.len() == 1 && fields[0] == "message"@ {
        assert(fields =~= seq!["message"@]);
    }
}

// ---------------------------------------------------------------------------
// Kinds of events
// ---------------------------------------------------------------------------

/// The status that an event tells.
pub open spec fn status_is(event: Cell, name: Seq<char>) -> bool {
    text_cell(cell_of(Some(event), "status"@)) == Some(name)
}

proof fn lemma_kinds()
    ensures
        "decode"@ != "input"@,
        "decode"@ != "done"@,
        "decode"@ != "warning"@,
        "decode"@ != "error"@,
        "decode"@ != "finish"@,
        "decode"@ != "ok"@,
        "done"@ != "input"@,
        "done"@ != "warning"@,
        "done"@ != "error"@,
        "done"@ != "finish"@,
        "done"@ != "ok"@,
        "error"@ != "input"@,
        "error"@ != "warning"@,
        "error"@ != "finish"@,
        "error"@ != "ok"@,
        "completed"@ != "skipped"@,
        "completed"@ != "cancelled"@,
        "completed"@ != "failed"@,
        "skipped"@ != "cancelled"@,
        "skipped"@ != "failed"@,
        "cancelled"@ != "failed"@,
{
    reveal_strlit("decode");
    reveal_strlit("input");
    reveal_strlit("done");
    reveal_strlit("warning");
    reveal_strlit("error");
    reveal_strlit("finish");
    reveal_strlit("ok");
    reveal_strlit("completed");
    reveal_strlit("skipped");
    reveal_strlit("cancelled");
    reveal_strlit("failed");
    assert("decode"@[0] == 'd' && "finish"@[0] == 'f');
    assert("error"@[0] == 'e' && "input"@[0] == 'i');
    assert("completed"@[1] == 'o' && "cancelled"@[1] == 'a');
    assert("warning"@.len() == 7 && "skipped"@.len() == 7);
    assert("failed"@.len() == 6 && "done"@.len() == 4 && "ok"@.len() == 2);
}

/// The end of a window is counted once as a window and once by its status, and its messages
/// and candidates are added up; other counters stay.
pub proof fn windows_are_counted_once(s: Summary, event: Cell)
    requires
        s.has_room(),
    ensures
        ({
            let t = counted(s, event);
            let one = |name: Seq<char>|
                if status_is(event, name) {
                    1int
                } else {
                    0
                };
            &&& t.windows == s.windows + 1
            &&& t.completed == s.completed + one("completed"@)
            &&& t.skipped == s.skipped + one("skipped"@)
            &&& t.cancelled == s.cancelled + one("cancelled"@)
            &&& t.failed == s.failed + one("failed"@)
            &&& t.completed + t.skipped + t.cancelled + t.failed <= s.completed + s.skipped
                + s.cancelled + s.failed + 1
            &&& t.messages - s.messages == integer(cell_of(Some(event), "message_count"@))
            &&& t.candidates - s.candidates == integer(
                cell_of(cell_of(Some(event), "stats"@), "candidates"@),
            )
            &&& t.converted_millis == s.converted_millis
            &&& s.has_stats ==> t.has_stats
        }),
{
    lemma_kinds();
}

/// The summary changes only by the ends of windows, and by a description of the input.
pub proof fn only_windows_are_counted(
    s: RenderState,
    options: OutputOptions,
    event: Cell,
    decode_ms: Seq<char>,
)
    requires
        options.format == OutputFormat::Text,
    ensures
        ({
            let t = rendered(s, options, event, decode_ms).state;
            &&& event_kind(event) == "done"@ ==> t.summary == counted(s.summary, event)
            &&& event_kind(event) != "done"@ ==> t.summary == (Summary {
                converted_millis: t.summary.converted_millis,
                ..s.summary
            })
            &&& event_kind(event) != "input"@ ==> t.summary.converted_millis
                == s.summary.converted_millis
        }),
{
    lemma_kinds();
}

/// Errors and failed windows are noted, whatever the format, and nothing else is.
pub proof fn failures_are_noted(
    s: RenderState,
    options: OutputOptions,
    event: Cell,
    decode_ms: Seq<char>,
)
    ensures
        rendered(s, options, event, decode_ms).state.errors == (s.errors || event_kind(event)
            == "error"@ || (event_kind(event) == "done"@ && status_is(event, "failed"@))),
{
    lemma_kinds();
}

/// Errors and failed windows are told even when all else is quiet: as a line of its own
/// with the event's message, or else its reason.
pub proof fn failures_are_told(
    s: RenderState,
    options: OutputOptions,
    event: Cell,
    decode_ms: Seq<char>,
)
    requires
        options.format == OutputFormat::Text,
        event_kind(event) == "error"@ || (event_kind(event) == "done"@ && status_is(
            event,
            "failed"@,
        )),
    ensures
        ({
            let told = rendered(s, options, event, decode_ms).diagnostics;
            let why = match cell_of(Some(event), "message"@) {
                Some(message) => crate::output::value_text(message),
                None => match cell_of(Some(event), "reason"@) {
                    Some(reason) => crate::output::value_text(reason),
                    None => "unknown failure"@,
                },
            };
            &&& told.len() == 8 + why.len()
            &&& told.take(7) == seq!['E', 'r', 'r', 'o', 'r', ':', ' ']
            &&& told.subrange(7, told.len() - 1) == why
            &&& told.last() == '\n'
        }),
{
    lemma_kinds();
    reveal_strlit("Error");
    reveal_strlit(": ");
    reveal_strlit("\n");
    let told = rendered(s, options, event, decode_ms).diagnostics;
    let why = match cell_of(Some(event), "message"@) {
        Some(message) => crate::output::value_text(message),
        None => match cell_of(Some(event), "reason"@) {
            Some(reason) => crate::output::value_text(reason),
            None => "unknown failure"@,
        },
    };
    assert(told == "Error"@ + ": "@ + why + "\n"@);
    assert(told.take(7) =~= seq!['E', 'r', 'r', 'o', 'r', ':', ' ']);
    assert(told.subrange(7, told.len() - 1) =~= why);
}

/// Output of decodes never goes to the diagnostics, and nothing but decodes and separators
/// goes to the output; JSON lines are written elsewhere.
pub proof fn results_are_kept_apart(
    s: RenderState,
    options: OutputOptions,
    event: Cell,
    decode_ms: Seq<char>,
)
    ensures
        ({
            let r = rendered(s, options, event, decode_ms);
            &&& event_kind(event) == "decode"@ ==> r.diagnostics.len() == 0
            &&& options.format == OutputFormat::Jsonl ==> r.out.len() == 0 && r.diagnostics.len()
                == 0 && r.state == (RenderState { errors: r.state.errors, ..s })
            &&& event_kind(event) != "decode"@ && !options.slot_separators ==> r.out.len() == 0
            &&& event_kind(event) != "decode"@ && event_kind(event) != "done"@ ==> r.out.len() == 0
        }),
{
    lemma_kinds();
}

/// With separators on, each decode or end of a window is preceded by one exactly where its
/// window is another than that of the event before, which it shows the time of.
pub proof fn separators_stand_between_windows(
    s: RenderState,
    options: OutputOptions,
    event: Cell,
    decode_ms: Seq<char>,
    slot: nat,
)
    requires
        options.format == OutputFormat::Text,
        event_kind(event) == "decode"@ || event_kind(event) == "done"@,
        whole(cell_of(Some(event), "window_start_sample"@)) == Some(slot),
        slot <= u128::MAX,
    ensures
        ({
            let off = OutputOptions { slot_separators: false, ..options };
            let on = OutputOptions { slot_separators: true, ..options };
            let r = rendered(s, on, event, decode_ms);
            let plain = rendered(s, off, event, decode_ms);
            let apart = s.last_slot matches Some(last) && last != slot;
            &&& r.state.last_slot == Some(slot as u128)
            &&& plain.state.last_slot == s.last_slot
            &&& r.diagnostics == plain.diagnostics
            &&& r.out == (if apart {
                "--- "@ + event_time(event) + " ---\n"@ + plain.out
            } else {
                plain.out
            })
        }),
{
    lemma_kinds();
    let off = OutputOptions { slot_separators: false, ..options };
    let on = OutputOptions { slot_separators: true, ..options };
    let r = rendered(s, on, event, decode_ms);
    let plain = rendered(s, off, event, decode_ms);
    assert(on.columns() == off.columns());
    assert(Seq::<char>::empty() + plain.out =~= plain.out);
}

} // verus!
