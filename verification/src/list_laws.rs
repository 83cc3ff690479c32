//! What the list decoder tries, and what it remembers.
use vstd::arithmetic::power2::{
    lemma2_to64, lemma_pow2_adds, lemma_pow2_pos, lemma_pow2_strictly_increases, pow2,
};
use vstd::prelude::*;
use crate::assistance::{Activity, ApMode};
use crate::engine::DecodeSettings;
use crate::fec::encoded;
use crate::ft8_list::{
    are_close, entry_of, hypotheses_upto, hypothesis_of, hypothesis_text, is_common_call, is_known,
    is_place, list_remembered, parity, HeardModel, ListHypothesis, ListModel,
};
use crate::ft8_list_search::{earlier, is_contact_due, is_due, task_after, task_from, Task};
use crate::message_encode::payload_of_text;
use crate::quantities::{HZ_2_5, HZ_3, HZ_5};
use crate::single::{exponent, finite, signed_units, significand, units, within};
use crate::sums::{lemma_next_units, lemma_reach_between};
use crate::text::{is_space, is_word, lemma_three_words, starts_with, trim_end};
use crate::wire::signed_two;
use crate::worker_laws::distance;

verus! {

// ---------------------------------------------------------------------------
// Hypotheses
// ---------------------------------------------------------------------------

/// A message of this text, with the payload and the codeword in which it is sent.
pub open spec fn is_sent_as(h: ListHypothesis, text: Seq<char>, bits: Seq<bool>) -> bool {
    h.text == text && h.bits == bits && h.codeword == encoded(bits)
}

/// The text is among the messages that are tried, where it can be sent.
pub open spec fn is_tried(
    call1: Seq<char>,
    call2: Seq<char>,
    grid: Seq<char>,
    a8: bool,
    text: Seq<char>,
) -> bool {
    payload_of_text(text) matches Ok(bits) ==> exists|k: int|
        0 <= k < hypotheses_upto(call1, call2, grid, a8, 206).len() && is_sent_as(
            #[trigger] hypotheses_upto(call1, call2, grid, a8, 206)[k],
            text,
            bits,
        )
}

proof fn lemma_kept(
    call1: Seq<char>,
    call2: Seq<char>,
    grid: Seq<char>,
    a8: bool,
    i: int,
    n: nat,
)
    requires
        1 <= i <= n,
        hypothesis_of(call1, call2, grid, a8, i) is Some,
    ensures
        exists|k: int|
            0 <= k < hypotheses_upto(call1, call2, grid, a8, n).len() && #[trigger] hypotheses_upto(
                call1,
                call2,
                grid,
                a8,
                n,
            )[k] == hypothesis_of(call1, call2, grid, a8, i)->0,
    decreases n,
{
    let all = hypotheses_upto(call1, call2, grid, a8, n);
    let rest = hypotheses_upto(call1, call2, grid, a8, (n - 1) as nat);
    if i == n {
        assert(all[rest.len() as int] == hypothesis_of(call1, call2, grid, a8, i)->0);
    } else {
        lemma_kept(call1, call2, grid, a8, i, (n - 1) as nat);
        let k = choose|k: int|
            0 <= k < rest.len() && #[trigger] rest[k] == hypothesis_of(
                call1,
                call2,
                grid,
                a8,
                i,
            )->0;
        assert(all[k] == rest[k]);
    }
}

proof fn lemma_tried(
    call1: Seq<char>,
    call2: Seq<char>,
    grid: Seq<char>,
    a8: bool,
    i: int,
    text: Seq<char>,
)
    requires
        1 <= i <= 206,
        hypothesis_text(call1, call2, grid, a8, i) == text,
        text.len() > 0,
    ensures
        is_tried(call1, call2, grid, a8, text),
{
    if payload_of_text(text) is Ok {
        lemma_kept(call1, call2, grid, a8, i, 206);
    }
}

proof fn lemma_untrimmed(s: Seq<char>)
    requires
        s.len() > 0,
        !is_space(s.last()),
    ensures
        trim_end(s) == s,
{
}

/// Between two stations with calls of the common form every closing message is tried, the
/// call with the locator, and the call for anybody with it.
pub proof fn closing_messages_are_tried(
    call1: Seq<char>,
    call2: Seq<char>,
    grid: Seq<char>,
    a8: bool,
)
    requires
        call1 != "CQ"@,
        is_common_call(call1),
        is_common_call(call2),
        grid.len() > 0,
        !is_space(grid.last()),
        grid != "RR73"@,
    ensures
        is_tried(call1, call2, grid, a8, call1 + " "@ + call2),
        is_tried(call1, call2, grid, a8, call1 + " "@ + call2 + " RRR"@),
        is_tried(call1, call2, grid, a8, call1 + " "@ + call2 + " RR73"@),
        is_tried(call1, call2, grid, a8, call1 + " "@ + call2 + " 73"@),
        is_tried(call1, call2, grid, a8, call1 + " "@ + call2 + " "@ + grid),
        is_tried(call1, call2, grid, a8, "CQ "@ + call2 + " "@ + grid),
{
    reveal_strlit(" ");
    lemma_tried(call1, call2, grid, a8, 1, call1 + " "@ + call2);
    lemma_tried(call1, call2, grid, a8, 2, call1 + " "@ + call2 + " RRR"@);
    lemma_tried(call1, call2, grid, a8, 3, call1 + " "@ + call2 + " RR73"@);
    lemma_tried(call1, call2, grid, a8, 4, call1 + " "@ + call2 + " 73"@);
    let cq = "CQ "@ + call2 + " "@ + grid;
    assert(cq.last() == grid.last());
    lemma_untrimmed(cq);
    lemma_tried(call1, call2, grid, a8, 5, cq);
    let located = call1 + " "@ + call2 + " "@ + grid;
    assert(located.last() == grid.last());
    lemma_untrimmed(located);
    lemma_tried(call1, call2, grid, a8, 6, located);
}

/// Between two stations with calls of the common form every report from -30 to 30 is tried,
/// plain and with a roger, and from -50 to 49 after what was heard.
pub proof fn reports_are_tried(
    call1: Seq<char>,
    call2: Seq<char>,
    grid: Seq<char>,
    a8: bool,
    report: int,
)
    requires
        call1 != "CQ"@,
        is_common_call(call1),
        is_common_call(call2),
        a8 ==> -30 <= report <= 30,
        -50 <= report <= 49,
    ensures
        is_tried(call1, call2, grid, a8, call1 + " "@ + call2 + " "@ + signed_two(report)),
        is_tried(call1, call2, grid, a8, call1 + " "@ + call2 + " R"@ + signed_two(report)),
{
    reveal_strlit(" ");
    reveal_strlit(" R");
    reveal_strlit("R");
    reveal_strlit("");
    let prefix = call1 + " "@ + call2;
    let i = 7 + 2 * (report + 50);
    assert(prefix + " "@ + ""@ + signed_two(report) =~= prefix + " "@ + signed_two(report));
    lemma_tried(call1, call2, grid, a8, i, prefix + " "@ + signed_two(report));
    assert(prefix + " "@ + "R"@ + signed_two(report) =~= prefix + " R"@ + signed_two(report));
    lemma_tried(call1, call2, grid, a8, i + 1, prefix + " R"@ + signed_two(report));
}

/// Nothing is tried but messages in the form in which they are sent, blank ones apart.
pub proof fn tried_messages_can_be_sent(
    call1: Seq<char>,
    call2: Seq<char>,
    grid: Seq<char>,
    a8: bool,
    n: nat,
    k: int,
)
    requires
        0 <= k < hypotheses_upto(call1, call2, grid, a8, n).len(),
    ensures
        ({
            let h = hypotheses_upto(call1, call2, grid, a8, n)[k];
            &&& h.codeword == encoded(h.bits)
            &&& h.text.len() > 0 ==> payload_of_text(h.text) is Ok && payload_of_text(h.text)->Ok_0
                == h.bits
        }),
    decreases n,
{
    let rest = hypotheses_upto(call1, call2, grid, a8, (n - 1) as nat);
    if k < rest.len() {
        tried_messages_can_be_sent(call1, call2, grid, a8, (n - 1) as nat, k);
    }
}

// ---------------------------------------------------------------------------
// Memory
// ---------------------------------------------------------------------------

proof fn lemma_three_hertz()
    ensures
        units(HZ_3) == 3 * pow2(149),
        crate::single::reach(HZ_3) < 7 * pow2(149),
{
    lemma2_to64();
    lemma_pow2_adds(22, 127);
    lemma_pow2_pos(127);
    let a = pow2(127) as int;
    assert(exponent(HZ_3) == 128 && significand(HZ_3) == 3 * 0x40_0000);
    assert(3 * 0x40_0000 * a == 3 * (0x40_0000 * a)) by (nonlinear_arith);
    assert((2 * (3 * 0x40_0000) + 1) * a < 7 * (0x40_0000 * a)) by (nonlinear_arith)
        requires
            a > 0,
    ;
}

/// Entries lie close where they are at most 3 Hz apart, and do not from 3.5 Hz on.
pub proof fn closeness_is_three_hertz(a: HeardModel, b: HeardModel)
    requires
        finite(a.frequency),
        finite(b.frequency),
    ensures
        distance(a.frequency, b.frequency) <= 3 * pow2(149) ==> are_close(a, b),
        2 * distance(a.frequency, b.frequency) >= 7 * pow2(149) ==> !are_close(a, b),
{
    lemma_three_hertz();
    lemma_reach_between(HZ_3);
}

/// A message from one station to another with a locator is remembered with both calls, the
/// locator and its place, unless the two were heard close by already or 200 others were.
pub proof fn located_calls_are_remembered(
    list: ListModel,
    slot: u64,
    call1: Seq<char>,
    call2: Seq<char>,
    grid: Seq<char>,
    frequency: u32,
    dt: u32,
)
    requires
        list.slot == Some(slot),
        is_common_call(call1) || call1 == "CQ"@,
        is_common_call(call2),
        is_place(grid),
        is_plain_word(call1),
        is_plain_word(call2),
        is_plain_word(grid),
        call1 != "CQ"@ ==> !starts_with(call1, "CQ"@),
        frequency <= 0x45bb_8000,
        dt <= 0x4170_0000 || 0x8000_0000 <= dt <= 0xc170_0000,
        parity(list, slot).current.len() < 200,
    ensures
        ({
            let text = call1 + seq![' '] + call2 + seq![' '] + grid;
            let entry = HeardModel { call1, call2, grid, frequency, dt, available: true };
            let before = parity(list, slot).current;
            let after = parity(list_remembered(list, text, frequency, dt), slot).current;
            &&& (forall|i: int|
                0 <= i < before.len() ==> (#[trigger] before[i]).call1 != call1 || before[i].call2
                    != call2 || !within(before[i].frequency, frequency, HZ_3)) ==> after
                == before.push(entry)
            &&& (exists|i: int|
                0 <= i < before.len() && (#[trigger] before[i]).call1 == call1 && before[i].call2
                    == call2 && within(before[i].frequency, frequency, HZ_3)) ==> after == before
        }),
{
    let text = call1 + seq![' '] + call2 + seq![' '] + grid;
    let entry = HeardModel { call1, call2, grid, frequency, dt, available: true };
    lemma_three_words(call1, call2, grid);
    let w = seq![call1, call2, grid];
    assert(w.last() == grid);
    assert forall|i: int| 0 <= i < text.len() implies !is_mark(#[trigger] text[i]) by {
        let a = call1.len() as int;
        let b = a + 1 + call2.len();
        if i < a {
            assert(text[i] == call1[i]);
        } else if a < i < b {
            assert(text[i] == call2[i - a - 1]);
        } else if b < i {
            assert(text[i] == grid[i - b - 1]);
        } else {
            assert(text[i] == ' ');
        }
    }
    assert(!text.contains('/') && !text.contains('<') && !text.contains('>'));
    assert(!starts_with(text, "CQ_"@)) by {
        reveal_strlit("CQ");
        reveal_strlit("CQ_");
        if starts_with(text, "CQ_"@) {
            assert(text.take(3)[0] == 'C' && text.take(3)[1] == 'Q' && text.take(3)[2] == '_');
            assert(text[0] == 'C' && text[1] == 'Q' && text[2] == '_');
            if call1 == "CQ"@ {
                assert(text[2] == ' ');
            } else {
                assert(call1[0] == text[0]);
                if call1.len() == 1 {
                    assert(text[1] == ' ');
                } else {
                    assert(call1[1] == text[1]);
                    assert(call1.take(2) =~= "CQ"@);
                }
            }
        }
    }
    assert(entry_of(text, frequency, dt) == Some(entry));
    let before = parity(list, slot).current;
    if exists|i: int|
        0 <= i < before.len() && (#[trigger] before[i]).call1 == call1 && before[i].call2 == call2
            && within(before[i].frequency, frequency, HZ_3) {
        let i = choose|i: int|
            0 <= i < before.len() && (#[trigger] before[i]).call1 == call1 && before[i].call2
                == call2 && within(before[i].frequency, frequency, HZ_3);
        assert(are_close(before[i], entry));
        assert(is_known(before, entry));
    }
}

/// One of the marks of compound and hidden calls.
pub open spec fn is_mark(c: char) -> bool {
    c == '/' || c == '<' || c == '>'
}

/// A word without such marks.
pub open spec fn is_plain_word(word: Seq<char>) -> bool {
    is_word(word) && forall|i: int| 0 <= i < word.len() ==> !is_mark(#[trigger] word[i])
}

// ---------------------------------------------------------------------------
// Searches
// ---------------------------------------------------------------------------

/// An entry within the band is due while it is available. One that is not, or lies 3 Hz or
/// more outside the band, is not.
pub proof fn entries_in_the_band_are_due(entry: HeardModel, settings: DecodeSettings)
    requires
        finite(settings.low_hz),
        finite(settings.high_hz),
        0 <= signed_units(settings.high_hz),
        entry.frequency <= 0x45bb_8000,
    ensures
        entry.available && signed_units(settings.low_hz) <= units(entry.frequency) <= signed_units(
            settings.high_hz,
        ) ==> is_due(entry, settings),
        !entry.available ==> !is_due(entry, settings),
        units(entry.frequency) + 3 * pow2(149) <= signed_units(settings.low_hz) ==> !is_due(
            entry,
            settings,
        ),
        units(entry.frequency) >= signed_units(settings.high_hz) + 3 * pow2(149) ==> !is_due(
            entry,
            settings,
        ),
{
    let value = entry.frequency;
    lemma_two_and_a_half();
    lemma_pow2_pos(149);
    lemma_reach_between(value);
    lemma_step_below(value);
    if value > 0 {
        lemma_reach_between((value - 1) as u32);
    }
}

proof fn lemma_two_and_a_half()
    ensures
        2 * signed_units(HZ_2_5) == 5 * pow2(149),
{
    lemma2_to64();
    lemma_pow2_adds(22, 127);
    let a = pow2(127) as int;
    assert(exponent(HZ_2_5) == 128 && significand(HZ_2_5) == 5 * 0x20_0000);
    assert(2 * (5 * 0x20_0000 * a) == 5 * (0x40_0000 * a)) by (nonlinear_arith);
}

/// Values up to 6000 Hz lie closer than half a Hertz to the next one and the one before.
proof fn lemma_step_below(value: u32)
    requires
        value <= 0x45bb_8000,
    ensures
        2 * (units((value + 1) as u32) - units(value)) < pow2(149),
        value > 0 ==> 2 * (units(value) - units((value - 1) as u32)) < pow2(149),
{
    lemma_step_above(value);
    if value > 0 {
        lemma_step_above((value - 1) as u32);
    }
}

proof fn lemma_step_above(value: u32)
    requires
        value <= 0x45bb_8000,
    ensures
        2 * (units((value + 1) as u32) - units(value)) < pow2(149),
{
    lemma_next_units(value);
    let e = (exponent(value) - 1) as nat;
    assert(e <= 138);
    lemma_pow2_strictly_increases(e, 148);
    lemma_pow2_adds(1, 148);
    lemma2_to64();
}

/// A search that is not stopped tries every due entry that is left, the nearest first, then
/// the contact where that is due, and then ends.
pub proof fn due_entries_are_tried(list: ListModel, settings: DecodeSettings, from: int, k: int)
    requires
        0 <= from <= k <= earlier(list).len(),
        earlier(list).len() <= usize::MAX,
        k < earlier(list).len() ==> is_due(earlier(list)[k], settings),
        forall|i: int| from <= i < k ==> !is_due(#[trigger] earlier(list)[i], settings),
    ensures
        task_from(list, settings, true, from) == Task::Finish,
        k < earlier(list).len() ==> task_from(list, settings, false, from) == Task::Recall(
            k as usize,
        ),
        k == earlier(list).len() && is_contact_due(list, settings) ==> task_from(
            list,
            settings,
            false,
            from,
        ) == Task::Contact,
        k == earlier(list).len() && !is_contact_due(list, settings) ==> task_from(
            list,
            settings,
            false,
            from,
        ) == Task::Finish,
    decreases k - from,
{
    if from < k {
        assert(!is_due(earlier(list)[from], settings));
        due_entries_are_tried(list, settings, from + 1, k);
    }
}

/// A list search is made exactly where assistance from everything known is asked for, by
/// neither a Fox nor a Hound, there is sound, and something is there to try: an entry or a
/// described contact.
pub proof fn searches_are_made_where_they_can_help(
    list: ListModel,
    settings: DecodeSettings,
    silent: bool,
    cancel: bool,
)
    ensures
        ({
            let next = task_after(Task::Begin, list, settings, silent, cancel);
            let wanted = settings.assistance && settings.ap.mode == ApMode::Auto
                && settings.ap.activity != Activity::Fox && settings.ap.activity
                != Activity::Hound;
            let entry = exists|i: int|
                0 <= i < earlier(list).len() && (#[trigger] earlier(list)[i]).available;
            let contact = settings.priority_hz is Some && settings.ap.my_call is Some
                && settings.ap.dx_call is Some && settings.ap.dx_grid is Some;
            &&& wanted && (entry || contact) && !silent && !cancel ==> next == Task::Prepare
            &&& !(wanted && (entry || contact) && !silent && !cancel) ==> next == Task::Finish
        }),
{
}

/// A described contact within the band is due unless that station was heard in this slot.
pub proof fn contacts_in_the_band_are_due(
    list: ListModel,
    settings: DecodeSettings,
    hz: u32,
    slot: u64,
)
    requires
        list.slot == Some(slot),
        settings.priority_hz == Some(hz),
        settings.ap.my_call is Some,
        settings.ap.dx_call is Some,
        settings.ap.dx_grid is Some,
        finite(settings.low_hz),
        finite(settings.high_hz),
        hz <= 0x459c_4000,
        signed_units(settings.low_hz) <= units(hz) <= signed_units(settings.high_hz),
    ensures
        ({
            let dx = settings.ap.dx_call->0@;
            let heard = parity(list, slot).current;
            is_contact_due(list, settings) <==> forall|i: int|
                0 <= i < heard.len() ==> (#[trigger] heard[i]).call1 != dx && heard[i].call2 != dx
        }),
{
    lemma_five();
    lemma_pow2_pos(149);
    lemma_reach_between(hz);
    if hz > 0 {
        lemma_reach_between((hz - 1) as u32);
        lemma_step_below(hz);
    }
}

proof fn lemma_five()
    ensures
        signed_units(HZ_5) == 5 * pow2(149),
{
    lemma2_to64();
    lemma_pow2_adds(21, 128);
    let a = pow2(128) as int;
    assert(exponent(HZ_5) == 129 && significand(HZ_5) == 5 * 0x20_0000);
    assert(5 * 0x20_0000 * a == 5 * (0x20_0000 * a)) by (nonlinear_arith);
}

} // verus!
