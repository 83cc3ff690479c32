//! What settings mean, and what a document changes in them.
use vstd::arithmetic::power2::{lemma2_to64, lemma_pow2_adds, lemma_pow2_pos, pow2};
use vstd::prelude::*;
use crate::assistance::{within, Activity, ApMode, ContactState};
use crate::engine::{not_above_5000, not_below_zero, SettingsModel};
use crate::input_laws::only_listed_members_are_accepted;
use crate::json::{find_entry, listed, member, Json};
use crate::quantities::{HZ_1000, HZ_50, HZ_5000};
use crate::single::{exponent, finite, narrower_than_50, reach, signed_units, significand, units};
use crate::stream_settings::{
    contact_complaint, numbers_complaint, replaced, update_complaint, SETTING_NAMES,
};
use crate::sums::lemma_units_increase;
use crate::text::{trim, uppercase};

verus! {

// ---------------------------------------------------------------------------
// Bounds
// ---------------------------------------------------------------------------

/// So many Hertz in the units of a single precision value, which are two to the power of
/// minus 149.
pub open spec fn hertz(n: int) -> int {
    n * pow2(149)
}

/// A finite value from zero to so many Hertz.
pub open spec fn is_frequency(bits: u32, most: int) -> bool {
    finite(bits) && 0 <= signed_units(bits) <= hertz(most)
}

proof fn lemma_zero()
    ensures
        units(0) == 0,
{
    assert(significand(0) == 0);
    assert(0 * pow2(0) == 0) by (nonlinear_arith);
}

proof fn lemma_not_above(bits: u32, high: u32)
    requires
        bits < 0x7f80_0000,
        high < 0x7f80_0000,
    ensures
        0 <= units(bits),
        0 < bits <==> 0 < units(bits),
        bits <= high <==> units(bits) <= units(high),
{
    lemma_zero();
    if 0 < bits {
        lemma_units_increase(0, bits);
    }
    if bits < high {
        lemma_units_increase(bits, high);
    } else if high < bits {
        lemma_units_increase(high, bits);
    }
}

proof fn lemma_hertz()
    ensures
        units(HZ_5000) == hertz(5000),
        units(HZ_1000) == hertz(1000),
        reach((HZ_50 - 1) as u32) == (50 * 0x8_0000 - 1) * pow2(131),
        pow2(149) == 0x4_0000 * pow2(131),
{
    lemma2_to64();
    lemma_pow2_adds(11, 138);
    lemma_pow2_adds(14, 135);
    lemma_pow2_adds(18, 131);
    let a = pow2(138) as int;
    let b = pow2(135) as int;
    assert(exponent(HZ_5000) == 139 && significand(HZ_5000) == 5000 * 0x800);
    assert(exponent(HZ_1000) == 136 && significand(HZ_1000) == 1000 * 0x4000);
    assert(exponent((HZ_50 - 1) as u32) == 132 && significand((HZ_50 - 1) as u32) == 50 * 0x4_0000
        - 1);
    assert(5000 * 0x800 * a == 5000 * (0x800 * a)) by (nonlinear_arith);
    assert(1000 * 0x4000 * b == 1000 * (0x4000 * b)) by (nonlinear_arith);
}

proof fn lemma_frequency(bits: u32)
    ensures
        within(bits, HZ_5000) <==> is_frequency(bits, 5000),
        within(bits, HZ_1000) <==> is_frequency(bits, 1000),
        finite(bits) ==> (not_below_zero(bits) <==> 0 <= signed_units(bits)),
        finite(bits) ==> (not_above_5000(bits) <==> signed_units(bits) <= hertz(5000)),
{
    lemma_hertz();
    lemma_zero();
    lemma_pow2_pos(149);
    assert(0 <= hertz(5000) && 0 <= hertz(1000));
    if finite(bits) {
        if bits < 0x8000_0000 {
            lemma_not_above(bits, HZ_5000);
            lemma_not_above(bits, HZ_1000);
        } else {
            lemma_not_above((bits - 0x8000_0000) as u32, 0);
        }
    }
}

/// Settings are accepted where the searched band lies within 0 and 5000 Hz and is 50 Hz wide
/// or more, as far as its width can be told in single precision, where the tolerance is at
/// most 1000 Hz, the depth one of 1 to 3, and the threads are 1 to 12, and no others.
pub proof fn settings_are_bounded(s: SettingsModel)
    ensures
        s.complaint() is None <==> {
            &&& finite(s.low_hz) && finite(s.high_hz)
            &&& 0 <= signed_units(s.low_hz) && signed_units(s.high_hz) <= hertz(5000)
            &&& (signed_units(s.high_hz) - signed_units(s.low_hz)) * 0x8_0000 >= hertz(
                50 * 0x8_0000 - 1,
            )
            &&& s.priority_hz matches Some(hz) ==> is_frequency(hz, 5000)
            &&& is_frequency(s.priority_tolerance_hz, 1000)
            &&& s.depth == 1 || s.depth == 2 || s.depth == 3
            &&& 1 <= s.threads <= 12
            &&& s.ap.complaint() is None
        },
        s.ap.complaint() is None ==> is_frequency(s.ap.width_hz, 1000) && (s.ap.tx_hz matches Some(
            hz,
        ) ==> is_frequency(hz, 5000)) && s.ap.known_calls.len() <= 400,
{
    lemma_frequency(s.low_hz);
    lemma_frequency(s.high_hz);
    lemma_frequency(s.priority_tolerance_hz);
    lemma_frequency(s.ap.width_hz);
    if s.priority_hz is Some {
        lemma_frequency(s.priority_hz->0);
    }
    if s.ap.tx_hz is Some {
        lemma_frequency(s.ap.tx_hz->0);
    }
    lemma_hertz();
    let wide = signed_units(s.high_hz) - signed_units(s.low_hz);
    let p = pow2(131) as int;
    let n = 50 * 0x8_0000 - 1;
    assert(n * (0x4_0000 * p) == 0x4_0000 * (n * p)) by (nonlinear_arith);
    assert((HZ_50 - 1) as u32 % 2 == 1);
    assert(narrower_than_50(s.low_hz, s.high_hz) <==> 2 * wide < n * p);
}

// ---------------------------------------------------------------------------
// Updates
// ---------------------------------------------------------------------------

/// The members of an object have different names.
pub open spec fn are_distinct(entries: Seq<(String, Json)>) -> bool {
    forall|i: int, j: int|
        0 <= i < j < entries.len() ==> (#[trigger] entries[i]).0@ != (#[trigger] entries[j]).0@
}

/// None of the members has this name.
pub open spec fn is_absent(entries: Seq<(String, Json)>, name: Seq<char>) -> bool {
    forall|i: int| 0 <= i < entries.len() ==> (#[trigger] entries[i]).0@ != name
}

proof fn lemma_found(entries: Seq<(String, Json)>, k: int, from: int)
    requires
        are_distinct(entries),
        0 <= from <= k < entries.len(),
    ensures
        find_entry(entries, entries[k].0@, from) == Some(entries[k].1),
    decreases k - from,
{
    if from < k {
        lemma_found(entries, k, from + 1);
    }
}

proof fn lemma_absent(entries: Seq<(String, Json)>, name: Seq<char>, from: int)
    requires
        is_absent(entries, name),
        0 <= from <= entries.len(),
    ensures
        find_entry(entries, name, from) is None,
    decreases entries.len() - from,
{
    if from < entries.len() {
        lemma_absent(entries, name, from + 1);
    }
}

/// A member is found by its name, and no member by another.
pub proof fn members_are_found(entries: Seq<(String, Json)>, v: Json, k: int, name: Seq<char>)
    requires
        v matches Json::Object(all) && all@ == entries,
        are_distinct(entries),
        0 <= k < entries.len(),
    ensures
        member(v, entries[k].0@) == Some(entries[k].1),
        is_absent(entries, name) <==> member(v, name) is None,
{
    lemma_found(entries, k, 0);
    if is_absent(entries, name) {
        lemma_absent(entries, name, 0);
    } else {
        let i = choose|i: int| 0 <= i < entries.len() && (#[trigger] entries[i]).0@ == name;
        lemma_found(entries, i, 0);
    }
}

/// The value is this number.
pub open spec fn is_number(value: Json, single: u32) -> bool {
    value matches Json::Number(number) && number.single == single
}

pub open spec fn is_number_or_null(value: Json, single: Option<u32>) -> bool {
    match single {
        Some(bits) => is_number(value, bits),
        None => value is Null,
    }
}

/// The value is this count.
pub open spec fn is_count(value: Json, count: int) -> bool {
    value matches Json::Number(number) && number.unsigned matches Some(n) && n == count
}

/// The value is this text in large or small letters, or null.
pub open spec fn is_capitals_or_null(value: Json, text: Option<Seq<char>>) -> bool {
    match text {
        Some(capitals) => value matches Json::Text(given) && capitals == uppercase(given@),
        None => value is Null,
    }
}

/// The value is this text.
pub open spec fn is_text(value: Json, text: Seq<char>) -> bool {
    value matches Json::Text(given) && given@ == text
}

/// The value is a list of these calls in large or small letters.
pub open spec fn are_calls(value: Json, known: Seq<Seq<char>>) -> bool {
    &&& value matches Json::Array(calls)
    &&& calls@.len() == known.len()
    &&& forall|i: int|
        0 <= i < calls@.len() ==> (#[trigger] calls@[i] is Text && known[i] == uppercase(
            trim(calls@[i]->Text_0@),
        ))
}

/// The numbers that a document gives are set as given.
pub proof fn given_numbers_are_set(
    entries: Seq<(String, Json)>,
    v: Json,
    old: SettingsModel,
    k: int,
)
    requires
        v matches Json::Object(all) && all@ == entries,
        are_distinct(entries),
        update_complaint(v, old) is None,
        0 <= k < entries.len(),
    ensures
        ({
            let name = entries[k].0@;
            let value = entries[k].1;
            let new = replaced(v, old);
            &&& name == "low_hz"@ ==> is_number(value, new.low_hz)
            &&& name == "high_hz"@ ==> is_number(value, new.high_hz)
            &&& name == "priority_tolerance_hz"@ ==> is_number(value, new.priority_tolerance_hz)
            &&& name == "priority_hz"@ || name == "rx_hz"@ ==> is_number_or_null(
                value,
                new.priority_hz,
            )
            &&& name == "depth"@ ==> is_count(value, new.depth as int)
            &&& name == "threads"@ ==> is_count(value, new.threads as int)
            &&& name == "ap_width_hz"@ ==> is_number(value, new.ap.width_hz)
            &&& name == "tx_hz"@ ==> is_number_or_null(value, new.ap.tx_hz)
        }),
{
    lemma_found(entries, k, 0);
    assert(member(v, entries[k].0@) == Some(entries[k].1));
}

/// The texts and flags that a document gives are set as given.
pub proof fn given_texts_are_set(entries: Seq<(String, Json)>, v: Json, old: SettingsModel, k: int)
    requires
        v matches Json::Object(all) && all@ == entries,
        are_distinct(entries),
        update_complaint(v, old) is None,
        0 <= k < entries.len(),
    ensures
        ({
            let name = entries[k].0@;
            let value = entries[k].1;
            let new = replaced(v, old);
            &&& name == "assistance"@ ==> value == Json::Bool(new.assistance)
            &&& name == "ap"@ ==> match new.ap.mode {
                ApMode::Off => is_text(value, "off"@),
                ApMode::Cq => is_text(value, "cq"@),
                ApMode::Auto => is_text(value, "auto"@),
            }
            &&& name == "ap"@ ==> new.assistance == (new.ap.mode != ApMode::Off)
            &&& name == "my_call"@ ==> is_capitals_or_null(value, new.ap.my_call)
            &&& name == "dx_call"@ ==> is_capitals_or_null(value, new.ap.dx_call)
            &&& name == "dx_grid"@ ==> is_capitals_or_null(value, new.ap.dx_grid)
            &&& name == "qso_state"@ ==> match new.ap.state {
                ContactState::CallingCq => is_text(value, "calling-cq"@),
                ContactState::CallingStation => is_text(value, "calling-station"@),
                ContactState::Report => is_text(value, "report"@),
                ContactState::RogerReport => is_text(value, "roger-report"@),
                ContactState::Rogers => is_text(value, "rogers"@),
                ContactState::Signoff => is_text(value, "signoff"@),
            }
            &&& name == "activity"@ ==> match new.ap.activity {
                Activity::Normal => is_text(value, "normal"@),
                Activity::NaVhf => is_text(value, "na-vhf"@),
                Activity::EuVhf => is_text(value, "eu-vhf"@),
                Activity::FieldDay => is_text(value, "field-day"@),
                Activity::Rtty => is_text(value, "rtty"@),
                Activity::WwDigi => is_text(value, "ww-digi"@),
                Activity::Fox => is_text(value, "fox"@),
                Activity::Hound => is_text(value, "hound"@),
                Activity::ArrlDigi => is_text(value, "arrl-digi"@),
            }
            &&& name == "known_calls"@ ==> are_calls(value, new.ap.known_calls)
        }),
{
    lemma_found(entries, k, 0);
    assert(member(v, entries[k].0@) == Some(entries[k].1));
}

/// What a document does not give stays as it was. The assistance alone also sets its mode,
/// and the mode alone also sets whether there is any.
pub proof fn other_settings_stay(entries: Seq<(String, Json)>, v: Json, old: SettingsModel)
    requires
        v matches Json::Object(all) && all@ == entries,
        update_complaint(v, old) is None,
    ensures
        ({
            let new = replaced(v, old);
            &&& is_absent(entries, "low_hz"@) ==> new.low_hz == old.low_hz
            &&& is_absent(entries, "high_hz"@) ==> new.high_hz == old.high_hz
            &&& is_absent(entries, "priority_tolerance_hz"@) ==> new.priority_tolerance_hz
                == old.priority_tolerance_hz
            &&& is_absent(entries, "priority_hz"@) && is_absent(entries, "rx_hz"@)
                ==> new.priority_hz == old.priority_hz
            &&& is_absent(entries, "depth"@) ==> new.depth == old.depth
            &&& is_absent(entries, "threads"@) ==> new.threads == old.threads
            &&& is_absent(entries, "ap_width_hz"@) ==> new.ap.width_hz == old.ap.width_hz
            &&& is_absent(entries, "tx_hz"@) ==> new.ap.tx_hz == old.ap.tx_hz
            &&& is_absent(entries, "my_call"@) ==> new.ap.my_call == old.ap.my_call
            &&& is_absent(entries, "dx_call"@) ==> new.ap.dx_call == old.ap.dx_call
            &&& is_absent(entries, "dx_grid"@) ==> new.ap.dx_grid == old.ap.dx_grid
            &&& is_absent(entries, "qso_state"@) ==> new.ap.state == old.ap.state
            &&& is_absent(entries, "activity"@) ==> new.ap.activity == old.ap.activity
            &&& is_absent(entries, "known_calls"@) ==> new.ap.known_calls == old.ap.known_calls
            &&& is_absent(entries, "ap"@) && is_absent(entries, "assistance"@) ==> new.ap.mode
                == old.ap.mode && new.assistance == old.assistance
            &&& is_absent(entries, "ap"@) && !is_absent(entries, "assistance"@) ==> new.ap.mode
                == (if new.assistance {
                ApMode::Auto
            } else {
                ApMode::Off
            })
        }),
{
    lemma_absences(entries, v);
    if !is_absent(entries, "assistance"@) {
        lemma_present(entries, "assistance"@, 0);
    }
}

proof fn lemma_present(entries: Seq<(String, Json)>, name: Seq<char>, from: int)
    requires
        0 <= from <= entries.len(),
        exists|i: int| from <= i < entries.len() && (#[trigger] entries[i]).0@ == name,
    ensures
        find_entry(entries, name, from) is Some,
    decreases entries.len() - from,
{
    let i = choose|i: int| from <= i < entries.len() && (#[trigger] entries[i]).0@ == name;
    if entries[from].0@ != name {
        assert(from + 1 <= i);
        lemma_present(entries, name, from + 1);
    }
}

proof fn lemma_absences(entries: Seq<(String, Json)>, v: Json)
    requires
        v matches Json::Object(all) && all@ == entries,
    ensures
        forall|name: Seq<char>| #[trigger] is_absent(entries, name) ==> member(v, name) is None,
{
    assert forall|name: Seq<char>| #[trigger] is_absent(entries, name) implies member(
        v,
        name,
    ) is None by {
        lemma_absent(entries, name, 0);
    }
}

/// The value is of the kind that its name asks for.
pub open spec fn is_sound_member(name: Seq<char>, value: Json) -> bool {
    let numeric = name == "low_hz"@ || name == "high_hz"@ || name == "priority_tolerance_hz"@
        || name == "ap_width_hz"@;
    let perhaps_numeric = name == "priority_hz"@ || name == "rx_hz"@ || name == "tx_hz"@;
    let perhaps_text = name == "my_call"@ || name == "dx_call"@ || name == "dx_grid"@;
    &&& numeric ==> value is Number
    &&& perhaps_numeric ==> value is Number || value is Null
    &&& perhaps_text ==> value is Text || value is Null
    &&& name == "depth"@ ==> exists|n: int| 0 <= n <= 255 && is_count(value, n)
    &&& name == "threads"@ ==> exists|n: int| 0 <= n <= usize::MAX && is_count(value, n)
    &&& name == "assistance"@ ==> value is Bool
    &&& name == "ap"@ ==> is_text(value, "off"@) || is_text(value, "cq"@) || is_text(
        value,
        "auto"@,
    )
    &&& name == "qso_state"@ ==> value is Text && ContactState::of_name(value->Text_0@) is Some
    &&& name == "activity"@ ==> value is Text && Activity::of_name(value->Text_0@) is Some
    &&& name == "known_calls"@ ==> value is Array && value->Array_0@.len() <= 400 && forall|i: int|
        0 <= i < value->Array_0@.len() ==> #[trigger] value->Array_0@[i] is Text
}

proof fn lemma_entry(entries: Seq<(String, Json)>, name: Seq<char>, from: int)
    requires
        0 <= from <= entries.len(),
    ensures
        find_entry(entries, name, from) matches Some(value) ==> exists|k: int|
            from <= k < entries.len() && (#[trigger] entries[k]).0@ == name && entries[k].1
                == value,
    decreases entries.len() - from,
{
    if from < entries.len() {
        if entries[from].0@ == name {
            assert(entries[from].0@ == name);
        } else {
            lemma_entry(entries, name, from + 1);
        }
    }
}

proof fn lemma_sound(entries: Seq<(String, Json)>, v: Json)
    requires
        v matches Json::Object(all) && all@ == entries,
        forall|k: int|
            0 <= k < entries.len() ==> is_sound_member((#[trigger] entries[k]).0@, entries[k].1),
    ensures
        forall|name: Seq<char>| #[trigger]
            member(v, name) matches Some(value) ==> is_sound_member(name, value),
{
    assert forall|name: Seq<char>| #[trigger] member(v, name) matches Some(value) implies
        is_sound_member(name, member(v, name)->0) by {
        lemma_entry(entries, name, 0);
    }
}

/// A document is accepted whose members have known names and are of the kinds that these ask
/// for, which leads to valid settings, and which neither gives the receive frequency twice nor
/// contradicts itself on assistance.
pub proof fn sound_documents_are_accepted(
    entries: Seq<(String, Json)>,
    v: Json,
    old: SettingsModel,
)
    requires
        v matches Json::Object(all) && all@ == entries,
        forall|k: int|
            0 <= k < entries.len() ==> listed(SETTING_NAMES@, (#[trigger] entries[k]).0@)
                && is_sound_member(entries[k].0@, entries[k].1),
        is_absent(entries, "rx_hz"@) || is_absent(entries, "priority_hz"@),
        is_absent(entries, "ap"@) || is_absent(entries, "assistance"@),
        replaced(v, old).complaint() is None,
    ensures
        update_complaint(v, old) is None,
{
    lemma_sound(entries, v);
    lemma_absences(entries, v);
    only_listed_members_are_accepted(v, entries, SETTING_NAMES@);
    lemma_numbers(v);
    lemma_contact(v);
}

proof fn lemma_numbers(v: Json)
    requires
        forall|name: Seq<char>| #[trigger]
            member(v, name) matches Some(value) ==> is_sound_member(name, value),
        member(v, "rx_hz"@) is None || member(v, "priority_hz"@) is None,
    ensures
        numbers_complaint(v) is None,
{
    assert(member(v, "low_hz"@) is None || is_sound_member("low_hz"@, member(v, "low_hz"@)->0));
    assert(member(v, "high_hz"@) is None || is_sound_member("high_hz"@, member(v, "high_hz"@)->0));
    assert(member(v, "priority_tolerance_hz"@) is None || is_sound_member(
        "priority_tolerance_hz"@,
        member(v, "priority_tolerance_hz"@)->0,
    ));
    assert(member(v, "priority_hz"@) is None || is_sound_member(
        "priority_hz"@,
        member(v, "priority_hz"@)->0,
    ));
    assert(member(v, "rx_hz"@) is None || is_sound_member("rx_hz"@, member(v, "rx_hz"@)->0));
    assert(member(v, "depth"@) is None || is_sound_member("depth"@, member(v, "depth"@)->0));
    assert(member(v, "threads"@) is None || is_sound_member("threads"@, member(v, "threads"@)->0));
    assert(member(v, "assistance"@) is None || is_sound_member(
        "assistance"@,
        member(v, "assistance"@)->0,
    ));
}

proof fn lemma_contact(v: Json)
    requires
        forall|name: Seq<char>| #[trigger]
            member(v, name) matches Some(value) ==> is_sound_member(name, value),
        member(v, "ap"@) is None || member(v, "assistance"@) is None,
    ensures
        contact_complaint(v) is None,
{
    assert(member(v, "ap"@) is None || is_sound_member("ap"@, member(v, "ap"@)->0));
    assert(member(v, "my_call"@) is None || is_sound_member("my_call"@, member(v, "my_call"@)->0));
    assert(member(v, "dx_call"@) is None || is_sound_member("dx_call"@, member(v, "dx_call"@)->0));
    assert(member(v, "dx_grid"@) is None || is_sound_member("dx_grid"@, member(v, "dx_grid"@)->0));
    assert(member(v, "ap_width_hz"@) is None || is_sound_member(
        "ap_width_hz"@,
        member(v, "ap_width_hz"@)->0,
    ));
    assert(member(v, "tx_hz"@) is None || is_sound_member("tx_hz"@, member(v, "tx_hz"@)->0));
    assert(member(v, "qso_state"@) is None || is_sound_member(
        "qso_state"@,
        member(v, "qso_state"@)->0,
    ));
    assert(member(v, "activity"@) is None || is_sound_member(
        "activity"@,
        member(v, "activity"@)->0,
    ));
    assert(member(v, "known_calls"@) is None || is_sound_member(
        "known_calls"@,
        member(v, "known_calls"@)->0,
    ));
}

} // verus!
