//! Partial updates of the decode settings of a stream.
use vstd::prelude::*;
use vstd::string::*;
use crate::assistance::{Activity, ApMode, ApModel, ContactState};
use crate::engine::{DecodeSettings, Mode, SettingsModel};
use crate::json::{
    bool_of, fields, fields_complaint, is_null, member, single_of, text_of, unsigned_of, Json,
};
use crate::text::{trim, trimmed, uppercase, uppercased};

verus! {

/// The members of a settings document.
pub const SETTING_NAMES: [&'static str; 17] = [
    "low_hz", "high_hz", "priority_hz", "priority_tolerance_hz", "depth", "threads", "assistance",
    "ap", "rx_hz", "ap_width_hz", "tx_hz", "my_call", "dx_call", "dx_grid", "qso_state", "activity",
    "known_calls",
];

// ---------------------------------------------------------------------------
// New values
// ---------------------------------------------------------------------------

/// A number that replaces the old one where it is given.
pub open spec fn new_single(v: Json, name: Seq<char>, previous: u32) -> u32 {
    match member(v, name) {
        Some(value) => single_of(Some(value))->0,
        None => previous,
    }
}

/// A number or null that replaces the old one where it is given.
pub open spec fn new_optional(v: Json, name: Seq<char>, previous: Option<u32>) -> Option<u32> {
    match member(v, name) {
        Some(value) => single_of(Some(value)),
        None => previous,
    }
}

/// A text or null that replaces the old one where it is given, in capitals.
pub open spec fn new_text(v: Json, name: Seq<char>, previous: Option<Seq<char>>) -> Option<
    Seq<char>,
> {
    match member(v, name) {
        Some(value) => match text_of(Some(value)) {
            Some(text) => Some(uppercase(text)),
            None => None,
        },
        None => previous,
    }
}

pub open spec fn new_assistance(v: Json, previous: bool) -> bool {
    match member(v, "assistance"@) {
        Some(value) => bool_of(Some(value))->0,
        None => previous,
    }
}

/// The assistance mode: as named, or as the master gate alone implies.
pub open spec fn new_ap_mode(v: Json, previous: ApMode) -> ApMode {
    match member(v, "ap"@) {
        Some(value) => ApMode::of_name(text_of(Some(value))->0)->0,
        None => match member(v, "assistance"@) {
            Some(value) => if bool_of(Some(value))->0 {
                ApMode::Auto
            } else {
                ApMode::Off
            },
            None => previous,
        },
    }
}

pub open spec fn calls_of(values: Seq<Json>) -> Seq<Seq<char>> {
    Seq::new(values.len(), |i: int| uppercase(trim(text_of(Some(values[i]))->0)))
}

pub open spec fn new_known_calls(v: Json, previous: Seq<Seq<char>>) -> Seq<Seq<char>> {
    match member(v, "known_calls"@) {
        Some(Json::Array(values)) => calls_of(values@),
        _ => previous,
    }
}

/// The settings with every given member replaced.
pub open spec fn replaced(v: Json, old: SettingsModel) -> SettingsModel {
    SettingsModel {
        low_hz: new_single(v, "low_hz"@, old.low_hz),
        high_hz: new_single(v, "high_hz"@, old.high_hz),
        priority_tolerance_hz: new_single(
            v,
            "priority_tolerance_hz"@,
            old.priority_tolerance_hz,
        ),
        priority_hz: new_optional(
            v,
            "rx_hz"@,
            new_optional(v, "priority_hz"@, old.priority_hz),
        ),
        depth: match member(v, "depth"@) {
            Some(value) => unsigned_of(Some(value))->0 as u8,
            None => old.depth,
        },
        threads: match member(v, "threads"@) {
            Some(value) => unsigned_of(Some(value))->0 as usize,
            None => old.threads,
        },
        assistance: match member(v, "ap"@) {
            Some(_) => new_ap_mode(v, old.ap.mode) != ApMode::Off,
            None => new_assistance(v, old.assistance),
        },
        ap: ApModel {
            mode: new_ap_mode(v, old.ap.mode),
            my_call: new_text(v, "my_call"@, old.ap.my_call),
            dx_call: new_text(v, "dx_call"@, old.ap.dx_call),
            dx_grid: new_text(v, "dx_grid"@, old.ap.dx_grid),
            state: match member(v, "qso_state"@) {
                Some(value) => ContactState::of_name(text_of(Some(value))->0)->0,
                None => old.ap.state,
            },
            activity: match member(v, "activity"@) {
                Some(value) => Activity::of_name(text_of(Some(value))->0)->0,
                None => old.ap.activity,
            },
            width_hz: new_single(v, "ap_width_hz"@, old.ap.width_hz),
            tx_hz: new_optional(v, "tx_hz"@, old.ap.tx_hz),
            known_calls: new_known_calls(v, old.ap.known_calls),
        },
    }
}

// ---------------------------------------------------------------------------
// Complaints
// ---------------------------------------------------------------------------

pub open spec fn lacks_number(v: Json, name: Seq<char>) -> bool {
    member(v, name) is Some && single_of(member(v, name)) is None
}

pub open spec fn lacks_number_or_null(v: Json, name: Seq<char>) -> bool {
    lacks_number(v, name) && !is_null(member(v, name))
}

pub open spec fn lacks_text(v: Json, name: Seq<char>) -> bool {
    member(v, name) is Some && text_of(member(v, name)) is None
}

pub open spec fn lacks_text_or_null(v: Json, name: Seq<char>) -> bool {
    lacks_text(v, name) && !is_null(member(v, name))
}

/// What is wrong with the assistance mode, if anything.
pub open spec fn ap_complaint(v: Json) -> Option<Seq<char>> {
    match member(v, "ap"@) {
        None => None,
        Some(value) => match text_of(Some(value)) {
            None => Some("ap must be off, cq or auto"@),
            Some(text) => match ApMode::of_name(text) {
                None => Some("invalid ApMode: "@ + text),
                Some(mode) => match bool_of(member(v, "assistance"@)) {
                    Some(flag) => if flag != (mode != ApMode::Off) {
                        Some("ap and assistance disagree"@)
                    } else {
                        None
                    },
                    None => None,
                },
            },
        },
    }
}

pub open spec fn state_complaint(v: Json) -> Option<Seq<char>> {
    match member(v, "qso_state"@) {
        None => None,
        Some(value) => match text_of(Some(value)) {
            None => Some("qso_state must be a string"@),
            Some(text) => if ContactState::of_name(text) is None {
                Some("invalid ContactState: "@ + text)
            } else {
                None
            },
        },
    }
}

pub open spec fn activity_complaint(v: Json) -> Option<Seq<char>> {
    match member(v, "activity"@) {
        None => None,
        Some(value) => match text_of(Some(value)) {
            None => Some("activity must be a string"@),
            Some(text) => if Activity::of_name(text) is None {
                Some("invalid Activity: "@ + text)
            } else {
                None
            },
        },
    }
}

pub open spec fn calls_complaint(v: Json) -> Option<Seq<char>> {
    match member(v, "known_calls"@) {
        None => None,
        Some(Json::Array(values)) => if values@.len() > 400 {
            Some("known_calls is limited to 400 entries"@)
        } else if exists|i: int|
            0 <= i < values@.len() && text_of(Some(#[trigger] values@[i])) is None {
            Some("known_calls must contain strings"@)
        } else {
            None
        },
        Some(_) => Some("known_calls must be an array"@),
    }
}

/// What is wrong with the numbers and flags of the document, if anything.
pub open spec fn numbers_complaint(v: Json) -> Option<Seq<char>> {
    if lacks_number(v, "low_hz"@) {
        Some("low_hz must be numeric"@)
    } else if lacks_number(v, "high_hz"@) {
        Some("high_hz must be numeric"@)
    } else if lacks_number(v, "priority_tolerance_hz"@) {
        Some("priority_tolerance_hz must be numeric"@)
    } else if lacks_number_or_null(v, "priority_hz"@) {
        Some("priority_hz must be numeric or null"@)
    } else if member(v, "depth"@) is Some && !(unsigned_of(member(v, "depth"@)) matches Some(n) && n
        <= u8::MAX) {
        Some("depth must be an integer in 1..3"@)
    } else if member(v, "threads"@) is Some && !(unsigned_of(member(v, "threads"@)) matches Some(n)
        && n <= usize::MAX) {
        Some("threads must be an integer"@)
    } else if member(v, "assistance"@) is Some && bool_of(member(v, "assistance"@)) is None {
        Some("assistance must be boolean"@)
    } else if member(v, "rx_hz"@) is Some && member(v, "priority_hz"@) is Some {
        Some("choose rx_hz or priority_hz, not both"@)
    } else if lacks_number_or_null(v, "rx_hz"@) {
        Some("rx_hz must be numeric or null"@)
    } else {
        None
    }
}

/// What is wrong with the contact members of the document, if anything.
pub open spec fn contact_complaint(v: Json) -> Option<Seq<char>> {
    if ap_complaint(v) is Some {
        ap_complaint(v)
    } else if lacks_text_or_null(v, "my_call"@) {
        Some("my_call must be a string or null"@)
    } else if lacks_text_or_null(v, "dx_call"@) {
        Some("dx_call must be a string or null"@)
    } else if lacks_text_or_null(v, "dx_grid"@) {
        Some("dx_grid must be a string or null"@)
    } else if lacks_number(v, "ap_width_hz"@) {
        Some("ap_width_hz must be numeric"@)
    } else if lacks_number_or_null(v, "tx_hz"@) {
        Some("tx_hz must be numeric or null"@)
    } else if state_complaint(v) is Some {
        state_complaint(v)
    } else if activity_complaint(v) is Some {
        activity_complaint(v)
    } else {
        calls_complaint(v)
    }
}

/// What is wrong with the document or the settings it leads to, if anything.
pub open spec fn update_complaint(v: Json, old: SettingsModel) -> Option<Seq<char>> {
    if fields_complaint(v, SETTING_NAMES@) is Some {
        fields_complaint(v, SETTING_NAMES@)
    } else if numbers_complaint(v) is Some {
        numbers_complaint(v)
    } else if contact_complaint(v) is Some {
        contact_complaint(v)
    } else {
        replaced(v, old).complaint()
    }
}

// ---------------------------------------------------------------------------
// The update
// ---------------------------------------------------------------------------

fn numeric(v: &Json, name: &str, previous: u32, complaint: &str) -> (r: Result<u32, String>)
    ensures
        match r {
            Ok(value) => !lacks_number(*v, name@) && value == new_single(*v, name@, previous),
            Err(error) => lacks_number(*v, name@) && error@ == complaint@,
        },
{
    if !v.has(name) {
        return Ok(previous);
    }
    match v.single(name) {
        Some(value) => Ok(value),
        None => Err(complaint.to_owned()),
    }
}

fn numeric_or_null(v: &Json, name: &str, previous: Option<u32>, complaint: &str) -> (r: Result<
    Option<u32>,
    String,
>)
    ensures
        match r {
            Ok(value) => !lacks_number_or_null(*v, name@) && value == new_optional(
                *v,
                name@,
                previous,
            ),
            Err(error) => lacks_number_or_null(*v, name@) && error@ == complaint@,
        },
{
    if !v.has(name) {
        return Ok(previous);
    }
    if v.null(name) {
        return Ok(None);
    }
    match v.single(name) {
        Some(value) => Ok(Some(value)),
        None => Err(complaint.to_owned()),
    }
}

fn text_or_null(v: &Json, name: &str, previous: Option<String>, complaint: &str) -> (r: Result<
    Option<String>,
    String,
>)
    ensures
        match r {
            Ok(value) => !lacks_text_or_null(*v, name@) && value.deep_view() == new_text(
                *v,
                name@,
                previous.deep_view(),
            ),
            Err(error) => lacks_text_or_null(*v, name@) && error@ == complaint@,
        },
{
    if !v.has(name) {
        return Ok(previous);
    }
    if v.null(name) {
        return Ok(None);
    }
    match v.text(name) {
        Some(text) => Ok(Some(uppercased(text))),
        None => Err(complaint.to_owned()),
    }
}

fn known_calls(values: &Vec<Json>) -> (r: Result<Vec<String>, String>)
    ensures
        match r {
            Ok(calls) => {
                &&& forall|i: int| 0 <= i < values@.len() ==> text_of(Some(#[trigger] values@[i])) is Some
                &&& calls.deep_view() == calls_of(values@)
            },
            Err(error) => {
                &&& exists|i: int| 0 <= i < values@.len() && text_of(Some(#[trigger] values@[i])) is None
                &&& error@ == "known_calls must contain strings"@
            },
        },
{
    let mut calls: Vec<String> = Vec::new();
    let mut i: usize = 0;
    while i < values.len()
        invariant
            i <= values.len(),
            forall|k: int| 0 <= k < i ==> text_of(Some(#[trigger] values@[k])) is Some,
            calls.deep_view() =~= calls_of(values@).take(i as int),
        decreases values.len() - i,
    {
        match &values[i] {
            Json::Text(text) => {
                let call: String = uppercased(trimmed(text.as_str()));
                let ghost before = calls.deep_view();
                calls.push(call);
                assert(calls.deep_view() =~= before.push(call@));
            },
            _ => {
                assert(text_of(Some(values@[i as int])) is None);
                return Err("known_calls must contain strings".to_owned());
            },
        }
        i = i + 1;
    }
    assert(calls_of(values@).take(values@.len() as int) =~= calls_of(values@));
    Ok(calls)
}

fn update_numbers(v: &Json, s: &mut DecodeSettings) -> (r: Result<(), String>)
    ensures
        match r {
            Ok(_) => {
                &&& numbers_complaint(*v) is None
                &&& final(s).deep_view() == (SettingsModel {
                    low_hz: new_single(*v, "low_hz"@, old(s).low_hz),
                    high_hz: new_single(*v, "high_hz"@, old(s).high_hz),
                    priority_tolerance_hz: new_single(
                        *v,
                        "priority_tolerance_hz"@,
                        old(s).priority_tolerance_hz,
                    ),
                    priority_hz: new_optional(
                        *v,
                        "rx_hz"@,
                        new_optional(*v, "priority_hz"@, old(s).priority_hz),
                    ),
                    depth: match member(*v, "depth"@) {
                        Some(value) => unsigned_of(Some(value))->0 as u8,
                        None => old(s).depth,
                    },
                    threads: match member(*v, "threads"@) {
                        Some(value) => unsigned_of(Some(value))->0 as usize,
                        None => old(s).threads,
                    },
                    assistance: new_assistance(*v, old(s).assistance),
                    ap: old(s).ap.deep_view(),
                })
            },
            Err(error) => numbers_complaint(*v) == Some(error@),
        },
{
    match numeric(v, "low_hz", s.low_hz, "low_hz must be numeric") {
        Ok(value) => {
            s.low_hz = value;
        },
        Err(error) => {
            return Err(error);
        },
    }
    match numeric(v, "high_hz", s.high_hz, "high_hz must be numeric") {
        Ok(value) => {
            s.high_hz = value;
        },
        Err(error) => {
            return Err(error);
        },
    }
    match numeric(
        v,
        "priority_tolerance_hz",
        s.priority_tolerance_hz,
        "priority_tolerance_hz must be numeric",
    ) {
        Ok(value) => {
            s.priority_tolerance_hz = value;
        },
        Err(error) => {
            return Err(error);
        },
    }
    match numeric_or_null(v, "priority_hz", s.priority_hz, "priority_hz must be numeric or null") {
        Ok(value) => {
            s.priority_hz = value;
        },
        Err(error) => {
            return Err(error);
        },
    }
    if v.has("depth") {
        match v.unsigned("depth") {
            Some(n) => {
                if n > 255 {
                    return Err("depth must be an integer in 1..3".to_owned());
                }
                s.depth = n as u8;
            },
            None => {
                return Err("depth must be an integer in 1..3".to_owned());
            },
        }
    }
    if v.has("threads") {
        match v.unsigned("threads") {
            Some(n) => {
                if n > usize::MAX as u64 {
                    return Err("threads must be an integer".to_owned());
                }
                s.threads = n as usize;
            },
            None => {
                return Err("threads must be an integer".to_owned());
            },
        }
    }
    if v.has("assistance") {
        match v.flag("assistance") {
            Some(flag) => {
                s.assistance = flag;
            },
            None => {
                return Err("assistance must be boolean".to_owned());
            },
        }
    }
    if v.has("rx_hz") && v.has("priority_hz") {
        return Err("choose rx_hz or priority_hz, not both".to_owned());
    }
    match numeric_or_null(v, "rx_hz", s.priority_hz, "rx_hz must be numeric or null") {
        Ok(value) => {
            s.priority_hz = value;
        },
        Err(error) => {
            return Err(error);
        },
    }
    Ok(())
}

fn update_mode(v: &Json, s: &mut DecodeSettings) -> (r: Result<(), String>)
    requires
        member(*v, "assistance"@) is Some ==> bool_of(member(*v, "assistance"@)) == Some(
            old(s).assistance,
        ),
    ensures
        match r {
            Ok(_) => {
                &&& ap_complaint(*v) is None
                &&& final(s).deep_view() == (SettingsModel {
                    assistance: match member(*v, "ap"@) {
                        Some(_) => new_ap_mode(*v, old(s).ap.mode) != ApMode::Off,
                        None => old(s).assistance,
                    },
                    ap: ApModel {
                        mode: new_ap_mode(*v, old(s).ap.mode),
                        ..old(s).ap.deep_view()
                    },
                    ..old(s).deep_view()
                })
            },
            Err(error) => ap_complaint(*v) == Some(error@),
        },
{
    if v.has("ap") {
        match v.text("ap") {
            None => {
                return Err("ap must be off, cq or auto".to_owned());
            },
            Some(text) => match ApMode::parse(text) {
                Err(error) => {
                    return Err(error);
                },
                Ok(mode) => {
                    s.ap.mode = mode;
                    let enabled: bool = mode != ApMode::Off;
                    if v.has("assistance") && s.assistance != enabled {
                        return Err("ap and assistance disagree".to_owned());
                    }
                    s.assistance = enabled;
                },
            },
        }
    } else if v.has("assistance") {
        s.ap.mode = if s.assistance { ApMode::Auto } else { ApMode::Off };
    }
    Ok(())
}

fn update_contact(v: &Json, s: &mut DecodeSettings) -> (r: Result<(), String>)
    requires
        ap_complaint(*v) is None,
    ensures
        match r {
            Ok(_) => {
                &&& contact_complaint(*v) is None
                &&& final(s).deep_view() == (SettingsModel {
                    ap: ApModel {
                        mode: old(s).ap.mode,
                        my_call: new_text(*v, "my_call"@, old(s).ap.my_call.deep_view()),
                        dx_call: new_text(*v, "dx_call"@, old(s).ap.dx_call.deep_view()),
                        dx_grid: new_text(*v, "dx_grid"@, old(s).ap.dx_grid.deep_view()),
                        state: match member(*v, "qso_state"@) {
                            Some(value) => ContactState::of_name(text_of(Some(value))->0)->0,
                            None => old(s).ap.state,
                        },
                        activity: match member(*v, "activity"@) {
                            Some(value) => Activity::of_name(text_of(Some(value))->0)->0,
                            None => old(s).ap.activity,
                        },
                        width_hz: new_single(*v, "ap_width_hz"@, old(s).ap.width_hz),
                        tx_hz: new_optional(*v, "tx_hz"@, old(s).ap.tx_hz),
                        known_calls: new_known_calls(*v, old(s).ap.known_calls.deep_view()),
                    },
                    ..old(s).deep_view()
                })
            },
            Err(error) => contact_complaint(*v) == Some(error@),
        },
{
    match text_or_null(v, "my_call", s.ap.my_call.clone(), "my_call must be a string or null") {
        Ok(value) => {
            s.ap.my_call = value;
        },
        Err(error) => {
            return Err(error);
        },
    }
    match text_or_null(v, "dx_call", s.ap.dx_call.clone(), "dx_call must be a string or null") {
        Ok(value) => {
            s.ap.dx_call = value;
        },
        Err(error) => {
            return Err(error);
        },
    }
    match text_or_null(v, "dx_grid", s.ap.dx_grid.clone(), "dx_grid must be a string or null") {
        Ok(value) => {
            s.ap.dx_grid = value;
        },
        Err(error) => {
            return Err(error);
        },
    }
    match numeric(v, "ap_width_hz", s.ap.width_hz, "ap_width_hz must be numeric") {
        Ok(value) => {
            s.ap.width_hz = value;
        },
        Err(error) => {
            return Err(error);
        },
    }
    match numeric_or_null(v, "tx_hz", s.ap.tx_hz, "tx_hz must be numeric or null") {
        Ok(value) => {
            s.ap.tx_hz = value;
        },
        Err(error) => {
            return Err(error);
        },
    }
    if v.has("qso_state") {
        match v.text("qso_state") {
            None => {
                return Err("qso_state must be a string".to_owned());
            },
            Some(text) => match ContactState::parse(text) {
                Ok(state) => {
                    s.ap.state = state;
                },
                Err(error) => {
                    return Err(error);
                },
            },
        }
    }
    if v.has("activity") {
        match v.text("activity") {
            None => {
                return Err("activity must be a string".to_owned());
            },
            Some(text) => match Activity::parse(text) {
                Ok(activity) => {
                    s.ap.activity = activity;
                },
                Err(error) => {
                    return Err(error);
                },
            },
        }
    }
    match v.get("known_calls") {
        None => {},
        Some(Json::Array(values)) => {
            if values.len() > 400 {
                return Err("known_calls is limited to 400 entries".to_owned());
            }
            match known_calls(values) {
                Ok(calls) => {
                    s.ap.known_calls = calls;
                },
                Err(error) => {
                    return Err(error);
                },
            }
        },
        Some(_) => {
            return Err("known_calls must be an array".to_owned());
        },
    }
    assert(s.deep_view().ap.known_calls == new_known_calls(*v, old(s).ap.known_calls.deep_view()));
    Ok(())
}

/// The settings after an update document, or what is wrong with it.
pub fn settings(v: &Json, previous: &DecodeSettings) -> (r: Result<DecodeSettings, String>)
    ensures
        match r {
            Ok(updated) => {
                &&& update_complaint(*v, previous.deep_view()) is None
                &&& updated.deep_view() == replaced(*v, previous.deep_view())
            },
            Err(error) => update_complaint(*v, previous.deep_view()) == Some(error@),
        },
{
    match fields(v, &SETTING_NAMES) {
        Ok(_) => {},
        Err(error) => {
            return Err(error);
        },
    }
    let mut s: DecodeSettings = previous.copied();
    match update_numbers(v, &mut s) {
        Ok(_) => {},
        Err(error) => {
            return Err(error);
        },
    }
    match update_mode(v, &mut s) {
        Ok(_) => {},
        Err(error) => {
            return Err(error);
        },
    }
    match update_contact(v, &mut s) {
        Ok(_) => {},
        Err(error) => {
            return Err(error);
        },
    }
    assert(s.deep_view() =~= replaced(*v, previous.deep_view()));
    match s.validate() {
        Ok(_) => Ok(s),
        Err(error) => Err(error),
    }
}

/// FT4 is decoded by one thread.
pub open spec fn mode_complaint(mode: Mode, settings: SettingsModel) -> Option<Seq<char>> {
    if mode == Mode::Ft4 && settings.threads != 1 {
        Some("FT4 supports threads=1"@)
    } else {
        None
    }
}

pub fn validate_mode_settings(mode: Mode, settings: &DecodeSettings) -> (r: Result<(), String>)
    ensures
        match r {
            Ok(_) => mode_complaint(mode, settings.deep_view()) is None,
            Err(error) => mode_complaint(mode, settings.deep_view()) == Some(error@),
        },
{
    if mode == Mode::Ft4 && settings.threads != 1 {
        Err("FT4 supports threads=1".to_owned())
    } else {
        Ok(())
    }
}

/// An empty document leaves valid settings as they are.
pub proof fn empty_updates_change_nothing(v: Json, old: SettingsModel)
    requires
        v matches Json::Object(entries) && entries@.len() == 0,
        old.complaint() is None,
    ensures
        update_complaint(v, old) is None,
        replaced(v, old) == old,
{
    assert(replaced(v, old) =~= old);
}

/// Accepted settings are valid.
pub proof fn updated_settings_are_valid(v: Json, old: SettingsModel)
    requires
        update_complaint(v, old) is None,
    ensures
        replaced(v, old).complaint() is None,
{
}

} // verus!
