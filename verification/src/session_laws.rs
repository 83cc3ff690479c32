//! That sessions open as they are asked to.
use vstd::prelude::*;
use crate::engine::{initial_settings, Mode};
use crate::input_laws::only_listed_members_are_accepted;
use crate::json::{listed, member, Json};
use crate::session::{opened_session, samples_to_boundary, SessionModel, START_NAMES};
use crate::settings_laws::{are_distinct, is_absent, is_count, is_text, members_are_found};
use crate::stream_settings::{mode_complaint, replaced, update_complaint};
use crate::text::{all_digits, decimal_value};
use crate::window_laws::streams_start_at_a_boundary;

verus! {

/// The value is a numeral of this number.
pub open spec fn is_decimal(value: Json, n: int) -> bool {
    value is Text && value->Text_0@.len() > 0 && all_digits(value->Text_0@) && decimal_value(
        value->Text_0@,
    ) == n
}

/// A session that opens is as the members of its command say.
pub proof fn sessions_open_as_asked(
    entries: Seq<(String, Json)>,
    v: Json,
    previous: Option<SessionModel>,
    s: SessionModel,
    k: int,
)
    requires
        v matches Json::Object(all) && all@ == entries,
        are_distinct(entries),
        opened_session(v, previous) == Ok::<SessionModel, Seq<char>>(s),
        0 <= k < entries.len(),
    ensures
        ({
            let name = entries[k].0@;
            let value = entries[k].1;
            &&& name == "mode"@ ==> is_text(
                value,
                match s.mode {
                    Mode::Ft8 => "ft8"@,
                    Mode::Ft4 => "ft4"@,
                },
            )
            &&& name == "operation"@ && previous is None ==> is_text(
                value,
                if s.live {
                    "live"@
                } else {
                    "offline"@
                },
            )
            &&& name == "slot_offset_samples"@ ==> s.utc is None && is_decimal(
                value,
                s.next as int,
            )
            &&& name == "start_utc_ns"@ ==> s.utc is Some && is_decimal(value, s.utc->0 as int)
                && s.next as nat == samples_to_boundary(s.mode, s.utc->0)
            &&& name == "settings"@ ==> s.settings == replaced(
                value,
                match previous {
                    Some(old) => old.settings,
                    None => initial_settings(),
                },
            )
            &&& name == "version"@ && previous is None ==> is_count(value, 1)
        }),
{
    members_are_found(entries, v, k, "mode"@);
    if member(v, "start_utc_ns"@) is Some && s.utc is Some {
        streams_start_at_a_boundary(s.mode, s.utc->0);
    }
}

/// A session that opens has heard nothing, and its work is told from that before it.
pub proof fn sessions_open_empty(v: Json, previous: Option<SessionModel>, s: SessionModel)
    requires
        opened_session(v, previous) == Ok::<SessionModel, Seq<char>>(s),
    ensures
        s.expected == 0,
        s.pcm.len() == 0,
        s.opened is None,
        !s.early_submitted,
        previous matches Some(old) ==> s.epoch != old.epoch,
        mode_complaint(s.mode, s.settings) is None,
{
}

/// A start command is carried out that has its version, a mode, an operation, one origin of
/// 64 bits, and valid settings.
pub proof fn sound_starts_are_carried_out(entries: Seq<(String, Json)>, v: Json, origin: int)
    requires
        v matches Json::Object(all) && all@ == entries,
        are_distinct(entries),
        entries.len() > 0,
        forall|k: int| 0 <= k < entries.len() ==> listed(START_NAMES@, (#[trigger] entries[k]).0@),
        member(v, "version"@) matches Some(value) && is_count(value, 1),
        member(v, "mode"@) matches Some(value) && (is_text(value, "ft8"@) || is_text(
            value,
            "ft4"@,
        )),
        member(v, "operation"@) matches Some(value) && (is_text(value, "live"@) || is_text(
            value,
            "offline"@,
        )),
        0 <= origin <= u64::MAX,
        ({
            ||| is_absent(entries, "slot_offset_samples"@) && (member(
                v,
                "start_utc_ns"@,
            ) matches Some(value) && is_decimal(value, origin))
            ||| is_absent(entries, "start_utc_ns"@) && (member(
                v,
                "slot_offset_samples"@,
            ) matches Some(value) && is_decimal(value, origin))
        }),
        member(v, "settings"@) matches Some(document) ==> update_complaint(
            document,
            initial_settings(),
        ) is None && replaced(document, initial_settings()).threads == 1,
    ensures
        opened_session(v, None) is Ok,
{
    only_listed_members_are_accepted(v, entries, START_NAMES@);
    members_are_found(entries, v, 0, "slot_offset_samples"@);
    members_are_found(entries, v, 0, "start_utc_ns"@);
}

} // verus!
