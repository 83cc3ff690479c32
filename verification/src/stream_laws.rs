//! Laws of a stream of commands.
use vstd::prelude::*;
use crate::ingress::{commanded, command_name, configured, restarted, started};
use crate::json::{fields_complaint, member, Json};
use crate::session::{
    closed, decimal_member, fed, filled, is_early, is_full, is_safe, least, opened_session,
    preceded, submitted, target, window_time, with_window, ActionModel, SessionModel, Status,
};

verus! {

/// A command that is refused leaves the stream as it was, and later commands are
/// taken. Audio is refused that way before any of it is taken in.
pub proof fn refused_commands_change_nothing(
    session: Option<SessionModel>,
    v: Json,
    payload: Seq<u8>,
    float_pcm: bool,
)
    requires
        command_name(v) != "audio"@,
        commanded(session, v, payload, float_pcm).actions.last() is Refuse,
    ensures
        ({
            let reply = commanded(session, v, payload, float_pcm);
            &&& reply.session == session
            &&& reply.actions.len() == 1
            &&& !reply.finished
        }),
{
}

/// Without a stream every command but a start is refused.
pub proof fn commands_need_a_stream(v: Json, payload: Seq<u8>, float_pcm: bool)
    requires
        command_name(v) != "start"@,
    ensures
        commanded(None, v, payload, float_pcm).session is None,
        commanded(None, v, payload, float_pcm).actions.last() is Refuse,
{
}

/// A stream is started once.
pub proof fn streams_start_once(session: SessionModel, v: Json)
    ensures
        started(Some(session), v).session == Some(session),
        started(Some(session), v).actions.last() is Refuse,
{
}

/// Audio that overlaps or precedes what was received is refused, and changes
/// nothing.
pub proof fn overlapping_audio_is_refused(
    session: SessionModel,
    v: Json,
    payload: Seq<u8>,
    float_pcm: bool,
    first: u64,
)
    requires
        command_name(v) == "audio"@,
        decimal_member(v, "first_sample"@) == Ok::<u64, Seq<char>>(first),
        first < session.expected,
    ensures
        ({
            let reply = commanded(Some(session), v, payload, float_pcm);
            &&& reply.session == Some(session)
            &&& reply.actions.len() == 1
            &&& reply.actions[0] is Refuse
        }),
{
    reveal_strlit("audio");
    reveal_strlit("start");
    reveal_strlit("reset");
    reveal_strlit("configure");
    assert("audio"@[0] == 'a' && "start"@[0] == 's' && "reset"@[0] == 'r');
    assert("configure"@.len() == 9 && "audio"@.len() == 5);
}

/// New settings do not touch the window that is open: it is assembled and decoded
/// under those it was opened with.
pub proof fn configuring_spares_the_open_window(session: SessionModel, v: Json)
    ensures
        configured(Some(session), v).session matches Some(after) && after == (SessionModel {
            settings: after.settings,
            ..session
        }),
{
}

/// The settings of a submitted window: those it was opened with, or for windows
/// that open later those in force.
pub open spec fn has_snapshot(action: ActionModel, s: SessionModel) -> bool {
    action matches ActionModel::Submit(window) ==> {
        &&& window.start >= s.next
        &&& window.settings == (if s.opened is Some && window.start == s.next {
            s.opened->0
        } else {
            s.settings
        })
    }
}

/// Every window is decoded under the settings that were in force when its first
/// sample was taken in.
pub proof fn windows_keep_their_settings(
    s: SessionModel,
    samples: Seq<u32>,
    first: int,
    position: int,
    end: int,
)
    requires
        is_safe(s),
        first <= position <= end,
        end - first == samples.len(),
    ensures
        forall|i: int|
            0 <= i < fed(s, samples, first, position, end).actions.len() ==> has_snapshot(
                #[trigger] fed(s, samples, first, position, end).actions[i],
                s,
            ),
    decreases
            end - position,
            if is_full(s) {
                1int
            } else {
                0
            },
{
    if position >= end {
    } else if position < s.next {
        windows_keep_their_settings(s, samples, first, least(end, s.next as int), end);
    } else {
        let o = with_window(s);
        let f = filled(o, samples, first, position, end);
        let p = position + least(target(o) - o.pcm.len(), end - position);
        if f.pcm.len() < target(o) {
            windows_keep_their_settings(f, samples, first, p, end);
            let rest = fed(f, samples, first, p, end);
            assert(fed(s, samples, first, position, end) == rest);
            assert forall|i: int| 0 <= i < rest.actions.len() implies has_snapshot(
                #[trigger] rest.actions[i],
                s,
            ) by {
                assert(has_snapshot(rest.actions[i], f));
            }
        } else {
            match window_time(f) {
                None => {},
                Some(utc) => {
                    let submission = ActionModel::Submit(submitted(f, utc));
                    assert(has_snapshot(submission, s));
                    let g = if is_early(f) {
                        SessionModel { early_submitted: true, ..f }
                    } else {
                        SessionModel { next: (f.next + f.mode.period()) as u64, ..closed(f) }
                    };
                    if is_early(f) || f.next + f.mode.period() <= u64::MAX {
                        windows_keep_their_settings(g, samples, first, p, end);
                        let rest = fed(g, samples, first, p, end);
                        let all = preceded(seq![submission], rest);
                        assert(fed(s, samples, first, position, end) == all);
                        assert forall|i: int| 0 <= i < all.actions.len() implies has_snapshot(
                            #[trigger] all.actions[i],
                            s,
                        ) by {
                            if i > 0 {
                                assert(all.actions[i] == rest.actions[i - 1]);
                                assert(has_snapshot(rest.actions[i - 1], g));
                            }
                        }
                    }
                },
            }
        }
    }
}

/// A reset keeps the operation, and mode and settings that it does not give. The
/// new timeline starts at sample zero with no window open.
pub proof fn resets_keep_what_they_do_not_give(old_session: SessionModel, v: Json)
    requires
        opened_session(v, Some(old_session)) is Ok,
    ensures
        ({
            let new = opened_session(v, Some(old_session))->Ok_0;
            &&& new.live == old_session.live
            &&& member(v, "mode"@) is None ==> new.mode == old_session.mode
            &&& member(v, "settings"@) is None ==> new.settings == old_session.settings
            &&& new.expected == 0
            &&& new.opened is None
            &&& new.pcm.len() == 0
        }),
{
}

/// A reset ends the window that is open as cancelled, after work on every window
/// was stopped and before it is acknowledged.
pub proof fn resets_end_the_open_window(old_session: SessionModel, v: Json)
    requires
        opened_session(v, Some(old_session)) is Ok,
        old_session.opened is Some,
    ensures
        ({
            let actions = restarted(Some(old_session), v).actions;
            &&& actions.len() == 3
            &&& actions[0] == ActionModel::CancelAll
            &&& actions[1] == (ActionModel::Done {
                start: old_session.next,
                status: Status::Cancelled,
                reason: "reset"@,
            })
            &&& actions[2] is Reset
        }),
{
}

/// Finishing tells of an incomplete window that it is skipped, and nothing is left
/// to do then.
pub proof fn finishing_skips_the_tail(
    session: SessionModel,
    v: Json,
    payload: Seq<u8>,
    float_pcm: bool,
)
    requires
        command_name(v) == "finish"@,
        fields_complaint(v, crate::ingress::FINISH_NAMES@) is None,
    ensures
        ({
            let reply = commanded(Some(session), v, payload, float_pcm);
            &&& reply.finished
            &&& reply.actions.last() == ActionModel::Finish
            &&& session.opened is Some ==> reply.actions[0] == (ActionModel::Done {
                start: session.next,
                status: Status::Skipped,
                reason: "incomplete tail"@,
            })
            &&& session.opened is None ==> reply.actions.len() == 1
        }),
{
    reveal_strlit("finish");
    reveal_strlit("audio");
    reveal_strlit("start");
    reveal_strlit("reset");
    reveal_strlit("configure");
    assert("finish"@.len() == 6 && "audio"@.len() == 5 && "start"@.len() == 5 && "reset"@.len() == 5
        && "configure"@.len() == 9);
}

} // verus!
