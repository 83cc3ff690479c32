//! The commands of a stream, and what becomes of windows that wait too long.
use vstd::prelude::*;
use vstd::string::*;
use crate::engine::{DecodeSettings, Mode};
use crate::json::{fields, fields_complaint, member, text_of, Json};
use crate::session::{
    closed, fed, gapped, heard, opened_session, preceded, push_action, Action, ActionModel, Session,
    SessionModel, Status, Window, WindowModel,
};
use crate::stream_settings::{
    mode_complaint, replaced, settings, update_complaint, validate_mode_settings,
};
use crate::text::same;

verus! {

/// What a command leads to.
#[verifier::ext_equal]
pub struct Reply {
    pub session: Option<SessionModel>,
    pub actions: Seq<ActionModel>,
    pub finished: bool,
}

pub const CONFIGURE_NAMES: [&'static str; 3] = ["type", "payload_bytes", "settings"];

pub const FINISH_NAMES: [&'static str; 2] = ["type", "payload_bytes"];

/// A command that leaves the session as it is.
pub open spec fn refused(
    session: Option<SessionModel>,
    command: Seq<char>,
    message: Seq<char>,
) -> Reply {
    Reply {
        session,
        actions: seq![ActionModel::Refuse { command, message }],
        finished: false,
    }
}

/// The name of a command.
pub open spec fn command_name(v: Json) -> Seq<char> {
    match text_of(member(v, "type"@)) {
        Some(name) => name,
        None => ""@,
    }
}

pub open spec fn started(session: Option<SessionModel>, v: Json) -> Reply {
    if session is Some {
        refused(session, "start"@, "stream already started; use reset"@)
    } else {
        match opened_session(v, None) {
            Err(error) => refused(session, "start"@, error),
            Ok(new) => Reply {
                session: Some(new),
                actions: seq![
                    ActionModel::Reset {
                        mode: new.mode,
                        command: "start"@,
                        utc: new.utc,
                        live: new.live,
                    },
                ],
                finished: false,
            },
        }
    }
}

/// The end of a window that is open when its stream is reset or finished.
pub open spec fn abandoned(s: SessionModel, status: Status, reason: Seq<char>) -> Seq<ActionModel> {
    if s.opened is Some {
        seq![ActionModel::Done { start: s.next, status, reason }]
    } else {
        Seq::empty()
    }
}

pub open spec fn restarted(session: Option<SessionModel>, v: Json) -> Reply {
    match session {
        None => refused(session, "reset"@, "send start first"@),
        Some(old) => match opened_session(v, session) {
            Err(error) => refused(session, "reset"@, error),
            Ok(new) => Reply {
                session: Some(new),
                actions: seq![ActionModel::CancelAll] + abandoned(
                    old,
                    Status::Cancelled,
                    "reset"@,
                ) + seq![
                    ActionModel::Reset {
                        mode: new.mode,
                        command: "reset"@,
                        utc: new.utc,
                        live: new.live,
                    },
                ],
                finished: false,
            },
        },
    }
}

pub open spec fn configured(session: Option<SessionModel>, v: Json) -> Reply {
    if fields_complaint(v, CONFIGURE_NAMES@) is Some {
        refused(session, "configure"@, fields_complaint(v, CONFIGURE_NAMES@)->0)
    } else {
        match session {
            None => refused(session, "configure"@, "send start first"@),
            Some(current) => match member(v, "settings"@) {
                None => refused(session, "configure"@, "configure requires settings"@),
                Some(document) => match update_complaint(document, current.settings) {
                    Some(error) => refused(session, "configure"@, error),
                    None => {
                        let settings = replaced(document, current.settings);
                        match mode_complaint(current.mode, settings) {
                            Some(error) => refused(session, "configure"@, error),
                            None => Reply {
                                session: Some(SessionModel { settings, ..current }),
                                actions: seq![ActionModel::Acknowledge("configure"@)],
                                finished: false,
                            },
                        }
                    },
                },
            },
        }
    }
}

pub open spec fn received(
    session: Option<SessionModel>,
    v: Json,
    payload: Seq<u8>,
    float_pcm: bool,
) -> Reply {
    match session {
        None => refused(session, "audio"@, "send start first"@),
        Some(current) => {
            let outcome = heard(current, v, payload, float_pcm);
            Reply {
                session: Some(outcome.session),
                actions: match outcome.error {
                    None => outcome.actions,
                    Some(message) => outcome.actions.push(
                        ActionModel::Refuse { command: "audio"@, message },
                    ),
                },
                finished: false,
            }
        },
    }
}

pub open spec fn finishing(session: Option<SessionModel>, v: Json) -> Reply {
    if fields_complaint(v, FINISH_NAMES@) is Some {
        refused(session, "finish"@, fields_complaint(v, FINISH_NAMES@)->0)
    } else {
        match session {
            None => refused(session, "finish"@, "send start first"@),
            Some(current) => Reply {
                session,
                actions: abandoned(current, Status::Skipped, "incomplete tail"@).push(
                    ActionModel::Finish,
                ),
                finished: true,
            },
        }
    }
}

/// What a command leads to.
pub open spec fn commanded(
    session: Option<SessionModel>,
    v: Json,
    payload: Seq<u8>,
    float_pcm: bool,
) -> Reply {
    let name = command_name(v);
    if name == "start"@ {
        started(session, v)
    } else if name == "reset"@ {
        restarted(session, v)
    } else if name == "configure"@ {
        configured(session, v)
    } else if name == "audio"@ {
        received(session, v, payload, float_pcm)
    } else if name == "finish"@ {
        finishing(session, v)
    } else {
        refused(session, name, "unknown command "@ + name)
    }
}

/// Reads commands and keeps the session they work on.
pub struct Ingress {
    pub session: Option<Session>,
    pub float_pcm: bool,
}

/// The actions of a command, and whether it was the last one.
pub struct Handled {
    pub actions: Vec<Action>,
    pub finished: bool,
}

fn one(action: Action) -> (r: Vec<Action>)
    ensures
        r.deep_view() == seq![action.deep_view()],
{
    let mut actions: Vec<Action> = Vec::new();
    actions.push(action);
    assert(actions.deep_view() =~= seq![action.deep_view()]);
    actions
}

fn refuse(command: &str, message: String) -> (r: Handled)
    ensures
        r.actions.deep_view() == seq![
            ActionModel::Refuse { command: command@, message: message@ },
        ],
        !r.finished,
{
    Handled {
        actions: one(Action::Refuse { command: command.to_owned(), message }),
        finished: false,
    }
}

impl Ingress {
    pub open spec fn view_session(&self) -> Option<SessionModel> {
        self.session.deep_view()
    }

    pub open spec fn safe(&self) -> bool {
        self.session matches Some(session) ==> session.safe()
    }

    pub fn new(float_pcm: bool) -> (r: Self)
        ensures
            r.safe(),
            r.session is None,
            r.float_pcm == float_pcm,
    {
        Ingress { session: None, float_pcm }
    }

    fn start(&mut self, v: &Json) -> (r: Handled)
        requires
            old(self).safe(),
        ensures
            final(self).safe(),
            final(self).float_pcm == old(self).float_pcm,
            ({
                let reply = started(old(self).view_session(), *v);
                &&& final(self).view_session() == reply.session
                &&& r.actions.deep_view() == reply.actions
                &&& r.finished == reply.finished
            }),
    {
        if self.session.is_some() {
            return refuse("start", "stream already started; use reset".to_owned());
        }
        match Session::new(v, None) {
            Err(error) => refuse("start", error),
            Ok(new) => {
                let actions: Vec<Action> = one(
                    Action::Reset {
                        mode: new.mode,
                        command: "start",
                        utc: new.utc,
                        live: new.live,
                    },
                );
                self.session = Some(new);
                Handled { actions, finished: false }
            },
        }
    }

    fn restart(&mut self, v: &Json) -> (r: Handled)
        requires
            old(self).safe(),
        ensures
            final(self).safe(),
            final(self).float_pcm == old(self).float_pcm,
            ({
                let reply = restarted(old(self).view_session(), *v);
                &&& final(self).view_session() == reply.session
                &&& r.actions.deep_view() == reply.actions
                &&& r.finished == reply.finished
            }),
    {
        let ghost before = self.view_session();
        let (made, opened, next) = match &self.session {
            None => {
                return refuse("reset", "send start first".to_owned());
            },
            Some(current) => (
                Session::new(v, Some(current)),
                current.opened_settings.is_some(),
                current.next,
            ),
        };
        match made {
            Err(error) => refuse("reset", error),
            Ok(new) => {
                let mut actions: Vec<Action> = one(Action::CancelAll);
                if opened {
                    push_action(
                        &mut actions,
                        Action::Done { start: next, status: Status::Cancelled, reason: "reset" },
                    );
                }
                push_action(
                    &mut actions,
                    Action::Reset {
                        mode: new.mode,
                        command: "reset",
                        utc: new.utc,
                        live: new.live,
                    },
                );
                assert(actions.deep_view() =~= restarted(before, *v).actions);
                self.session = Some(new);
                Handled { actions, finished: false }
            },
        }
    }

    fn configure(&mut self, v: &Json) -> (r: Handled)
        requires
            old(self).safe(),
        ensures
            final(self).safe(),
            final(self).float_pcm == old(self).float_pcm,
            ({
                let reply = configured(old(self).view_session(), *v);
                &&& final(self).view_session() == reply.session
                &&& r.actions.deep_view() == reply.actions
                &&& r.finished == reply.finished
            }),
    {
        match fields(v, &CONFIGURE_NAMES) {
            Ok(_) => {},
            Err(error) => {
                return refuse("configure", error);
            },
        }
        let ghost before = self.view_session();
        let updated: DecodeSettings = match &self.session {
            None => {
                return refuse("configure", "send start first".to_owned());
            },
            Some(current) => match v.get("settings") {
                None => {
                    return refuse("configure", "configure requires settings".to_owned());
                },
                Some(document) => match settings(document, &current.settings) {
                    Err(error) => {
                        return refuse("configure", error);
                    },
                    Ok(updated) => match validate_mode_settings(current.mode, &updated) {
                        Err(error) => {
                            return refuse("configure", error);
                        },
                        Ok(_) => updated,
                    },
                },
            },
        };
        let taken: Option<Session> = self.session.take();
        match taken {
            Some(mut current) => {
                current.settings = updated;
                assert(current.deep_view() =~= SessionModel {
                    settings: updated.deep_view(),
                    ..before->0
                });
                self.session = Some(current);
            },
            None => {},
        }
        Handled { actions: one(Action::Acknowledge("configure")), finished: false }
    }

    fn receive(&mut self, v: &Json, payload: &[u8]) -> (r: Handled)
        requires
            old(self).safe(),
        ensures
            final(self).safe(),
            final(self).float_pcm == old(self).float_pcm,
            ({
                let reply = received(
                    old(self).view_session(),
                    *v,
                    payload@,
                    old(self).float_pcm,
                );
                &&& final(self).view_session() == reply.session
                &&& r.actions.deep_view() == reply.actions
                &&& r.finished == reply.finished
            }),
    {
        let taken: Option<Session> = self.session.take();
        match taken {
            None => refuse("audio", "send start first".to_owned()),
            Some(mut current) => {
                let mut actions: Vec<Action> = Vec::new();
                assert(actions.deep_view() =~= Seq::<ActionModel>::empty());
                let failure: Option<String> = current.audio(
                    v,
                    payload,
                    self.float_pcm,
                    &mut actions,
                );
                self.session = Some(current);
                match failure {
                    Some(message) => {
                        push_action(
                            &mut actions,
                            Action::Refuse { command: "audio".to_owned(), message },
                        );
                    },
                    None => {},
                }
                assert(actions.deep_view() =~= received(
                    old(self).view_session(),
                    *v,
                    payload@,
                    old(self).float_pcm,
                ).actions);
                Handled { actions, finished: false }
            },
        }
    }

    fn finish(&mut self, v: &Json) -> (r: Handled)
        requires
            old(self).safe(),
        ensures
            final(self).safe(),
            final(self).float_pcm == old(self).float_pcm,
            ({
                let reply = finishing(old(self).view_session(), *v);
                &&& final(self).view_session() == reply.session
                &&& r.actions.deep_view() == reply.actions
                &&& r.finished == reply.finished
            }),
    {
        match fields(v, &FINISH_NAMES) {
            Ok(_) => {},
            Err(error) => {
                return refuse("finish", error);
            },
        }
        match &self.session {
            None => refuse("finish", "send start first".to_owned()),
            Some(current) => {
                let mut actions: Vec<Action> = Vec::new();
                if current.opened_settings.is_some() {
                    actions.push(
                        Action::Done {
                            start: current.next,
                            status: Status::Skipped,
                            reason: "incomplete tail",
                        },
                    );
                }
                actions.push(Action::Finish);
                assert(actions.deep_view() =~= finishing(self.view_session(), *v).actions);
                Handled { actions, finished: true }
            },
        }
    }

    /// Carries out one command. A refused command leaves the session as it is,
    /// except that audio is received up to the point where it fails.
    pub fn command(&mut self, v: &Json, payload: &[u8]) -> (r: Handled)
        requires
            old(self).safe(),
        ensures
            final(self).safe(),
            final(self).float_pcm == old(self).float_pcm,
            ({
                let reply = commanded(
                    old(self).view_session(),
                    *v,
                    payload@,
                    old(self).float_pcm,
                );
                &&& final(self).view_session() == reply.session
                &&& r.actions.deep_view() == reply.actions
                &&& r.finished == reply.finished
            }),
    {
        let name: &str = match v.text("type") {
            Some(name) => name,
            None => "",
        };
        if same(name, "start") {
            self.start(v)
        } else if same(name, "reset") {
            self.restart(v)
        } else if same(name, "configure") {
            self.configure(v)
        } else if same(name, "audio") {
            self.receive(v, payload)
        } else if same(name, "finish") {
            self.finish(v)
        } else {
            let mut message: String = "unknown command ".to_owned();
            message.append(name);
            refuse(name, message)
        }
    }
}

// ---------------------------------------------------------------------------
// Obsolete live windows
// ---------------------------------------------------------------------------

/// The last skipped range ends one period before `start`.
pub open spec fn continues(skipped: Seq<(u64, u64)>, start: u64, mode: Mode) -> bool {
    skipped.len() > 0 && skipped.last().1 + mode.period() == start
}

/// The ranges of windows skipped when `waiting` gives way. An early attempt is no
/// window of its own.
pub open spec fn with_skipped(waiting: WindowModel, mode: Mode) -> Seq<(u64, u64)> {
    let skipped = waiting.skipped;
    if !waiting.final_pass {
        skipped
    } else if continues(skipped, waiting.start, mode) {
        skipped.update(skipped.len() - 1, (skipped.last().0, waiting.start))
    } else {
        skipped.push((waiting.start, waiting.start))
    }
}

/// A waiting window gives way to a newer one while its ranges stay bounded.
pub open spec fn gives_way(waiting: WindowModel, mode: Mode) -> bool {
    continues(waiting.skipped, waiting.start, mode) || waiting.skipped.len() < 16
}

/// What becomes of a live window that finds the queue full.
#[derive(Clone, Copy, Debug, PartialEq, Eq)]
pub enum Crowded {
    /// It is dropped.
    Drop,
    /// It takes the place of the window that waits, or waits itself.
    Replace,
}

/// An early window that finds the queue full is dropped, since the final one follows.
pub fn when_crowded(window: &Window) -> (r: Crowded)
    ensures
        r == (if window.final_pass {
            Crowded::Replace
        } else {
            Crowded::Drop
        }),
{
    if window.final_pass {
        Crowded::Replace
    } else {
        Crowded::Drop
    }
}

/// Puts the newest window in the place of one that still waits. Consecutive
/// skipped slots occupy one range. The newest window is handed back where the
/// waiting one stays.
pub fn replace_waiting(waiting: &mut Window, newest: Window, mode: Mode) -> (r: Option<Window>)
    ensures
        match r {
            None => {
                &&& gives_way(old(waiting).deep_view(), mode)
                &&& final(waiting).deep_view() == (WindowModel {
                    skipped: with_skipped(old(waiting).deep_view(), mode),
                    ..newest.deep_view()
                })
            },
            Some(back) => {
                &&& !gives_way(old(waiting).deep_view(), mode)
                &&& final(waiting).deep_view() == old(waiting).deep_view()
                &&& back == newest
            },
        },
{
    let n: usize = waiting.skipped.len();
    let contiguous: bool = if n > 0 {
        let last: u64 = waiting.skipped[n - 1].1;
        let period: u64 = mode.period_samples() as u64;
        last <= u64::MAX - period && last + period == waiting.start
    } else {
        false
    };
    if !contiguous && n >= 16 {
        return Some(newest);
    }
    let mut skipped: Vec<(u64, u64)> = Vec::new();
    let mut i: usize = 0;
    while i < n
        invariant
            i <= n,
            n == waiting.skipped.len(),
            skipped@ =~= waiting.skipped@.take(i as int),
        decreases n - i,
    {
        skipped.push(waiting.skipped[i]);
        i = i + 1;
    }
    if waiting.final_pass {
        if contiguous {
            let first: u64 = skipped[n - 1].0;
            skipped.set(n - 1, (first, waiting.start));
        } else {
            skipped.push((waiting.start, waiting.start));
        }
    }
    assert(skipped@ =~= with_skipped(waiting.deep_view(), mode));
    let mut fresh: Window = newest;
    fresh.skipped = skipped;
    assert(fresh.deep_view() =~= WindowModel {
        skipped: with_skipped(old(waiting).deep_view(), mode),
        ..newest.deep_view()
    });
    *waiting = fresh;
    None
}

/// A range of skipped windows starts and ends on window starts.
pub open spec fn is_range(range: (u64, u64), mode: Mode) -> bool {
    range.0 <= range.1 && (range.1 - range.0) % (mode.period() as int) == 0
}

/// The window that starts at `start` belongs to the range.
pub open spec fn in_range(range: (u64, u64), start: u64, mode: Mode) -> bool {
    range.0 <= start <= range.1 && (start - range.0) % (mode.period() as int) == 0
}

/// The window that starts at `start` is named as skipped.
pub open spec fn names_skipped(ranges: Seq<(u64, u64)>, start: u64, mode: Mode) -> bool {
    exists|i: int| 0 <= i < ranges.len() && in_range(#[trigger] ranges[i], start, mode)
}

/// No window is lost when one gives way: exactly the windows that were named as
/// skipped before, and the one that gives way, are named afterwards.
pub proof fn replaced_windows_are_named(waiting: WindowModel, start: u64, mode: Mode)
    requires
        gives_way(waiting, mode),
        waiting.final_pass,
        forall|i: int|
            0 <= i < waiting.skipped.len() ==> is_range(#[trigger] waiting.skipped[i], mode),
    ensures
        names_skipped(with_skipped(waiting, mode), start, mode) <==> (names_skipped(
            waiting.skipped,
            start,
            mode,
        ) || start == waiting.start),
        forall|i: int|
            0 <= i < with_skipped(waiting, mode).len() ==> is_range(
                #[trigger] with_skipped(waiting, mode)[i],
                mode,
            ),
        with_skipped(waiting, mode).len() <= 16 || with_skipped(waiting, mode).len()
            == waiting.skipped.len(),
{
    let before = waiting.skipped;
    let after = with_skipped(waiting, mode);
    let period = mode.period() as int;
    if continues(before, waiting.start, mode) {
        let last = before.len() - 1;
        let range = before[last];
        assert(is_range(range, mode));
        lemma_next_multiple(range.1 - range.0, period);
        assert(after[last] == (range.0, waiting.start));
        assert forall|i: int| 0 <= i < after.len() implies is_range(#[trigger] after[i], mode) by {
            if i != last {
                assert(after[i] == before[i]);
            }
        }
        if names_skipped(before, start, mode) {
            let i = choose|i: int|
                0 <= i < before.len() && in_range(#[trigger] before[i], start, mode);
            assert(in_range(after[i], start, mode));
        }
        if start == waiting.start {
            assert(in_range(after[last], start, mode));
        }
        if names_skipped(after, start, mode) {
            let i = choose|i: int|
                0 <= i < after.len() && in_range(#[trigger] after[i], start, mode);
            if i != last {
                assert(in_range(before[i], start, mode));
            } else if start <= range.1 {
                assert(in_range(before[last], start, mode));
            } else {
                lemma_no_multiple_between(start - range.0, range.1 - range.0, period);
            }
        }
    } else {
        assert(after == before.push((waiting.start, waiting.start)));
        assert forall|i: int| 0 <= i < after.len() implies is_range(#[trigger] after[i], mode) by {
            if i < before.len() {
                assert(after[i] == before[i]);
            }
        }
        if names_skipped(before, start, mode) {
            let i = choose|i: int|
                0 <= i < before.len() && in_range(#[trigger] before[i], start, mode);
            assert(in_range(after[i], start, mode));
        }
        if start == waiting.start {
            assert(in_range(after[before.len() as int], start, mode));
        }
        if names_skipped(after, start, mode) {
            let i = choose|i: int|
                0 <= i < after.len() && in_range(#[trigger] after[i], start, mode);
            if i < before.len() {
                assert(in_range(before[i], start, mode));
            }
        }
    }
}

proof fn lemma_next_multiple(x: int, period: int)
    requires
        x >= 0,
        period > 0,
        x % period == 0,
    ensures
        (x + period) % period == 0,
{
    vstd::arithmetic::div_mod::lemma_mod_add_multiples_vanish(x, period);
}

/// Between a multiple and the next one there is none.
proof fn lemma_no_multiple_between(y: int, x: int, period: int)
    requires
        period > 0,
        x % period == 0,
        y % period == 0,
        x < y <= x + period,
    ensures
        y == x + period,
{
    vstd::arithmetic::div_mod::lemma_fundamental_div_mod(x, period);
    vstd::arithmetic::div_mod::lemma_fundamental_div_mod(y, period);
    let a = x / period;
    let b = y / period;
    assert(b > a) by (nonlinear_arith)
        requires
            period * a < period * b,
            period > 0,
    ;
    assert(period * b >= period * a + period) by (nonlinear_arith)
        requires
            b >= a + 1,
            period > 0,
    ;
}

// ---------------------------------------------------------------------------
// Laws of the session
// ---------------------------------------------------------------------------

/// The samples kept are those of the stream from the current window's start to
/// `position`, and none are kept before that start.
pub open spec fn is_aligned(s: SessionModel, stream: spec_fn(int) -> u32, position: int) -> bool {
    &&& forall|i: int| 0 <= i < s.pcm.len() ==> #[trigger] s.pcm[i] == stream(s.next + i)
    &&& if s.opened is Some {
        s.next + s.pcm.len() == position
    } else {
        position <= s.next && s.pcm.len() == 0
    }
}

/// A submitted window holds exactly the samples of the stream from its start on,
/// starts a whole number of periods behind `origin`, and is complete.
pub open spec fn is_faithful(
    action: ActionModel,
    stream: spec_fn(int) -> u32,
    origin: u64,
) -> bool {
    action matches ActionModel::Submit(window) ==> {
        &&& forall|i: int|
            0 <= i < window.pcm.len() ==> #[trigger] window.pcm[i] == stream(window.start + i)
        &&& window.start >= origin
        &&& (window.start - origin) % (window.mode.period() as int) == 0
        &&& window.final_pass ==> window.pcm.len() == window.mode.window()
        &&& !window.final_pass ==> window.pcm.len() == crate::session::EARLY_SAMPLES
    }
}

/// Every window that feeding submits holds exactly the samples of its own range
/// of the stream, on a period boundary, and the session stays aligned.
pub proof fn fed_windows_are_faithful(
    s: SessionModel,
    samples: Seq<u32>,
    first: int,
    position: int,
    end: int,
    stream: spec_fn(int) -> u32,
    origin: u64,
)
    requires
        crate::session::is_safe(s),
        first <= position <= end,
        end - first == samples.len(),
        forall|i: int| 0 <= i < samples.len() ==> #[trigger] samples[i] == stream(first + i),
        is_aligned(s, stream, position),
        origin <= s.next,
        (s.next - origin) % (s.mode.period() as int) == 0,
    ensures
        ({
            let outcome = fed(s, samples, first, position, end);
            &&& forall|i: int|
                0 <= i < outcome.actions.len() ==> is_faithful(
                    #[trigger] outcome.actions[i],
                    stream,
                    origin,
                )
            &&& outcome.error is None ==> {
                &&& is_aligned(outcome.session, stream, end)
                &&& origin <= outcome.session.next
                &&& (outcome.session.next - origin) % (outcome.session.mode.period() as int) == 0
                &&& outcome.session.mode == s.mode
            }
        }),
    decreases
            end - position,
            if crate::session::is_full(s) {
                1int
            } else {
                0
            },
{
    if position >= end {
    } else if position < s.next {
        let p = crate::session::least(end, s.next as int);
        fed_windows_are_faithful(s, samples, first, p, end, stream, origin);
    } else {
        let o = crate::session::with_window(s);
        let f = crate::session::filled(o, samples, first, position, end);
        let taken = crate::session::least(
            crate::session::target(o) - o.pcm.len(),
            end - position,
        );
        let p = position + taken;
        assert(o.next + o.pcm.len() == position);
        assert forall|i: int| 0 <= i < f.pcm.len() implies #[trigger] f.pcm[i] == stream(
            f.next + i,
        ) by {
            if i >= o.pcm.len() {
                let k = position - first + (i - o.pcm.len());
                assert(f.pcm[i] == samples[k]);
                assert(samples[k] == stream(first + k));
            } else {
                assert(f.pcm[i] == s.pcm[i]);
            }
        }
        if f.pcm.len() < crate::session::target(o) {
            fed_windows_are_faithful(f, samples, first, p, end, stream, origin);
        } else {
            match crate::session::window_time(f) {
                None => {},
                Some(utc) => {
                    let submission = ActionModel::Submit(crate::session::submitted(f, utc));
                    assert(is_faithful(submission, stream, origin));
                    let g = if crate::session::is_early(f) {
                        SessionModel { early_submitted: true, ..f }
                    } else {
                        SessionModel {
                            next: (f.next + f.mode.period()) as u64,
                            ..closed(f)
                        }
                    };
                    if crate::session::is_early(f) || f.next + f.mode.period() <= u64::MAX {
                        lemma_next_multiple(f.next - origin, f.mode.period() as int);
                        fed_windows_are_faithful(g, samples, first, p, end, stream, origin);
                        let rest = fed(g, samples, first, p, end);
                        let all = preceded(seq![submission], rest);
                        assert(fed(s, samples, first, position, end) == all);
                        assert forall|i: int| 0 <= i < all.actions.len() implies is_faithful(
                            #[trigger] all.actions[i],
                            stream,
                            origin,
                        ) by {
                            if i > 0 {
                                assert(all.actions[i] == rest.actions[i - 1]);
                            }
                        }
                    }
                },
            }
        }
    }
}

/// A gap that reaches behind the current window's start moves it to the first
/// boundary at or behind the gap's end.
pub proof fn gaps_keep_alignment(s: SessionModel, first: u64, origin: u64)
    requires
        s.next < first,
        s.expected < first,
        gapped(s, first).error is None,
        origin <= s.next,
        (s.next - origin) % (s.mode.period() as int) == 0,
    ensures
        ({
            let next = gapped(s, first).session.next;
            &&& first <= next < first + s.mode.period()
            &&& (next - origin) % (s.mode.period() as int) == 0
            &&& gapped(s, first).session.opened is None
        }),
{
    let period = s.mode.period() as int;
    let x = first - s.next + period - 1;
    vstd::arithmetic::div_mod::lemma_fundamental_div_mod(x, period);
    let n = x / period;
    assert(x / period * period == period * n) by (nonlinear_arith)
        requires
            n == x / period,
    ;
    assert(x % period < period);
    vstd::arithmetic::div_mod::lemma_mod_multiples_vanish(n, s.next - origin, period);
}

/// The first window starts at the first slot boundary at or behind the first
/// sample, rounded up to a whole sample.
pub proof fn windows_start_on_slot_boundaries(mode: Mode, utc: u64)
    ensures
        ({
            let offset = crate::session::samples_to_boundary(mode, utc);
            let period = crate::session::period_ns(mode);
            exists|slot: nat|
                #![trigger slot * period]
                utc <= slot * period < utc + period && offset * 1_000_000_000 >= (slot * period
                    - utc) * 12000 && (offset - 1) * 1_000_000_000 < (slot * period - utc) * 12000
        }),
{
    let period = crate::session::period_ns(mode) as int;
    let u = utc as int;
    vstd::arithmetic::div_mod::lemma_fundamental_div_mod(u, period);
    let q = (u / period) as nat;
    let remainder = u % period;
    let slot = if remainder == 0 {
        q
    } else {
        q + 1
    };
    assert(slot * period == u + (if remainder == 0 {
        0
    } else {
        period - remainder
    })) by (nonlinear_arith)
        requires
            u == period * q + remainder,
            slot == (if remainder == 0 {
                q
            } else {
                q + 1
            }),
    ;
    assert(utc <= slot * crate::session::period_ns(mode) < utc + period);
}

/// Audio that is accepted keeps the session aligned with the stream of samples,
/// whatever gaps it has, and submits only faithful windows.
pub proof fn audio_keeps_alignment(
    s: SessionModel,
    v: Json,
    payload: Seq<u8>,
    float_pcm: bool,
    stream: spec_fn(int) -> u32,
    origin: u64,
)
    requires
        crate::session::is_safe(s),
        is_aligned(s, stream, s.expected as int) || (s.opened is None && s.pcm.len() == 0
            && s.expected <= s.next),
        origin <= s.next,
        (s.next - origin) % (s.mode.period() as int) == 0,
        crate::session::audio_range(v, payload, float_pcm, s.expected) matches Ok((first, count))
            && forall|i: int|
            0 <= i < count ==> #[trigger] crate::session::samples_of(
                payload,
                count as nat,
                float_pcm,
            )[i] == stream(first + i),
        heard(s, v, payload, float_pcm).error is None,
    ensures
        ({
            let outcome = heard(s, v, payload, float_pcm);
            &&& forall|i: int|
                0 <= i < outcome.actions.len() ==> is_faithful(
                    #[trigger] outcome.actions[i],
                    stream,
                    origin,
                )
            &&& is_aligned(outcome.session, stream, outcome.session.expected as int)
            &&& origin <= outcome.session.next
            &&& (outcome.session.next - origin) % (outcome.session.mode.period() as int) == 0
        }),
{
    let (first, count) = crate::session::audio_range(v, payload, float_pcm, s.expected)->Ok_0;
    let gap = gapped(s, first);
    let samples = crate::session::samples_of(payload, count as nat, float_pcm);
    if first > s.expected && first > s.next {
        gaps_keep_alignment(s, first, origin);
    }
    let end = first + count;
    let s1 = SessionModel { expected: end as u64, ..gap.session };
    assert(is_aligned(s1, stream, first as int));
    fed_windows_are_faithful(s1, samples, first as int, first as int, end, stream, origin);
    let rest = fed(s1, samples, first as int, first as int, end);
    lemma_feeding_keeps_expected(s1, samples, first as int, first as int, end);
    let all = preceded(gap.actions, rest);
    assert forall|i: int| 0 <= i < all.actions.len() implies is_faithful(
        #[trigger] all.actions[i],
        stream,
        origin,
    ) by {
        if i >= gap.actions.len() {
            assert(all.actions[i] == rest.actions[i - gap.actions.len()]);
        } else {
            assert(all.actions[i] == gap.actions[i]);
        }
    }
}

proof fn lemma_feeding_keeps_expected(
    s: SessionModel,
    samples: Seq<u32>,
    first: int,
    position: int,
    end: int,
)
    requires
        crate::session::is_safe(s),
        first <= position,
        end - first <= samples.len(),
    ensures
        fed(s, samples, first, position, end).session.expected == s.expected,
    decreases
            end - position,
            if crate::session::is_full(s) {
                1int
            } else {
                0
            },
{
    if position >= end {
    } else if position < s.next {
        let p = crate::session::least(end, s.next as int);
        lemma_feeding_keeps_expected(s, samples, first, p, end);
    } else {
        let o = crate::session::with_window(s);
        let f = crate::session::filled(o, samples, first, position, end);
        let p = position + crate::session::least(
            crate::session::target(o) - o.pcm.len(),
            end - position,
        );
        if f.pcm.len() < crate::session::target(o) {
            lemma_feeding_keeps_expected(f, samples, first, p, end);
        } else if let Some(utc) = crate::session::window_time(f) {
            if crate::session::is_early(f) {
                lemma_feeding_keeps_expected(
                    SessionModel { early_submitted: true, ..f },
                    samples,
                    first,
                    p,
                    end,
                );
            } else if f.next + f.mode.period() <= u64::MAX {
                lemma_feeding_keeps_expected(
                    SessionModel { next: (f.next + f.mode.period()) as u64, ..closed(f) },
                    samples,
                    first,
                    p,
                    end,
                );
            }
        }
    }
}

} // verus!
