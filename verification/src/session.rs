//! Assembly of a sample stream into aligned decode windows.
use vstd::prelude::*;
use vstd::string::*;
use crate::engine::{DecodeSettings, Mode, SettingsModel, FILTERED_SCALE};
use crate::json::{fields, fields_complaint, member, text_of, unsigned_of, Json};
use crate::message_encode::{number_value, only_digits};
use crate::single::{finite, is_finite};
use crate::stream_settings::{
    mode_complaint, replaced, settings, update_complaint, validate_mode_settings,
};
use crate::text::{all_digits, decimal_value, same};

verus! {

// ---------------------------------------------------------------------------
// Windows, events and actions
// ---------------------------------------------------------------------------

/// How a window ended.
#[derive(Debug, Clone, Copy, PartialEq, Eq, Structural)]
pub enum Status {
    Completed,
    Skipped,
    Cancelled,
    Failed,
}

impl Status {
    pub fn name(self) -> (r: &'static str)
        ensures
            r@ == (match self {
                Status::Completed => "completed"@,
                Status::Skipped => "skipped"@,
                Status::Cancelled => "cancelled"@,
                Status::Failed => "failed"@,
            }),
    {
        match self {
            Status::Completed => "completed",
            Status::Skipped => "skipped",
            Status::Cancelled => "cancelled",
            Status::Failed => "failed",
        }
    }
}

/// One window of audio. Samples are kept as they came: bit patterns of single
/// precision values, or 16 bit words.
#[derive(Debug)]
pub struct Window {
    pub mode: Mode,
    pub start: u64,
    pub utc: Option<u64>,
    pub pcm: Vec<u32>,
    pub settings: DecodeSettings,
    /// Windows of one epoch are cancelled together.
    pub epoch: u64,
    /// First and last start of windows that this one has replaced.
    pub skipped: Vec<(u64, u64)>,
    pub final_pass: bool,
}

#[verifier::ext_equal]
pub struct WindowModel {
    pub mode: Mode,
    pub start: u64,
    pub utc: Option<u64>,
    pub pcm: Seq<u32>,
    pub settings: SettingsModel,
    pub epoch: u64,
    pub skipped: Seq<(u64, u64)>,
    pub final_pass: bool,
}

impl DeepView for Window {
    type V = WindowModel;

    open spec fn deep_view(&self) -> WindowModel {
        WindowModel {
            mode: self.mode,
            start: self.start,
            utc: self.utc,
            pcm: self.pcm@,
            settings: self.settings.deep_view(),
            epoch: self.epoch,
            skipped: self.skipped@,
            final_pass: self.final_pass,
        }
    }
}

/// What a session asks its surroundings to do, in order.
#[derive(Debug)]
pub enum Action {
    /// Stop work on the windows of an epoch.
    Cancel(u64),
    /// Stop work on every window.
    CancelAll,
    /// Samples are missing.
    Gap { first: u64, end: u64 },
    /// A window ends without being decoded.
    Done { start: u64, status: Status, reason: &'static str },
    /// A window is ready.
    Submit(Window),
    /// The decoder starts afresh, for the given command.
    Reset { mode: Mode, command: &'static str, utc: Option<u64>, live: bool },
    /// A command was carried out.
    Acknowledge(&'static str),
    /// A command was refused.
    Refuse { command: String, message: String },
    /// No more commands.
    Finish,
}

#[verifier::ext_equal]
pub enum ActionModel {
    Cancel(u64),
    CancelAll,
    Gap { first: u64, end: u64 },
    Done { start: u64, status: Status, reason: Seq<char> },
    Submit(WindowModel),
    Reset { mode: Mode, command: Seq<char>, utc: Option<u64>, live: bool },
    Acknowledge(Seq<char>),
    Refuse { command: Seq<char>, message: Seq<char> },
    Finish,
}

impl DeepView for Action {
    type V = ActionModel;

    open spec fn deep_view(&self) -> ActionModel {
        match *self {
            Action::Cancel(epoch) => ActionModel::Cancel(epoch),
            Action::CancelAll => ActionModel::CancelAll,
            Action::Gap { first, end } => ActionModel::Gap { first, end },
            Action::Done { start, status, reason } => ActionModel::Done {
                start,
                status,
                reason: reason@,
            },
            Action::Submit(window) => ActionModel::Submit(window.deep_view()),
            Action::Reset { mode, command, utc, live } => ActionModel::Reset {
                mode,
                command: command@,
                utc,
                live,
            },
            Action::Acknowledge(command) => ActionModel::Acknowledge(command@),
            Action::Refuse { command, message } => ActionModel::Refuse {
                command: command@,
                message: message@,
            },
            Action::Finish => ActionModel::Finish,
        }
    }
}

pub(crate) fn push_action(actions: &mut Vec<Action>, action: Action)
    ensures
        final(actions).deep_view() == old(actions).deep_view().push(action.deep_view()),
{
    let ghost before = actions.deep_view();
    actions.push(action);
    assert(actions.deep_view() =~= before.push(action.deep_view()));
}

// ---------------------------------------------------------------------------
// Members of a command
// ---------------------------------------------------------------------------

/// A member that holds a decimal numeral of at most 64 bits.
pub open spec fn decimal_member(v: Json, name: Seq<char>) -> Result<u64, Seq<char>> {
    match text_of(member(v, name)) {
        None => Err(name + " must be a decimal string"@),
        Some(text) => if text.len() == 0 || !all_digits(text) {
            Err(name + " must be a nonnegative decimal string"@)
        } else if decimal_value(text) > u64::MAX {
            Err(name + " exceeds u64"@)
        } else {
            Ok(decimal_value(text) as u64)
        },
    }
}

fn named(name: &str, complaint: &str) -> (r: String)
    ensures
        r@ == name@ + complaint@,
{
    let mut out: String = name.to_owned();
    out.append(complaint);
    out
}

fn decimal(v: &Json, name: &str) -> (r: Result<u64, String>)
    ensures
        match r {
            Ok(n) => decimal_member(*v, name@) == Ok::<u64, Seq<char>>(n),
            Err(error) => decimal_member(*v, name@) == Err::<u64, Seq<char>>(error@),
        },
{
    match v.text(name) {
        None => Err(named(name, " must be a decimal string")),
        Some(text) => {
            if text.unicode_len() == 0 || !only_digits(text) {
                return Err(named(name, " must be a nonnegative decimal string"));
            }
            match number_value(text) {
                Some(n) => Ok(n),
                None => Err(named(name, " exceeds u64")),
            }
        },
    }
}

/// The mode that a member names.
pub open spec fn mode_named(value: Option<Json>) -> Option<Mode> {
    match text_of(value) {
        Some(text) => if text == "ft8"@ {
            Some(Mode::Ft8)
        } else if text == "ft4"@ {
            Some(Mode::Ft4)
        } else {
            None
        },
        None => None,
    }
}

fn mode(v: &Json) -> (r: Option<Mode>)
    ensures
        r == mode_named(member(*v, "mode"@)),
{
    match v.text("mode") {
        Some(text) => if same(text, "ft8") {
            Some(Mode::Ft8)
        } else if same(text, "ft4") {
            Some(Mode::Ft4)
        } else {
            None
        },
        None => None,
    }
}

// ---------------------------------------------------------------------------
// The session
// ---------------------------------------------------------------------------

pub struct Session {
    pub mode: Mode,
    pub live: bool,
    pub utc: Option<u64>,
    /// Start of the window that is being, or will next be, assembled.
    pub next: u64,
    /// End of the samples received so far.
    pub expected: u64,
    pub settings: DecodeSettings,
    /// Settings at the opening of the current window.
    pub opened_settings: Option<DecodeSettings>,
    pub pcm: Vec<u32>,
    pub epoch: u64,
    pub early_submitted: bool,
}

#[verifier::ext_equal]
pub struct SessionModel {
    pub mode: Mode,
    pub live: bool,
    pub utc: Option<u64>,
    pub next: u64,
    pub expected: u64,
    pub settings: SettingsModel,
    pub opened: Option<SettingsModel>,
    pub pcm: Seq<u32>,
    pub epoch: u64,
    pub early_submitted: bool,
}

impl DeepView for Session {
    type V = SessionModel;

    open spec fn deep_view(&self) -> SessionModel {
        SessionModel {
            mode: self.mode,
            live: self.live,
            utc: self.utc,
            next: self.next,
            expected: self.expected,
            settings: self.settings.deep_view(),
            opened: self.opened_settings.deep_view(),
            pcm: self.pcm@,
            epoch: self.epoch,
            early_submitted: self.early_submitted,
        }
    }
}

/// Nanoseconds from one slot to the next.
pub open spec fn period_ns(mode: Mode) -> nat {
    mode.period() * 1_000_000_000 / 12000
}

/// Samples until the next slot boundary, rounded up.
pub open spec fn samples_to_boundary(mode: Mode, utc: u64) -> nat {
    let remainder = utc as nat % period_ns(mode);
    let delta = if remainder == 0 {
        0
    } else {
        (period_ns(mode) - remainder) as nat
    };
    (delta * 12000 + 999_999_999) / 1_000_000_000
}

/// The members of a command that starts a stream.
pub const START_NAMES: [&'static str; 8] = [
    "type", "payload_bytes", "version", "mode", "operation", "start_utc_ns",
    "slot_offset_samples", "settings",
];

/// The members of a command that starts a stream afresh.
pub const RESET_NAMES: [&'static str; 6] = [
    "type", "payload_bytes", "mode", "start_utc_ns", "slot_offset_samples", "settings",
];

/// The mode of a new session: as named, or that of the previous one.
pub open spec fn session_mode(v: Json, previous: Option<SessionModel>) -> Result<Mode, Seq<char>> {
    if member(v, "mode"@) is Some {
        match mode_named(member(v, "mode"@)) {
            Some(mode) => Ok(mode),
            None => Err("mode must be ft8 or ft4"@),
        }
    } else {
        match previous {
            Some(session) => Ok(session.mode),
            None => Err("start requires mode"@),
        }
    }
}

/// Whether a new session is live: as named, or as the previous one.
pub open spec fn session_live(v: Json, previous: Option<SessionModel>) -> Result<bool, Seq<char>> {
    match previous {
        Some(session) => Ok(session.live),
        None => match text_of(member(v, "operation"@)) {
            Some(text) => if text == "live"@ {
                Ok(true)
            } else if text == "offline"@ {
                Ok(false)
            } else {
                Err("operation must be live or offline"@)
            },
            None => Err("operation must be live or offline"@),
        },
    }
}

/// Time of the first sample and start of the first window.
pub open spec fn session_origin(v: Json, mode: Mode) -> Result<(Option<u64>, u64), Seq<char>> {
    let has_utc = member(v, "start_utc_ns"@) is Some;
    let has_offset = member(v, "slot_offset_samples"@) is Some;
    if has_utc && !has_offset {
        match decimal_member(v, "start_utc_ns"@) {
            Ok(utc) => Ok((Some(utc), samples_to_boundary(mode, utc) as u64)),
            Err(error) => Err(error),
        }
    } else if has_offset && !has_utc {
        match decimal_member(v, "slot_offset_samples"@) {
            Ok(offset) => Ok((None, offset)),
            Err(error) => Err(error),
        }
    } else {
        Err("provide exactly one of start_utc_ns or slot_offset_samples"@)
    }
}

/// The settings of a new session: the previous or default ones, updated.
pub open spec fn session_settings(v: Json, previous: Option<SessionModel>) -> Result<
    SettingsModel,
    Seq<char>,
> {
    let base = match previous {
        Some(session) => session.settings,
        None => crate::engine::initial_settings(),
    };
    match member(v, "settings"@) {
        Some(document) => match update_complaint(document, base) {
            Some(error) => Err(error),
            None => Ok(replaced(document, base)),
        },
        None => Ok(base),
    }
}

/// A session that a start command, or with a previous session a reset command,
/// leads to.
pub open spec fn opened_session(v: Json, previous: Option<SessionModel>) -> Result<
    SessionModel,
    Seq<char>,
> {
    let names = if previous is None {
        START_NAMES@
    } else {
        RESET_NAMES@
    };
    if fields_complaint(v, names) is Some {
        Err(fields_complaint(v, names)->0)
    } else if previous is None && unsigned_of(member(v, "version"@)) != Some(1u64) {
        Err("version must be 1"@)
    } else {
        match session_mode(v, previous) {
            Err(error) => Err(error),
            Ok(mode) => match session_live(v, previous) {
                Err(error) => Err(error),
                Ok(live) => match session_origin(v, mode) {
                    Err(error) => Err(error),
                    Ok((utc, next)) => match session_settings(v, previous) {
                        Err(error) => Err(error),
                        Ok(settings) => match mode_complaint(mode, settings) {
                            Some(error) => Err(error),
                            None => Ok(
                                SessionModel {
                                    mode,
                                    live,
                                    utc,
                                    next,
                                    expected: 0,
                                    settings,
                                    opened: None,
                                    pcm: Seq::empty(),
                                    epoch: match previous {
                                        Some(session) => next_epoch(session.epoch),
                                        None => 0,
                                    },
                                    early_submitted: false,
                                },
                            ),
                        },
                    },
                },
            },
        }
    }
}

pub open spec fn next_epoch(epoch: u64) -> u64 {
    if epoch == u64::MAX {
        0
    } else {
        (epoch + 1) as u64
    }
}

fn renewed(epoch: u64) -> (r: u64)
    ensures
        r == next_epoch(epoch),
{
    if epoch == u64::MAX {
        0
    } else {
        epoch + 1
    }
}

// ---------------------------------------------------------------------------
// Feeding samples
// ---------------------------------------------------------------------------

/// Samples after which a live FT8 window is tried early.
pub const EARLY_SAMPLES: usize = 162432;

/// The current window gets an early attempt first.
pub open spec fn is_early(s: SessionModel) -> bool {
    s.live && s.mode == Mode::Ft8 && !s.early_submitted && s.opened->0.depth >= 2
}

/// Samples at which the current window is submitted next.
pub open spec fn target(s: SessionModel) -> nat {
    if is_early(s) {
        EARLY_SAMPLES as nat
    } else {
        s.mode.window()
    }
}

/// Samples are kept only for an open window, and no more than it needs.
pub open spec fn is_safe(s: SessionModel) -> bool {
    if s.opened is Some {
        s.pcm.len() <= target(s)
    } else {
        s.pcm.len() == 0
    }
}

/// The current window is complete but was not accepted.
pub open spec fn is_full(s: SessionModel) -> bool {
    s.opened is Some && s.pcm.len() == target(s)
}

/// Time of the current window's first sample; `None` where it exceeds 64 bits.
pub open spec fn window_time(s: SessionModel) -> Option<Option<u64>> {
    match s.utc {
        None => Some(None),
        Some(base) => {
            let time = base + s.next * 1_000_000_000 / 12000;
            if time > u64::MAX {
                None
            } else {
                Some(Some(time as u64))
            }
        },
    }
}

/// The session with its current window open, under the settings in force.
pub open spec fn with_window(s: SessionModel) -> SessionModel {
    if s.opened is None {
        SessionModel { opened: Some(s.settings), ..s }
    } else {
        s
    }
}

/// The window that a complete session submits.
pub open spec fn submitted(s: SessionModel, utc: Option<u64>) -> WindowModel {
    WindowModel {
        mode: s.mode,
        start: s.next,
        utc,
        pcm: s.pcm,
        settings: s.opened->0,
        epoch: s.epoch,
        skipped: Seq::empty(),
        final_pass: !is_early(s),
    }
}

/// The session after a final attempt, before it moves to the next boundary.
pub open spec fn closed(s: SessionModel) -> SessionModel {
    SessionModel {
        pcm: Seq::empty(),
        opened: None,
        early_submitted: false,
        epoch: next_epoch(s.epoch),
        ..s
    }
}

/// What feeding leads to.
#[verifier::ext_equal]
pub struct Outcome {
    pub session: SessionModel,
    pub actions: Seq<ActionModel>,
    pub error: Option<Seq<char>>,
}

pub open spec fn preceded(actions: Seq<ActionModel>, outcome: Outcome) -> Outcome {
    Outcome { actions: actions + outcome.actions, ..outcome }
}

pub open spec fn least(a: int, b: int) -> int {
    if a < b {
        a
    } else {
        b
    }
}

/// The session with the samples `position..end`, as far as its current window
/// takes them. `samples` start at sample number `first`.
pub open spec fn filled(
    s: SessionModel,
    samples: Seq<u32>,
    first: int,
    position: int,
    end: int,
) -> SessionModel {
    let taken = least(target(s) - s.pcm.len(), end - position);
    SessionModel {
        pcm: s.pcm + samples.subrange(position - first, position - first + taken),
        ..s
    }
}

/// Feeds the samples `position..end`: skips those before the next boundary,
/// fills the current window, and submits it at its targets.
pub open spec fn fed(
    s: SessionModel,
    samples: Seq<u32>,
    first: int,
    position: int,
    end: int,
) -> Outcome
    decreases
            end - position,
            if is_full(s) {
                1int
            } else {
                0
            },
    when is_safe(s) && first <= position && end - first <= samples.len()
{
    if position >= end {
        Outcome { session: s, actions: Seq::empty(), error: None }
    } else if position < s.next {
        fed(s, samples, first, least(end, s.next as int), end)
    } else {
        let o = with_window(s);
        let f = filled(o, samples, first, position, end);
        let p = position + least(target(o) - o.pcm.len(), end - position);
        if f.pcm.len() < target(o) {
            fed(f, samples, first, p, end)
        } else {
            match window_time(f) {
                None => Outcome {
                    session: f,
                    actions: Seq::empty(),
                    error: Some("window UTC exceeds u64"@),
                },
                Some(utc) => {
                    let action = seq![ActionModel::Submit(submitted(f, utc))];
                    if is_early(f) {
                        preceded(
                            action,
                            fed(
                                SessionModel { early_submitted: true, ..f },
                                samples,
                                first,
                                p,
                                end,
                            ),
                        )
                    } else if f.next + f.mode.period() > u64::MAX {
                        Outcome {
                            session: closed(f),
                            actions: action,
                            error: Some("sample boundary exceeds u64"@),
                        }
                    } else {
                        preceded(
                            action,
                            fed(
                                SessionModel {
                                    next: (f.next + f.mode.period()) as u64,
                                    ..closed(f)
                                },
                                samples,
                                first,
                                p,
                                end,
                            ),
                        )
                    }
                },
            }
        }
    }
}

/// What missing samples before `first` lead to. A gap that reaches beyond the
/// current window's start ends that window and moves on to the first boundary
/// behind the gap.
pub open spec fn gapped(s: SessionModel, first: u64) -> Outcome {
    let gap = ActionModel::Gap { first: s.expected, end: first };
    if first <= s.expected {
        Outcome { session: s, actions: Seq::empty(), error: None }
    } else if first <= s.next {
        Outcome { session: s, actions: seq![gap], error: None }
    } else {
        let period = s.mode.period();
        let next = s.next + (first - s.next + period - 1) / (period as int) * period;
        let lost = if s.opened is Some {
            seq![
                ActionModel::Done {
                    start: s.next,
                    status: Status::Skipped,
                    reason: "input gap"@,
                },
            ]
        } else {
            Seq::empty()
        };
        Outcome {
            session: SessionModel {
                next: if next > u64::MAX {
                    s.next
                } else {
                    next as u64
                },
                ..closed(s)
            },
            actions: seq![ActionModel::Cancel(s.epoch), gap] + lost,
            error: if next > u64::MAX {
                Some("sample boundary exceeds u64"@)
            } else {
                None
            },
        }
    }
}

/// The members of an audio command.
pub const AUDIO_NAMES: [&'static str; 4] = [
    "type", "payload_bytes", "first_sample", "sample_count",
];

/// The sample that starts at byte `at`: four bytes of a single precision value,
/// or a 16 bit word, low byte first.
pub open spec fn sample_word(payload: Seq<u8>, at: int, float_pcm: bool) -> u32 {
    if float_pcm {
        (payload[at] + payload[at + 1] * 0x100 + payload[at + 2] * 0x1_0000 + payload[at + 3]
            * 0x100_0000) as u32
    } else {
        (payload[at] + payload[at + 1] * 0x100) as u32
    }
}

pub open spec fn sample_size(float_pcm: bool) -> int {
    if float_pcm {
        4
    } else {
        2
    }
}

pub open spec fn samples_of(payload: Seq<u8>, count: nat, float_pcm: bool) -> Seq<u32> {
    Seq::new(count, |i: int| sample_word(payload, sample_size(float_pcm) * i, float_pcm))
}

/// A converted sample that is finite and not beyond four times full scale.
pub open spec fn is_bounded(word: u32) -> bool {
    finite(word) && word % 0x8000_0000 <= FILTERED_SCALE
}

/// What is wrong with an audio command, if anything, and else its first sample
/// number and count.
pub open spec fn audio_range(
    v: Json,
    payload: Seq<u8>,
    float_pcm: bool,
    expected: u64,
) -> Result<(u64, u64), Seq<char>> {
    if fields_complaint(v, AUDIO_NAMES@) is Some {
        Err(fields_complaint(v, AUDIO_NAMES@)->0)
    } else {
        match decimal_member(v, "first_sample"@) {
            Err(error) => Err(error),
            Ok(first) => match unsigned_of(member(v, "sample_count"@)) {
                None => Err("sample_count must be an integer"@),
                Some(count) => if count == 0 || count > 12000 || count * sample_size(float_pcm)
                    != payload.len() {
                    Err("sample_count must match 1..12000 PCM samples"@)
                } else if float_pcm && exists|i: int|
                    0 <= i < count && !is_bounded(
                        #[trigger] samples_of(payload, count as nat, float_pcm)[i],
                    ) {
                    Err("converted audio must contain finite bounded PCM-scale samples"@)
                } else if first + count > u64::MAX {
                    Err("audio sample range exceeds u64"@)
                } else if first < expected {
                    Err("audio overlaps or precedes previously received samples"@)
                } else {
                    Ok((first, count))
                },
            },
        }
    }
}

/// What an audio command leads to.
pub open spec fn heard(s: SessionModel, v: Json, payload: Seq<u8>, float_pcm: bool) -> Outcome {
    match audio_range(v, payload, float_pcm, s.expected) {
        Err(error) => Outcome { session: s, actions: Seq::empty(), error: Some(error) },
        Ok((first, count)) => {
            let gap = gapped(s, first);
            if gap.error is Some {
                gap
            } else {
                let end = first + count;
                preceded(
                    gap.actions,
                    fed(
                        SessionModel { expected: end as u64, ..gap.session },
                        samples_of(payload, count as nat, float_pcm),
                        first as int,
                        first as int,
                        end,
                    ),
                )
            }
        },
    }
}

// ---------------------------------------------------------------------------
// Executable session
// ---------------------------------------------------------------------------

spec fn previous_view(previous: Option<&Session>) -> Option<SessionModel> {
    match previous {
        Some(session) => Some(session.deep_view()),
        None => None,
    }
}

fn origin(v: &Json, mode: Mode) -> (r: Result<(Option<u64>, u64), String>)
    ensures
        match r {
            Ok(found) => session_origin(*v, mode) == Ok::<(Option<u64>, u64), Seq<char>>(found),
            Err(error) => session_origin(*v, mode) == Err::<(Option<u64>, u64), Seq<char>>(error@),
        },
{
    let has_utc: bool = v.has("start_utc_ns");
    let has_offset: bool = v.has("slot_offset_samples");
    if has_utc && !has_offset {
        match decimal(v, "start_utc_ns") {
            Ok(utc) => {
                let period: u64 = mode.period_samples() as u64 * 1_000_000_000 / 12000;
                let remainder: u64 = utc % period;
                let delta: u64 = if remainder == 0 { 0 } else { period - remainder };
                Ok((Some(utc), (delta * 12000 + 999_999_999) / 1_000_000_000))
            },
            Err(error) => Err(error),
        }
    } else if has_offset && !has_utc {
        match decimal(v, "slot_offset_samples") {
            Ok(offset) => Ok((None, offset)),
            Err(error) => Err(error),
        }
    } else {
        Err("provide exactly one of start_utc_ns or slot_offset_samples".to_owned())
    }
}

fn base_settings(previous: Option<&Session>) -> (r: DecodeSettings)
    ensures
        r.deep_view() == (match previous_view(previous) {
            Some(session) => session.settings,
            None => crate::engine::initial_settings(),
        }),
{
    match previous {
        Some(session) => session.settings.copied(),
        None => DecodeSettings::default(),
    }
}

impl Session {
    /// Nothing is kept beyond what the current window needs.
    pub open spec fn safe(&self) -> bool {
        is_safe(self.deep_view())
    }

    /// Opens a session for a start command, or with a previous session for a
    /// reset command.
    pub fn new(v: &Json, previous: Option<&Session>) -> (r: Result<Session, String>)
        ensures
            match r {
                Ok(session) => {
                    &&& opened_session(
                        *v,
                        match previous {
                            Some(old_session) => Some(old_session.deep_view()),
                            None => None,
                        },
                    ) == Ok::<SessionModel, Seq<char>>(session.deep_view())
                    &&& session.safe()
                },
                Err(error) => opened_session(
                    *v,
                    match previous {
                        Some(old_session) => Some(old_session.deep_view()),
                        None => None,
                    },
                ) == Err::<SessionModel, Seq<char>>(error@),
            },
    {
        let checked: Result<(), String> = if previous.is_none() {
            fields(v, &START_NAMES)
        } else {
            fields(v, &RESET_NAMES)
        };
        match checked {
            Ok(_) => {},
            Err(error) => {
                return Err(error);
            },
        }
        if previous.is_none() {
            match v.unsigned("version") {
                Some(1) => {},
                _ => {
                    return Err("version must be 1".to_owned());
                },
            }
        }
        let mode: Mode = if v.has("mode") {
            match mode(v) {
                Some(mode) => mode,
                None => {
                    return Err("mode must be ft8 or ft4".to_owned());
                },
            }
        } else {
            match previous {
                Some(session) => session.mode,
                None => {
                    return Err("start requires mode".to_owned());
                },
            }
        };
        let live: bool = match previous {
            Some(session) => session.live,
            None => match v.text("operation") {
                Some(text) => if same(text, "live") {
                    true
                } else if same(text, "offline") {
                    false
                } else {
                    return Err("operation must be live or offline".to_owned());
                },
                None => {
                    return Err("operation must be live or offline".to_owned());
                },
            },
        };
        let (utc, next) = match origin(v, mode) {
            Ok(found) => found,
            Err(error) => {
                return Err(error);
            },
        };
        let base: DecodeSettings = base_settings(previous);
        let updated: DecodeSettings = match v.get("settings") {
            Some(document) => match settings(document, &base) {
                Ok(updated) => updated,
                Err(error) => {
                    return Err(error);
                },
            },
            None => base,
        };
        match validate_mode_settings(mode, &updated) {
            Ok(_) => {},
            Err(error) => {
                return Err(error);
            },
        }
        let epoch: u64 = match previous {
            Some(session) => renewed(session.epoch),
            None => 0,
        };
        Ok(
            Session {
                mode,
                live,
                utc,
                next,
                expected: 0,
                settings: updated,
                opened_settings: None,
                pcm: Vec::new(),
                epoch,
                early_submitted: false,
            },
        )
    }

    fn window_utc(&self) -> (r: Option<Option<u64>>)
        ensures
            r == window_time(self.deep_view()),
    {
        match self.utc {
            None => Some(None),
            Some(base) => {
                let time: u128 = base as u128 + self.next as u128 * 1_000_000_000 / 12000;
                if time > u64::MAX as u128 {
                    None
                } else {
                    Some(Some(time as u64))
                }
            },
        }
    }

    fn close(&mut self)
        ensures
            final(self).deep_view() == closed(old(self).deep_view()),
    {
        self.pcm = Vec::new();
        self.opened_settings = None;
        self.early_submitted = false;
        self.epoch = renewed(self.epoch);
        assert(self.deep_view() =~= closed(old(self).deep_view()));
    }

    fn open(&mut self)
        ensures
            final(self).deep_view() == with_window(old(self).deep_view()),
            final(self).opened_settings is Some,
    {
        if self.opened_settings.is_none() {
            self.opened_settings = Some(self.settings.copied());
        }
        assert(self.deep_view() =~= with_window(old(self).deep_view()));
    }

    fn early(&self) -> (r: bool)
        requires
            self.opened_settings is Some,
        ensures
            r == is_early(self.deep_view()),
    {
        let deep: bool = match &self.opened_settings {
            Some(opened) => opened.depth >= 2,
            None => false,
        };
        self.live && self.mode == Mode::Ft8 && !self.early_submitted && deep
    }

    /// A window with the samples so far.
    fn window(&self, utc: Option<u64>, final_pass: bool) -> (r: Window)
        requires
            self.opened_settings is Some,
            final_pass == !is_early(self.deep_view()),
        ensures
            r.deep_view() == submitted(self.deep_view(), utc),
    {
        let mut pcm: Vec<u32> = Vec::new();
        let mut i: usize = 0;
        while i < self.pcm.len()
            invariant
                i <= self.pcm.len(),
                pcm@ =~= self.pcm@.take(i as int),
            decreases self.pcm.len() - i,
        {
            pcm.push(self.pcm[i]);
            i = i + 1;
        }
        let opened: DecodeSettings = match &self.opened_settings {
            Some(opened) => opened.copied(),
            None => self.settings.copied(),
        };
        let r = Window {
            mode: self.mode,
            start: self.next,
            utc,
            pcm,
            settings: opened,
            epoch: self.epoch,
            skipped: Vec::new(),
            final_pass,
        };
        assert(r.deep_view() =~= submitted(self.deep_view(), utc));
        r
    }

    #[verifier::rlimit(60)]
    fn feed(&mut self, samples: &Vec<u32>, first: u64, end: u64, actions: &mut Vec<Action>) -> (r:
        Option<&'static str>)
        requires
            old(self).safe(),
            first <= end,
            end - first == samples.len(),
        ensures
            final(self).safe(),
            ({
                let outcome = fed(
                    old(self).deep_view(),
                    samples@,
                    first as int,
                    first as int,
                    end as int,
                );
                &&& final(self).deep_view() == outcome.session
                &&& final(actions).deep_view() == old(actions).deep_view() + outcome.actions
                &&& match r {
                    Some(error) => outcome.error == Some(error@),
                    None => outcome.error is None,
                }
            }),
    {
        let mut position: u64 = first;
        let ghost start = old(self).deep_view();
        let ghost whole = fed(start, samples@, first as int, first as int, end as int);
        let ghost before = actions.deep_view();
        while position < end
            invariant
                whole == fed(
                    old(self).deep_view(),
                    samples@,
                    first as int,
                    first as int,
                    end as int,
                ),
                before == old(actions).deep_view(),
                first <= position <= end,
                end - first == samples.len(),
                self.safe(),
                ({
                    let rest = fed(
                        self.deep_view(),
                        samples@,
                        first as int,
                        position as int,
                        end as int,
                    );
                    &&& whole.session == rest.session
                    &&& whole.error == rest.error
                    &&& before + whole.actions == actions.deep_view() + rest.actions
                }),
            decreases
                    end - position,
                    if is_full(self.deep_view()) {
                        1int
                    } else {
                        0
                    },
        {
            if position < self.next {
                position = if end < self.next { end } else { self.next };
                continue;
            }
            let ghost s0 = self.deep_view();
            self.open();
            let ghost o = self.deep_view();
            let early: bool = self.early();
            let goal: usize = if early { EARLY_SAMPLES } else { self.mode.input_samples() };
            let needed: usize = goal - self.pcm.len();
            let left: u64 = end - position;
            let take: usize = if (needed as u64) < left { needed } else { left as usize };
            let offset: usize = (position - first) as usize;
            let ghost rest0 = fed(s0, samples@, first as int, position as int, end as int);
            let ghost f = filled(o, samples@, first as int, position as int, end as int);
            let ghost taken = least(target(o) - o.pcm.len(), end - position);
            assert(taken == take);
            self.take_samples(samples, offset, take);
            assert(self.deep_view() =~= f);
            position = position + take as u64;
            if self.pcm.len() == goal {
                let utc: Option<u64> = match self.window_utc() {
                    Some(utc) => utc,
                    None => {
                        return Some("window UTC exceeds u64");
                    },
                };
                let window: Window = self.window(utc, !early);
                let ghost submission = ActionModel::Submit(submitted(f, utc));
                let ghost prior = actions.deep_view();
                push_action(actions, Action::Submit(window));
                assert(actions.deep_view() == prior.push(submission));
                if early {
                    self.early_submitted = true;
                    assert(self.deep_view() =~= SessionModel { early_submitted: true, ..f });
                } else {
                    self.close();
                    let period: u64 = self.mode.period_samples() as u64;
                    if self.next > u64::MAX - period {
                        assert(prior + seq![submission] =~= prior.push(submission));
                        return Some("sample boundary exceeds u64");
                    }
                    self.next = self.next + period;
                    assert(self.deep_view() =~= SessionModel {
                        next: (f.next + f.mode.period()) as u64,
                        ..closed(f)
                    });
                }
                proof {
                    let rest = fed(
                        self.deep_view(),
                        samples@,
                        first as int,
                        position as int,
                        end as int,
                    );
                    assert(rest0 == preceded(seq![submission], rest));
                    assert(prior + (seq![submission] + rest.actions) =~= prior.push(submission)
                        + rest.actions);
                }
            }
        }
        assert(actions.deep_view() + Seq::<ActionModel>::empty() =~= actions.deep_view());
        None
    }

    fn take_samples(&mut self, samples: &Vec<u32>, offset: usize, count: usize)
        requires
            offset + count <= samples.len(),
        ensures
            final(self).deep_view() == (SessionModel {
                pcm: old(self).pcm@ + samples@.subrange(offset as int, offset + count),
                ..old(self).deep_view()
            }),
            final(self).mode == old(self).mode,
            final(self).opened_settings == old(self).opened_settings,
    {
        let ghost before = self.pcm@;
        let mut i: usize = 0;
        while i < count
            invariant
                i <= count,
                offset + count <= samples.len(),
                self.pcm@ =~= before + samples@.subrange(offset as int, offset + i),
                self.mode == old(self).mode,
                self.live == old(self).live,
                self.utc == old(self).utc,
                self.next == old(self).next,
                self.expected == old(self).expected,
                self.settings == old(self).settings,
                self.opened_settings == old(self).opened_settings,
                self.epoch == old(self).epoch,
                self.early_submitted == old(self).early_submitted,
            decreases count - i,
        {
            self.pcm.push(samples[offset + i]);
            i = i + 1;
        }
    }

    /// Receives the samples of an audio command; tells what is wrong with it, if
    /// anything.
    pub fn audio(
        &mut self,
        v: &Json,
        payload: &[u8],
        float_pcm: bool,
        actions: &mut Vec<Action>,
    ) -> (r: Option<String>)
        requires
            old(self).safe(),
        ensures
            final(self).safe(),
            ({
                let outcome = heard(old(self).deep_view(), *v, payload@, float_pcm);
                &&& final(self).deep_view() == outcome.session
                &&& final(actions).deep_view() == old(actions).deep_view() + outcome.actions
                &&& r.deep_view() == outcome.error
            }),
    {
        let ghost before = actions.deep_view();
        assert(before + Seq::<ActionModel>::empty() =~= before);
        match fields(v, &AUDIO_NAMES) {
            Ok(_) => {},
            Err(error) => {
                return Some(error);
            },
        }
        let first: u64 = match decimal(v, "first_sample") {
            Ok(first) => first,
            Err(error) => {
                return Some(error);
            },
        };
        let count: u64 = match v.unsigned("sample_count") {
            Some(count) => count,
            None => {
                return Some("sample_count must be an integer".to_owned());
            },
        };
        let size: u64 = if float_pcm { 4 } else { 2 };
        if count == 0 || count > 12000 || count * size != payload.len() as u64 {
            return Some("sample_count must match 1..12000 PCM samples".to_owned());
        }
        let samples: Vec<u32> = read_samples(payload, count as usize, float_pcm);
        if float_pcm && !all_bounded(&samples) {
            return Some(
                "converted audio must contain finite bounded PCM-scale samples".to_owned(),
            );
        }
        if first > u64::MAX - count {
            return Some("audio sample range exceeds u64".to_owned());
        }
        if first < self.expected {
            return Some("audio overlaps or precedes previously received samples".to_owned());
        }
        let ghost gap = gapped(self.deep_view(), first);
        match self.gap(first, actions) {
            Some(error) => {
                return Some(error.to_owned());
            },
            None => {},
        }
        let end: u64 = first + count;
        self.expected = end;
        let ghost s1 = SessionModel { expected: end, ..gap.session };
        assert(self.deep_view() =~= s1);
        let ghost middle = actions.deep_view();
        let result: Option<&'static str> = self.feed(&samples, first, end, actions);
        proof {
            let rest = fed(s1, samples@, first as int, first as int, end as int);
            assert(middle == before + gap.actions);
            assert(middle + rest.actions =~= before + (gap.actions + rest.actions));
        }
        match result {
            Some(error) => Some(error.to_owned()),
            None => None,
        }
    }

    /// Accounts for samples missing before `first`.
    fn gap(&mut self, first: u64, actions: &mut Vec<Action>) -> (r: Option<&'static str>)
        requires
            old(self).safe(),
        ensures
            final(self).safe(),
            ({
                let outcome = gapped(old(self).deep_view(), first);
                &&& final(self).deep_view() == outcome.session
                &&& final(actions).deep_view() == old(actions).deep_view() + outcome.actions
                &&& match r {
                    Some(error) => outcome.error == Some(error@),
                    None => outcome.error is None,
                }
            }),
    {
        let ghost s = self.deep_view();
        let ghost before = actions.deep_view();
        if first <= self.expected {
            assert(before + Seq::<ActionModel>::empty() =~= before);
            return None;
        }
        if first <= self.next {
            push_action(actions, Action::Gap { first: self.expected, end: first });
            assert(actions.deep_view() =~= before + gapped(s, first).actions);
            return None;
        }
        push_action(actions, Action::Cancel(self.epoch));
        push_action(actions, Action::Gap { first: self.expected, end: first });
        if self.opened_settings.is_some() {
            push_action(
                actions,
                Action::Done { start: self.next, status: Status::Skipped, reason: "input gap" },
            );
        }
        assert(actions.deep_view() =~= before + gapped(s, first).actions);
        self.close();
        let period: u128 = self.mode.period_samples() as u128;
        let ahead: u128 = (first - self.next) as u128;
        proof {
            let x = (ahead + period - 1) as int;
            let p = period as int;
            assert(0 <= x / p * p <= x) by (nonlinear_arith)
                requires
                    0 <= x,
                    p > 0,
            ;
        }
        let boundary: u128 = self.next as u128 + (ahead + period - 1) / period * period;
        if boundary > u64::MAX as u128 {
            assert(self.deep_view() =~= gapped(s, first).session);
            return Some("sample boundary exceeds u64");
        }
        self.next = boundary as u64;
        assert(self.deep_view() =~= gapped(s, first).session);
        None
    }
}

fn read_samples(payload: &[u8], count: usize, float_pcm: bool) -> (r: Vec<u32>)
    requires
        count <= 12000,
        count * sample_size(float_pcm) == payload@.len(),
    ensures
        r@ == samples_of(payload@, count as nat, float_pcm),
{
    let mut out: Vec<u32> = Vec::new();
    let mut i: usize = 0;
    while i < count
        invariant
            i <= count,
            count <= 12000,
            count * sample_size(float_pcm) == payload@.len(),
            out@ =~= samples_of(payload@, i as nat, float_pcm),
        decreases count - i,
    {
        if float_pcm {
            let at: usize = 4 * i;
            let word: u32 = payload[at] as u32 + payload[at + 1] as u32 * 0x100 + payload[at
                + 2] as u32 * 0x1_0000 + payload[at + 3] as u32 * 0x100_0000;
            out.push(word);
        } else {
            let at: usize = 2 * i;
            let word: u32 = payload[at] as u32 + payload[at + 1] as u32 * 0x100;
            out.push(word);
        }
        i = i + 1;
    }
    out
}

fn all_bounded(samples: &Vec<u32>) -> (r: bool)
    ensures
        r == forall|i: int| 0 <= i < samples@.len() ==> is_bounded(#[trigger] samples@[i]),
{
    let mut i: usize = 0;
    while i < samples.len()
        invariant
            i <= samples.len(),
            forall|k: int| 0 <= k < i ==> is_bounded(#[trigger] samples@[k]),
        decreases samples.len() - i,
    {
        if !is_finite(samples[i]) || samples[i] % 0x8000_0000 > FILTERED_SCALE {
            assert(!is_bounded(samples@[i as int]));
            return false;
        }
        i = i + 1;
    }
    true
}

} // verus!
