//! What the windows of a stream are.
use vstd::prelude::*;
use crate::engine::{Mode, SettingsModel};
use crate::ingress::gives_way;
use crate::session::{
    closed, fed, filled, gapped, is_early, is_safe, least, preceded, samples_of,
    samples_to_boundary, submitted, target, window_time, with_window, ActionModel, SessionModel,
    Status, WindowModel,
};

verus! {

// ---------------------------------------------------------------------------
// Slots and times
// ---------------------------------------------------------------------------

/// Nanoseconds of a slot: 15 s for FT8, 7.5 s for FT4.
pub open spec fn slot_ns(mode: Mode) -> int {
    match mode {
        Mode::Ft8 => 15_000_000_000,
        Mode::Ft4 => 7_500_000_000,
    }
}

/// Samples of a slot at 12 kHz.
pub open spec fn slot_samples(mode: Mode) -> int {
    match mode {
        Mode::Ft8 => 180_000,
        Mode::Ft4 => 90_000,
    }
}

/// Samples of a complete window.
pub open spec fn whole_window(mode: Mode) -> int {
    match mode {
        Mode::Ft8 => 180_000,
        Mode::Ft4 => 72_576,
    }
}

/// The time `u` is that of sample number `start`, to the nanosecond below, where sample
/// zero was taken at time `t`: a sample takes 10^9 / 12000 ns.
pub open spec fn is_time_of(t: int, start: int, u: int) -> bool {
    u * 12_000 <= t * 12_000 + start * 1_000_000_000 < (u + 1) * 12_000
}

/// The first window of a stream that starts at a known time starts at the first sample at or
/// behind a slot boundary, less than one slot away.
pub proof fn streams_start_at_a_boundary(mode: Mode, utc: u64)
    ensures
        exists|k: int|
            utc <= #[trigger] (k * slot_ns(mode)) < utc + slot_ns(mode) && k * slot_ns(mode) * 12_000
                <= utc * 12_000 + samples_to_boundary(mode, utc) * 1_000_000_000 < k * slot_ns(mode)
                * 12_000 + 1_000_000_000,
        samples_to_boundary(mode, utc) <= slot_samples(mode),
{
    let p = slot_ns(mode);
    assert(crate::session::period_ns(mode) == p);
    let u = utc as int;
    let q = u / p;
    let r = u % p;
    assert(u == q * p + r) by {
        vstd::arithmetic::div_mod::lemma_fundamental_div_mod(u, p);
        assert(p * q == q * p) by (nonlinear_arith);
    }
    let n = samples_to_boundary(mode, utc) as int;
    let k = if r == 0 {
        q
    } else {
        q + 1
    };
    assert((q + 1) * p == q * p + p) by (nonlinear_arith);
    let delta = k * p - u;
    assert(0 <= delta < p);
    assert(n == (delta * 12000 + 999_999_999) / 1_000_000_000);
    assert(delta * 12000 <= n * 1_000_000_000 < delta * 12000 + 1_000_000_000);
    assert(utc <= (k * slot_ns(mode)) < utc + slot_ns(mode));
}

// ---------------------------------------------------------------------------
// Windows
// ---------------------------------------------------------------------------

/// Samples were received up to `position`: an open window has all of them from its start on
/// and is not complete, and without one the next starts no earlier.
pub open spec fn is_in_step(s: SessionModel, position: int) -> bool {
    &&& is_safe(s)
    &&& s.opened is Some ==> s.next + s.pcm.len() == position && s.pcm.len() < target(s)
    &&& s.opened is None ==> position <= s.next
}

/// Sample number `k` of a session and the samples that follow it from number `first` on.
pub open spec fn sample_number(
    s: SessionModel,
    samples: Seq<u32>,
    first: int,
    position: int,
    k: int,
) -> u32 {
    if k < position {
        s.pcm[k - s.next]
    } else {
        samples[k - first]
    }
}

/// What a window is made of.
pub open spec fn is_fair_window(
    s: SessionModel,
    samples: Seq<u32>,
    first: int,
    position: int,
    end: int,
    w: WindowModel,
) -> bool {
    let size = if w.final_pass {
        whole_window(s.mode)
    } else {
        162_432
    };
    &&& w.mode == s.mode
    &&& w.start >= s.next
    &&& (w.start - s.next) % slot_samples(s.mode) == 0
    &&& w.start + size <= end
    &&& w.pcm.len() == size
    &&& forall|i: int|
        0 <= i < size ==> #[trigger] w.pcm[i] == sample_number(
            s,
            samples,
            first,
            position,
            w.start + i,
        )
    &&& w.skipped.len() == 0
    &&& w.start == s.next ==> w.epoch == s.epoch
    &&& w.start == s.next && s.early_submitted ==> w.final_pass
    &&& !w.final_pass ==> s.live && s.mode == Mode::Ft8 && w.settings.depth >= 2
    &&& match s.utc {
        None => w.utc is None,
        Some(t) => w.utc matches Some(u) && is_time_of(t as int, w.start as int, u as int),
    }
}

proof fn lemma_window_time(s: SessionModel)
    ensures
        match (s.utc, window_time(s)) {
            (None, Some(utc)) => utc is None,
            (Some(t), Some(Some(u))) => is_time_of(t as int, s.next as int, u as int),
            (Some(t), None) => t * 12_000 + s.next * 1_000_000_000 >= (u64::MAX + 1) * 12_000,
            _ => false,
        },
{
}

/// The windows that start at `start` and end a slot are among the actions.
pub open spec fn has_window(actions: Seq<ActionModel>, start: int) -> bool {
    exists|i: int|
        0 <= i < actions.len() && ((#[trigger] actions[i]) matches ActionModel::Submit(w) && w.start
            == start && w.final_pass)
}

proof fn lemma_has_window_behind(first: ActionModel, rest: Seq<ActionModel>, start: int)
    requires
        has_window(rest, start),
    ensures
        has_window(seq![first] + rest, start),
{
    let i = choose|i: int|
        0 <= i < rest.len() && ((#[trigger] rest[i]) matches ActionModel::Submit(w) && w.start
            == start && w.final_pass);
    assert((seq![first] + rest)[i + 1] == rest[i]);
}

/// Windows come in order: each starts at or behind the one before it, and behind it where
/// that one was final.
pub open spec fn are_in_order(actions: Seq<ActionModel>) -> bool {
    forall|i: int, j: int|
        0 <= i < j < actions.len() ==> ((#[trigger] actions[i]) matches ActionModel::Submit(a) ==> ((
        #[trigger] actions[j]) matches ActionModel::Submit(b) ==> a.start <= b.start && (a.start
            == b.start ==> !a.final_pass && b.final_pass)))
}

/// What all windows of a feeding have in common.
pub open spec fn is_fair_feeding(
    s: SessionModel,
    samples: Seq<u32>,
    first: int,
    position: int,
    end: int,
) -> bool {
    let outcome = fed(s, samples, first, position, end);
    &&& forall|i: int|
        0 <= i < outcome.actions.len() ==> (#[trigger] outcome.actions[i]) is Submit
            && is_fair_window(
            s,
            samples,
            first,
            position,
            end,
            (outcome.actions[i])->Submit_0,
        )
    &&& are_in_order(outcome.actions)
    &&& outcome.error is None ==> is_in_step(outcome.session, end)
    &&& outcome.error is None ==> forall|k: int|
        0 <= k && s.next + k * slot_samples(s.mode) + whole_window(s.mode) <= end
            ==> #[trigger] has_window(outcome.actions, s.next + k * slot_samples(s.mode))
    &&& outcome.session.mode == s.mode
    &&& outcome.session.utc == s.utc
}

proof fn lemma_steps(p: int, k: int)
    ensures
        (k + 1) * p == k * p + p,
        0 * p == 0,
        p > 0 ==> (k * p) % p == 0,
        p > 0 && k >= 1 ==> k * p >= p,
{
    assert((k + 1) * p == k * p + p) by (nonlinear_arith);
    if p > 0 {
        vstd::arithmetic::div_mod::lemma_mod_multiples_basic(k, p);
        assert(k >= 1 ==> k * p >= p) by (nonlinear_arith)
            requires
                p > 0,
        ;
    }
}

/// Feeding the rest from another session gives windows that are fair to this one.
proof fn lemma_fair_window_before(
    s: SessionModel,
    g: SessionModel,
    samples: Seq<u32>,
    first: int,
    position: int,
    p: int,
    end: int,
    w: WindowModel,
)
    requires
        is_fair_window(g, samples, first, p, end, w),
        g.mode == s.mode,
        g.live == s.live,
        g.utc == s.utc,
        g.next == s.next || g.next == s.next + slot_samples(s.mode),
        g.next == s.next ==> g.epoch == s.epoch && (s.early_submitted ==> g.early_submitted),
        forall|k: int|
            g.next <= k < end ==> #[trigger] sample_number(g, samples, first, p, k)
                == sample_number(s, samples, first, position, k),
    ensures
        is_fair_window(s, samples, first, position, end, w),
{
    let slot = slot_samples(s.mode);
    let d = w.start - g.next;
    if g.next != s.next {
        vstd::arithmetic::div_mod::lemma_mod_add_multiples_vanish(d, slot);
        assert((w.start - s.next) == slot + d);
    }
    let size = if w.final_pass {
        whole_window(s.mode)
    } else {
        162_432
    };
    assert forall|i: int| 0 <= i < size implies #[trigger] w.pcm[i] == sample_number(
        s,
        samples,
        first,
        position,
        w.start + i,
    ) by {
        assert(w.pcm[i] == sample_number(g, samples, first, p, w.start + i));
    }
}

/// Every window that a feeding submits is fair: it starts a whole number of slots behind the
/// first, holds exactly the samples from its start on, all of them where it is final and the
/// first 162432 where it is an early attempt of a live FT8 stream at depth two or three, and
/// carries the time of its first sample. Windows come in order, and every slot whose window
/// is complete gets its final one.
pub proof fn feedings_are_fair(
    s: SessionModel,
    samples: Seq<u32>,
    first: int,
    position: int,
    end: int,
)
    requires
        is_in_step(s, position),
        0 <= first <= position <= end,
        end - first == samples.len(),
    ensures
        is_fair_feeding(s, samples, first, position, end),
    decreases end - position, 1int,
{
    let slot = slot_samples(s.mode);
    let size = whole_window(s.mode);
    let outcome = fed(s, samples, first, position, end);
    assert(s.mode.period() == slot && s.mode.window() == size);
    if position >= end {
        assert forall|k: int| 0 <= k && s.next + k * slot + size <= end implies #[trigger] has_window(
            outcome.actions,
            s.next + k * slot,
        ) by {
            lemma_steps(slot, k);
        }
    } else if position < s.next {
        let p = least(end, s.next as int);
        feedings_are_fair(s, samples, first, p, end);
        assert forall|i: int| 0 <= i < outcome.actions.len() implies (
        #[trigger] outcome.actions[i]) is Submit && is_fair_window(
            s,
            samples,
            first,
            position,
            end,
            (outcome.actions[i])->Submit_0,
        ) by {
            lemma_fair_window_before(
                s,
                s,
                samples,
                first,
                position,
                p,
                end,
                (outcome.actions[i])->Submit_0,
            );
        }
    } else {
        let o = with_window(s);
        let f = filled(o, samples, first, position, end);
        let taken = least(target(o) - o.pcm.len(), end - position);
        let p = position + taken;
        assert(f.pcm.len() == o.pcm.len() + taken);
        assert forall|k: int| f.next <= k < end implies #[trigger] sample_number(
            f,
            samples,
            first,
            p,
            k,
        ) == sample_number(s, samples, first, position, k) by {
            if k < p {
                assert(f.pcm[k - f.next] == sample_number(s, samples, first, position, k));
            }
        }
        if f.pcm.len() < target(o) {
            feedings_are_fair(f, samples, first, p, end);
            let rest = fed(f, samples, first, p, end);
            assert(outcome == rest);
            assert forall|i: int| 0 <= i < outcome.actions.len() implies (
            #[trigger] outcome.actions[i]) is Submit && is_fair_window(
                s,
                samples,
                first,
                position,
                end,
                (outcome.actions[i])->Submit_0,
            ) by {
                lemma_fair_window_before(
                    s,
                    f,
                    samples,
                    first,
                    position,
                    p,
                    end,
                    (rest.actions[i])->Submit_0,
                );
            }
        } else {
            lemma_window_time(f);
            match window_time(f) {
                None => {},
                Some(utc) => {
                    lemma_submission(s, f, samples, first, position, p, end, utc);
                },
            }
        }
    }
}

/// The window that is submitted next, and those behind it.
proof fn lemma_submission(
    s: SessionModel,
    f: SessionModel,
    samples: Seq<u32>,
    first: int,
    position: int,
    p: int,
    end: int,
    utc: Option<u64>,
)
    requires
        is_in_step(s, position),
        0 <= first <= position < end,
        s.next <= position,
        end - first == samples.len(),
        f == filled(with_window(s), samples, first, position, end),
        p == position + least(target(with_window(s)) - s.pcm.len(), end - position),
        f.pcm.len() == target(with_window(s)),
        window_time(f) == Some(utc),
        forall|k: int|
            f.next <= k < end ==> #[trigger] sample_number(f, samples, first, p, k)
                == sample_number(s, samples, first, position, k),
    ensures
        is_fair_feeding(s, samples, first, position, end),
    decreases end - position, 0int,
{
    let slot = slot_samples(s.mode);
    let size = whole_window(s.mode);
    let outcome = fed(s, samples, first, position, end);
    let w = submitted(f, utc);
    let action = ActionModel::Submit(w);
    lemma_window_time(f);
    lemma_steps(slot, 0);
    assert(s.mode.period() == slot && s.mode.window() == size);
    assert(p == s.next + f.pcm.len());
    assert(is_fair_window(s, samples, first, position, end, w)) by {
        assert forall|i: int| 0 <= i < w.pcm.len() implies #[trigger] w.pcm[i] == sample_number(
            s,
            samples,
            first,
            position,
            w.start + i,
        ) by {
            assert(w.pcm[i] == sample_number(f, samples, first, p, w.start + i));
        }
    }
    if !is_early(f) && f.next + f.mode.period() > u64::MAX {
        assert(outcome.actions =~= seq![action]);
    } else {
        let g = if is_early(f) {
            SessionModel { early_submitted: true, ..f }
        } else {
            SessionModel { next: (f.next + f.mode.period()) as u64, ..closed(f) }
        };
        assert(p > position);
        feedings_are_fair(g, samples, first, p, end);
        let rest = fed(g, samples, first, p, end);
        assert(outcome == preceded(seq![action], rest));
        assert(outcome.actions =~= seq![action] + rest.actions);
        assert forall|k: int| g.next <= k < end implies #[trigger] sample_number(
            g,
            samples,
            first,
            p,
            k,
        ) == sample_number(s, samples, first, position, k) by {
            assert(sample_number(g, samples, first, p, k) == sample_number(f, samples, first, p, k));
        }
        assert forall|i: int| 0 <= i < outcome.actions.len() implies (
        #[trigger] outcome.actions[i]) is Submit && is_fair_window(
            s,
            samples,
            first,
            position,
            end,
            (outcome.actions[i])->Submit_0,
        ) by {
            if i > 0 {
                assert(outcome.actions[i] == rest.actions[i - 1]);
                lemma_fair_window_before(
                    s,
                    g,
                    samples,
                    first,
                    position,
                    p,
                    end,
                    (rest.actions[i - 1])->Submit_0,
                );
            }
        }
        assert(are_in_order(outcome.actions)) by {
            assert forall|i: int, j: int| 0 <= i < j < outcome.actions.len() implies ((
            #[trigger] outcome.actions[i]) matches ActionModel::Submit(a) ==> ((
            #[trigger] outcome.actions[j]) matches ActionModel::Submit(b) ==> a.start <= b.start
                && (a.start == b.start ==> !a.final_pass && b.final_pass))) by {
                assert(outcome.actions[j] == rest.actions[j - 1]);
                if i > 0 {
                    assert(outcome.actions[i] == rest.actions[i - 1]);
                } else {
                    assert(is_fair_window(
                        g,
                        samples,
                        first,
                        p,
                        end,
                        (rest.actions[j - 1])->Submit_0,
                    ));
                }
            }
        }
        if outcome.error is None {
            assert forall|k: int| 0 <= k && s.next + k * slot + size <= end implies #[trigger] has_window(
                outcome.actions,
                s.next + k * slot,
            ) by {
                lemma_steps(slot, k);
                lemma_steps(slot, k - 1);
                if is_early(f) {
                    assert(has_window(rest.actions, g.next + k * slot));
                    lemma_has_window_behind(action, rest.actions, s.next + k * slot);
                } else if k == 0 {
                    assert(outcome.actions[0] == action);
                } else {
                    assert(has_window(rest.actions, g.next + (k - 1) * slot));
                    lemma_has_window_behind(action, rest.actions, s.next + k * slot);
                }
            }
        }
    }
}

/// A gap moves on to the first boundary of the stream at or behind it, and the window that
/// was open ends as skipped; samples that were only waited for are no reason to move. Either
/// way the session is in step with the first sample behind the gap.
pub proof fn gaps_move_to_the_next_boundary(s: SessionModel, first: u64)
    requires
        is_in_step(s, s.expected as int),
        first >= s.expected,
    ensures
        ({
            let g = gapped(s, first);
            let slot = slot_samples(s.mode);
            &&& g.error is None ==> {
                &&& is_in_step(g.session, first as int)
                &&& (g.session.next - s.next) % slot == 0
                &&& g.session.next >= s.next
                &&& g.session.next != s.next ==> first <= g.session.next < first + slot
                &&& g.session.next == s.next <==> first <= s.next || first == s.expected
                &&& g.session.mode == s.mode && g.session.utc == s.utc && g.session.settings
                    == s.settings && g.session.live == s.live
            }
            &&& first == s.expected ==> g.actions.len() == 0 && g.session == s
            &&& first > s.expected ==> g.actions.contains(
                ActionModel::Gap { first: s.expected, end: first },
            )
            &&& g.error is None && first > s.expected && s.opened is Some ==> g.actions.contains(
                ActionModel::Done { start: s.next, status: Status::Skipped, reason: "input gap"@ },
            ) && g.actions.contains(ActionModel::Cancel(s.epoch))
            &&& s.opened is None ==> forall|i: int|
                0 <= i < g.actions.len() ==> !((#[trigger] g.actions[i]) is Done)
        }),
{
    let g = gapped(s, first);
    let slot = slot_samples(s.mode);
    assert(s.mode.period() == slot);
    let gap = ActionModel::Gap { first: s.expected, end: first };
    lemma_steps(slot, 0);
    if first > s.expected {
        if first <= s.next {
            assert(g.actions[0] == gap);
        } else {
            assert(g.actions[1] == gap);
            assert(g.actions[0] == ActionModel::Cancel(s.epoch));
            let n = (first - s.next + slot - 1) / slot;
            assert(n * slot >= first - s.next && n * slot < first - s.next + slot) by {
                vstd::arithmetic::div_mod::lemma_fundamental_div_mod(
                    first - s.next + slot - 1,
                    slot,
                );
                assert(slot * n == n * slot) by (nonlinear_arith);
            }
            lemma_steps(slot, n);
            if s.opened is Some {
                assert(g.actions[2] == (ActionModel::Done {
                    start: s.next,
                    status: Status::Skipped,
                    reason: "input gap"@,
                }));
            }
        }
    }
}

/// Audio is taken in without loss: sample `i` of a block is made of its own bytes, low byte
/// first, two of them or four.
pub proof fn samples_are_their_bytes(payload: Seq<u8>, count: nat, float_pcm: bool, i: int)
    requires
        0 <= i < count,
        payload.len() == count * (if float_pcm {
            4int
        } else {
            2
        }),
    ensures
        samples_of(payload, count, float_pcm).len() == count,
        ({
            let word = samples_of(payload, count, float_pcm)[i];
            if float_pcm {
                &&& word % 0x100 == payload[4 * i]
                &&& word / 0x100 % 0x100 == payload[4 * i + 1]
                &&& word / 0x1_0000 % 0x100 == payload[4 * i + 2]
                &&& word / 0x100_0000 == payload[4 * i + 3]
            } else {
                &&& word % 0x100 == payload[2 * i]
                &&& word / 0x100 == payload[2 * i + 1]
            }
        }),
{
}

// ---------------------------------------------------------------------------
// Early attempts
// ---------------------------------------------------------------------------

/// The settings under which the current window is decoded.
pub open spec fn settings_in_force(s: SessionModel) -> SettingsModel {
    match s.opened {
        Some(settings) => settings,
        None => s.settings,
    }
}

/// In a live FT8 stream a window at depth two or three is first tried once 162432 samples of
/// it are there, under the settings in force when it was opened, unless its time cannot be
/// told.
pub proof fn early_attempts_come_first(
    s: SessionModel,
    samples: Seq<u32>,
    first: int,
    position: int,
    end: int,
)
    requires
        is_in_step(s, position),
        0 <= first <= position <= end,
        end - first == samples.len(),
        s.live,
        s.mode == Mode::Ft8,
        !s.early_submitted,
        settings_in_force(s).depth >= 2,
        s.next + 162_432 <= end,
    ensures
        ({
            let outcome = fed(s, samples, first, position, end);
            ||| outcome.error is Some && s.utc is Some && s.utc->0 * 12_000 + s.next * 1_000_000_000
                >= (u64::MAX + 1) * 12_000
            ||| {
                &&& outcome.actions.len() > 0
                &&& outcome.actions[0] is Submit
                &&& !outcome.actions[0]->Submit_0.final_pass
                &&& outcome.actions[0]->Submit_0.start == s.next
                &&& outcome.actions[0]->Submit_0.settings == settings_in_force(s)
            }
        }),
{
    if position < s.next {
        assert(least(end, s.next as int) == s.next);
        assert(fed(s, samples, first, position, end) == fed(
            s,
            samples,
            first,
            s.next as int,
            end,
        ));
        lemma_early(s, samples, first, s.next as int, end);
    } else {
        lemma_early(s, samples, first, position, end);
    }
}

proof fn lemma_early(s: SessionModel, samples: Seq<u32>, first: int, position: int, end: int)
    requires
        is_in_step(s, position),
        s.next <= position,
        0 <= first <= position <= end,
        end - first == samples.len(),
        s.live,
        s.mode == Mode::Ft8,
        !s.early_submitted,
        settings_in_force(s).depth >= 2,
        s.next + 162_432 <= end,
    ensures
        ({
            let outcome = fed(s, samples, first, position, end);
            ||| outcome.error is Some && s.utc is Some && s.utc->0 * 12_000 + s.next * 1_000_000_000
                >= (u64::MAX + 1) * 12_000
            ||| {
                &&& outcome.actions.len() > 0
                &&& outcome.actions[0] is Submit
                &&& !outcome.actions[0]->Submit_0.final_pass
                &&& outcome.actions[0]->Submit_0.start == s.next
                &&& outcome.actions[0]->Submit_0.settings == settings_in_force(s)
            }
        }),
{
    let o = with_window(s);
    let f = filled(o, samples, first, position, end);
    assert(o.opened == Some(settings_in_force(s)));
    assert(target(o) == 162_432);
    assert(position == s.next + s.pcm.len());
    assert(least(target(o) - o.pcm.len(), end - position) == target(o) - o.pcm.len());
    assert(f.pcm.len() == target(o));
    lemma_window_time(f);
}

/// A waiting window gives way to a newer one while fewer than 16 ranges were skipped before
/// it, and then only where it continues the last of them.
pub proof fn waiting_windows_give_way(w: WindowModel, mode: Mode)
    ensures
        w.skipped.len() < 16 ==> gives_way(w, mode),
        w.skipped.len() >= 16 ==> (gives_way(w, mode) <==> w.skipped.last().1 + slot_samples(mode)
            == w.start),
{
}

} // verus!
