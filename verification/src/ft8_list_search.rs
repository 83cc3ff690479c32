//! The list decoding of a window, as a machine that tells what to do next: stations that
//! were heard before are tried in turn, then the contact that the settings describe.
//! Signal processing is done outside.
use vstd::prelude::*;
use crate::assistance::{Activity, ApMode};
use crate::downsample::{is_allowed, validate_input, RESIDUAL_BOUND};
use crate::engine::{DecodeSettings, DecodedSignal};
use crate::ft8_list::{
    entry_of, is_bounded, is_described, list_remembered, parity, slot_begun, Ft8ListDecoder,
    Heard, HeardModel, ListModel,
};
use crate::quantities::{HZ_2_5, HZ_5, HZ_6000};
use crate::search::in_band;
use crate::single::{
    at_most, finite, from_zero_to, in_widened, is_at_most, is_finite, is_from_zero_to,
    is_in_widened, is_less, is_within, is_zero, less, within, zero,
};

verus! {

/// Samples of a residual.
pub const RESIDUAL_SAMPLES: usize = 180_000;

/// What is to be done next.
#[derive(Clone, Copy, Debug, PartialEq, Eq, Structural)]
pub enum Task {
    /// Nothing yet.
    Begin,
    /// Prepare the residual.
    Prepare,
    /// Try the entry of this number that was heard before.
    Recall(usize),
    /// Try the contact that the settings describe.
    Contact,
    /// All is done.
    Finish,
}

// ---------------------------------------------------------------------------
// The residual
// ---------------------------------------------------------------------------

/// The number of samples is right, and all are finite and bounded.
pub open spec fn is_residual(pcm: Seq<u32>) -> bool {
    pcm.len() == RESIDUAL_SAMPLES && forall|i: int|
        0 <= i < pcm.len() ==> is_allowed(#[trigger] pcm[i], RESIDUAL_BOUND)
}

pub open spec fn is_silent(pcm: Seq<u32>) -> bool {
    forall|i: int| 0 <= i < pcm.len() ==> zero(#[trigger] pcm[i])
}

/// Checks a residual, given as bit patterns, and tells whether it is silent.
pub fn check_residual(pcm: &[u32]) -> (r: Result<bool, String>)
    ensures
        match r {
            Ok(silent) => is_residual(pcm@) && silent == is_silent(pcm@),
            Err(error) => !is_residual(pcm@) && error@
                == "FT8 list decoding requires 180000 finite residual samples"@,
        },
{
    match validate_input(pcm, RESIDUAL_SAMPLES, RESIDUAL_BOUND) {
        Ok(_) => {},
        Err(_) => {
            return Err("FT8 list decoding requires 180000 finite residual samples".to_owned());
        },
    }
    let mut i: usize = 0;
    while i < pcm.len()
        invariant
            i <= pcm@.len(),
            is_residual(pcm@),
            forall|k: int| 0 <= k < i ==> zero(#[trigger] pcm@[k]),
        decreases pcm@.len() - i,
    {
        if !is_zero(pcm[i]) {
            assert(!zero(pcm@[i as int]));
            return Ok(false);
        }
        i = i + 1;
    }
    Ok(true)
}

// ---------------------------------------------------------------------------
// The schedule
// ---------------------------------------------------------------------------

/// The entries that were heard before in the current slot's parity.
pub open spec fn earlier(list: ListModel) -> Seq<HeardModel> {
    match list.slot {
        Some(slot) => parity(list, slot).previous,
        None => Seq::empty(),
    }
}

/// The other station was already heard in this slot, as either call.
pub open spec fn is_heard(list: ListModel, call: Seq<char>) -> bool {
    list.slot matches Some(slot) && exists|i: int|
        0 <= i < parity(list, slot).current.len() && ((#[trigger] parity(
            list,
            slot,
        ).current[i]).call2 == call || parity(list, slot).current[i].call1 == call)
}

/// There is anything to do: assistance from all context is asked for, the activity allows
/// it, and there is an earlier entry or a described contact.
pub open spec fn is_worth_it(list: ListModel, settings: DecodeSettings) -> bool {
    &&& settings.assistance_in_force() == ApMode::Auto
    &&& settings.ap.activity != Activity::Fox && settings.ap.activity != Activity::Hound
    &&& (exists|i: int| 0 <= i < earlier(list).len() && (#[trigger] earlier(list)[i]).available)
        || is_described(settings)
}

/// An entry is tried while it is available and at most 2.5 Hz outside the band.
pub open spec fn is_due(entry: HeardModel, settings: DecodeSettings) -> bool {
    &&& entry.available
    &&& from_zero_to(entry.frequency, HZ_6000)
    &&& in_widened(settings.low_hz, settings.high_hz, HZ_2_5, entry.frequency)
}

/// The number of the first due entry from `from` on, or the length without one.
pub open spec fn next_due(entries: Seq<HeardModel>, settings: DecodeSettings, from: int) -> int
    decreases entries.len() - from,
{
    if from >= entries.len() || is_due(entries[from], settings) {
        from
    } else {
        next_due(entries, settings, from + 1)
    }
}

/// The contact is tried if it is described, was not heard in this slot and is at most 5 Hz
/// outside the band.
pub open spec fn is_contact_due(list: ListModel, settings: DecodeSettings) -> bool {
    &&& is_described(settings)
    &&& !is_heard(list, settings.ap.dx_call->0@)
    &&& in_widened(settings.low_hz, settings.high_hz, HZ_5, settings.priority_hz->0)
}

/// The next task from entry `from` on. A search that is cancelled ends.
pub open spec fn task_from(
    list: ListModel,
    settings: DecodeSettings,
    cancel: bool,
    from: int,
) -> Task {
    let next = next_due(earlier(list), settings, from);
    if cancel {
        Task::Finish
    } else if next < earlier(list).len() {
        Task::Recall(next as usize)
    } else if is_contact_due(list, settings) {
        Task::Contact
    } else {
        Task::Finish
    }
}

/// The history with what a task has found.
pub open spec fn list_after(
    list: ListModel,
    task: Task,
    found: Option<&DecodedSignal>,
) -> ListModel {
    match (task, found) {
        (Task::Recall(_), Some(signal)) | (Task::Contact, Some(signal)) => list_remembered(
            list,
            signal.message.text@,
            signal.frequency_hz,
            signal.dt_seconds,
        ),
        _ => list,
    }
}

/// The task that follows, given the history with what the last one has found: nothing
/// without anything to do or in silence, then each earlier entry, then the contact.
pub open spec fn task_after(
    task: Task,
    list: ListModel,
    settings: DecodeSettings,
    silent: bool,
    cancel: bool,
) -> Task {
    match task {
        Task::Begin => if !is_worth_it(list, settings) || cancel || silent {
            Task::Finish
        } else {
            Task::Prepare
        },
        Task::Prepare => task_from(list, settings, cancel, 0),
        Task::Recall(i) => task_from(list, settings, cancel, i + 1),
        _ => Task::Finish,
    }
}

/// The task speaks of an entry.
pub open spec fn is_task(task: Task, list: ListModel) -> bool {
    task matches Task::Recall(i) ==> i < earlier(list).len()
}

// ---------------------------------------------------------------------------
// The machine
// ---------------------------------------------------------------------------

fn entry_is_due(entry: &Heard, settings: &DecodeSettings) -> (r: bool)
    requires
        settings.complaint() is None,
    ensures
        r == is_due(entry.deep_view(), *settings),
{
    entry.available && is_from_zero_to(entry.frequency, HZ_6000) && is_in_widened(
        settings.low_hz,
        settings.high_hz,
        HZ_2_5,
        entry.frequency,
    )
}

fn find_due(list: &Ft8ListDecoder, settings: &DecodeSettings, from: usize) -> (r: Option<usize>)
    requires
        settings.complaint() is None,
    ensures
        ({
            let entries = earlier(list.deep_view());
            let next = next_due(entries, *settings, from as int);
            match r {
                Some(i) => i == next && next < entries.len(),
                None => next >= entries.len(),
            }
        }),
{
    let ghost entries = earlier(list.deep_view());
    match list.previous() {
        None => None,
        Some(all) => {
            let mut i: usize = from;
            while i < all.len()
                invariant
                    from <= i,
                    i <= all.len() || i == from,
                    all.deep_view() == entries,
                    entries == earlier(list.deep_view()),
                    settings.complaint() is None,
                    next_due(entries, *settings, from as int) == next_due(
                        entries,
                        *settings,
                        i as int,
                    ),
                decreases all.len() - i,
            {
                assert(entries[i as int] == all@[i as int].deep_view());
                if entry_is_due(&all[i], settings) {
                    return Some(i);
                }
                i = i + 1;
            }
            None
        },
    }
}

fn contact_is_due(list: &Ft8ListDecoder, settings: &DecodeSettings) -> (r: bool)
    requires
        settings.complaint() is None,
    ensures
        r == is_contact_due(list.deep_view(), *settings),
{
    if settings.ap.my_call.is_none() || settings.ap.dx_grid.is_none() {
        return false;
    }
    match (settings.priority_hz, &settings.ap.dx_call) {
        (Some(hz), Some(call)) => !list.heard_already(call.as_str()) && is_in_widened(
            settings.low_hz,
            settings.high_hz,
            HZ_5,
            hz,
        ),
        _ => false,
    }
}

fn next_task(list: &Ft8ListDecoder, settings: &DecodeSettings, cancel: bool, from: usize) -> (r:
    Task)
    requires
        settings.complaint() is None,
    ensures
        r == task_from(list.deep_view(), *settings, cancel, from as int),
{
    if cancel {
        return Task::Finish;
    }
    match find_due(list, settings, from) {
        Some(i) => Task::Recall(i),
        None => if contact_is_due(list, settings) {
            Task::Contact
        } else {
            Task::Finish
        },
    }
}

/// Takes in what the last task has found, which is remembered, and tells the next one.
/// `silent` says that the residual is, and `cancel` asks the search to stop.
pub fn next(
    task: Task,
    list: &mut Ft8ListDecoder,
    settings: &DecodeSettings,
    silent: bool,
    cancel: bool,
    found: Option<&DecodedSignal>,
) -> (r: Task)
    requires
        settings.complaint() is None,
        is_task(task, old(list).deep_view()),
    ensures
        final(list).deep_view() == list_after(old(list).deep_view(), task, found),
        r == task_after(task, final(list).deep_view(), *settings, silent, cancel),
        is_task(r, final(list).deep_view()),
{
    proof {
        earlier_entries_stay(list.deep_view(), task, found);
    }
    match (task, found) {
        (Task::Recall(_), Some(signal)) => {
            list.remember(signal);
        },
        (Task::Contact, Some(signal)) => {
            list.remember(signal);
        },
        _ => {},
    }
    match task {
        Task::Begin => if !list.is_wanted(settings) || cancel || silent {
            Task::Finish
        } else {
            Task::Prepare
        },
        Task::Prepare => {
            proof {
                lemma_next_due(earlier(list.deep_view()), *settings, 0);
            }
            next_task(list, settings, cancel, 0)
        },
        Task::Recall(i) => {
            let count: usize = match list.previous() {
                Some(entries) => entries.len(),
                None => 0,
            };
            assert(i < count);
            proof {
                lemma_next_due(earlier(list.deep_view()), *settings, i + 1);
            }
            next_task(list, settings, cancel, i + 1)
        },
        Task::Contact => Task::Finish,
        Task::Finish => Task::Finish,
    }
}

/// Whether the best hypothesis on a contact is considered: it is a message, at most 5 Hz off
/// the given frequency and within the band.
pub fn may_be_contact(text: &str, frequency: u32, best: u32, settings: &DecodeSettings) -> (r: bool)
    ensures
        r == (text@.len() > 0 && within(frequency, best, HZ_5) && at_most(settings.low_hz, best)
            && at_most(best, settings.high_hz)),
{
    text.unicode_len() > 0 && is_within(frequency, best, HZ_5) && in_band(settings, best)
}

/// Whether the mean noise of a spectrum can be divided by.
pub fn is_usable_noise(average: u32) -> (r: bool)
    ensures
        r == (finite(average) && !at_most(average, 0)),
{
    is_finite(average) && !is_at_most(average, 0)
}

/// Bit patterns of -159, -147 and 0.71.
pub const LEAST_LIKELIHOOD: u32 = 0xc31f_0000;

pub const DOUBTFUL_LIKELIHOOD: u32 = 0xc313_0000;

pub const LEAST_RATIO: u32 = 0x3f35_c28f;

/// Whether a contact is accepted: by its tones that are not the strongest of their symbols,
/// its logarithmic likelihood, the sum of the strongest powers, and the ratio of its own
/// powers to that sum. All but the count are bit patterns.
pub fn accepts_contact(hard: usize, plog: u32, biggest: u32, ratio: u32) -> (r: bool)
    ensures
        r == (finite(plog) && hard <= 54 && !less(plog, LEAST_LIKELIHOOD) && !at_most(biggest, 0)
            && !less(ratio, LEAST_RATIO)),
{
    is_finite(plog) && hard <= 54 && !is_less(plog, LEAST_LIKELIHOOD) && !is_at_most(biggest, 0)
        && !is_less(ratio, LEAST_RATIO)
}

/// Whether an accepted contact is doubtful.
pub fn is_doubtful(plog: u32) -> (r: bool)
    ensures
        r == less(plog, DOUBTFUL_LIKELIHOOD),
{
    is_less(plog, DOUBTFUL_LIKELIHOOD)
}

// ---------------------------------------------------------------------------
// Laws
// ---------------------------------------------------------------------------

proof fn lemma_next_due(entries: Seq<HeardModel>, settings: DecodeSettings, from: int)
    requires
        0 <= from,
    ensures
        from <= next_due(entries, settings, from),
        from <= entries.len() ==> next_due(entries, settings, from) <= entries.len(),
        next_due(entries, settings, from) < entries.len() ==> is_due(
            entries[next_due(entries, settings, from)],
            settings,
        ),
        forall|i: int|
            from <= i < next_due(entries, settings, from) && i < entries.len() ==> !is_due(
                #[trigger] entries[i],
                settings,
            ),
    decreases entries.len() - from,
{
    if from < entries.len() && !is_due(entries[from], settings) {
        lemma_next_due(entries, settings, from + 1);
    }
}

/// What a task has found takes no earlier entry out of its place; it may only make it
/// unavailable.
pub proof fn earlier_entries_stay(list: ListModel, task: Task, found: Option<&DecodedSignal>)
    ensures
        ({
            let before = earlier(list);
            let after = earlier(list_after(list, task, found));
            &&& after.len() == before.len()
            &&& forall|i: int|
                0 <= i < before.len() ==> #[trigger] after[i] == before[i] || after[i] == (
                HeardModel { available: false, ..before[i] })
        }),
{
}

/// Entries are tried in order, each at most once, only while they are available and at most
/// 2.5 Hz outside the band, and none such is left out; the contact comes after them.
pub proof fn entries_are_tried_in_order(
    task: Task,
    list: ListModel,
    settings: DecodeSettings,
    silent: bool,
    cancel: bool,
)
    requires
        is_task(task, list),
        is_bounded(list),
    ensures
        ({
            let entries = earlier(list);
            let start = match task {
                Task::Recall(i) => i + 1,
                _ => 0,
            };
            match task_after(task, list, settings, silent, cancel) {
                Task::Recall(i) => {
                    &&& start <= i < entries.len()
                    &&& !cancel
                    &&& is_due(entries[i as int], settings)
                    &&& forall|k: int| start <= k < i ==> !is_due(#[trigger] entries[k], settings)
                },
                Task::Contact => {
                    &&& task is Prepare || task is Recall
                    &&& !cancel
                    &&& is_contact_due(list, settings)
                    &&& forall|k: int|
                        start <= k < entries.len() ==> !is_due(#[trigger] entries[k], settings)
                },
                _ => true,
            }
        }),
{
    let entries = earlier(list);
    match task {
        Task::Recall(i) => {
            lemma_next_due(entries, settings, i + 1);
        },
        _ => {
            lemma_next_due(entries, settings, 0);
        },
    }
    if let Some(slot) = list.slot {
        assert(entries == parity(list, slot).previous);
    }
}

/// What is left to do.
pub open spec fn work_left(task: Task, list: ListModel) -> int {
    match task {
        Task::Begin => earlier(list).len() as int + 4,
        Task::Prepare => earlier(list).len() as int + 3,
        Task::Recall(i) => earlier(list).len() - i + 2,
        Task::Contact => 1,
        Task::Finish => 0,
    }
}

/// Every search ends: each step leaves less to do.
pub proof fn list_searches_end(
    task: Task,
    list: ListModel,
    settings: DecodeSettings,
    silent: bool,
    cancel: bool,
)
    requires
        is_task(task, list),
        task != Task::Finish,
        is_bounded(list),
    ensures
        0 <= work_left(task_after(task, list, settings, silent, cancel), list) < work_left(
            task,
            list,
        ),
{
    entries_are_tried_in_order(task, list, settings, silent, cancel);
}

/// Every entry of a history is at a frequency within 0 and 6000 Hz.
pub open spec fn is_plausible(list: ListModel) -> bool {
    let fine = |entries: Seq<HeardModel>|
        forall|i: int|
            0 <= i < entries.len() ==> from_zero_to((#[trigger] entries[i]).frequency, HZ_6000);
    fine(list.even.current) && fine(list.even.previous) && fine(list.odd.current) && fine(
        list.odd.previous,
    )
}

/// No history ever holds an entry outside 0 and 6000 Hz.
pub proof fn histories_stay_plausible(
    list: ListModel,
    slot: u64,
    text: Seq<char>,
    frequency: u32,
    dt: u32,
)
    requires
        is_plausible(list),
    ensures
        is_plausible(crate::ft8_list::nothing_heard()),
        is_plausible(slot_begun(list, slot)),
        is_plausible(list_remembered(list, text, frequency, dt)),
{
    assert(entry_of(text, frequency, dt) matches Some(entry) ==> from_zero_to(
        entry.frequency,
        HZ_6000,
    ));
}

} // verus!
