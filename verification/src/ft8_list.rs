//! Bounded FT8 list decoding from what was heard before. Slot identity is supplied
//! by the stream owner; early and final attempts must use the same identity.
use vstd::prelude::*;
use vstd::string::*;
use vstd::utf8::encode_utf8;
use crate::assistance::{last_digit_byte, strip_angles, stripped, Activity, ApMode};
use crate::engine::{DecodeDiagnostics, DecodeSettings, DecodedSignal};
use crate::fec::{encode as encode_payload, encoded, DecodeMethod};
use crate::message::{consistent, Message, MessageDecoder, MessageError};
use crate::message_encode::{encode, grid_value, payload_of_text};
use crate::quantities::{HZ_3, HZ_6000, SECONDS_15};
use crate::single::{from_zero_to, is_from_zero_to, is_within, within};
use crate::symbols::{ft8, ft8_tone};
use crate::text::{
    append_digits, has_char, has_prefix, same, split_words, starts_with, trim_end, trimmed_end,
    uppercase, uppercased, words,
};
use crate::wire::{signed_two, taught, unpacked};

verus! {

pub const MAX_HISTORY: usize = 200;

/// Bit patterns of one and 0.16.
pub const CONFIDENT: u32 = 0x3f80_0000;

pub const DOUBTFUL: u32 = 0x3e23_d70a;

// ---------------------------------------------------------------------------
// History
// ---------------------------------------------------------------------------

/// A pair of calls heard in one slot. Frequency and offset are bit patterns of
/// single precision values.
#[derive(Clone, Debug, PartialEq, Eq)]
pub struct Heard {
    pub call1: String,
    pub call2: String,
    pub grid: String,
    pub frequency: u32,
    pub dt: u32,
    pub available: bool,
}

#[verifier::ext_equal]
pub struct HeardModel {
    pub call1: Seq<char>,
    pub call2: Seq<char>,
    pub grid: Seq<char>,
    pub frequency: u32,
    pub dt: u32,
    pub available: bool,
}

impl DeepView for Heard {
    type V = HeardModel;

    open spec fn deep_view(&self) -> HeardModel {
        HeardModel {
            call1: self.call1@,
            call2: self.call2@,
            grid: self.grid@,
            frequency: self.frequency,
            dt: self.dt,
            available: self.available,
        }
    }
}

/// What was heard in the slots of one parity: in the current one, and in the one
/// before it.
pub struct ParityHistory {
    pub slot: Option<u64>,
    pub current: Vec<Heard>,
    pub previous: Vec<Heard>,
}

#[verifier::ext_equal]
pub struct ParityModel {
    pub slot: Option<u64>,
    pub current: Seq<HeardModel>,
    pub previous: Seq<HeardModel>,
}

impl DeepView for ParityHistory {
    type V = ParityModel;

    open spec fn deep_view(&self) -> ParityModel {
        ParityModel {
            slot: self.slot,
            current: self.current.deep_view(),
            previous: self.previous.deep_view(),
        }
    }
}

pub open spec fn unheard() -> ParityModel {
    ParityModel { slot: None, current: Seq::empty(), previous: Seq::empty() }
}

pub struct Ft8ListDecoder {
    pub slot: Option<u64>,
    pub even: ParityHistory,
    pub odd: ParityHistory,
}

#[verifier::ext_equal]
pub struct ListModel {
    pub slot: Option<u64>,
    pub even: ParityModel,
    pub odd: ParityModel,
}

impl DeepView for Ft8ListDecoder {
    type V = ListModel;

    open spec fn deep_view(&self) -> ListModel {
        ListModel {
            slot: self.slot,
            even: self.even.deep_view(),
            odd: self.odd.deep_view(),
        }
    }
}

pub open spec fn nothing_heard() -> ListModel {
    ListModel { slot: None, even: unheard(), odd: unheard() }
}

/// The history of a slot's parity.
pub open spec fn parity(list: ListModel, slot: u64) -> ParityModel {
    if slot % 2 == 0 {
        list.even
    } else {
        list.odd
    }
}

pub open spec fn with_parity(list: ListModel, slot: u64, history: ParityModel) -> ListModel {
    if slot % 2 == 0 {
        ListModel { even: history, ..list }
    } else {
        ListModel { odd: history, ..list }
    }
}

pub open spec fn all_available(entries: Seq<HeardModel>) -> Seq<HeardModel> {
    entries.map_values(|entry: HeardModel| HeardModel { available: true, ..entry })
}

/// The history of a parity at the start of a slot: what was heard two slots ago
/// becomes the previous list.
pub open spec fn turned(history: ParityModel, slot: u64) -> ParityModel {
    ParityModel {
        slot: Some(slot),
        current: Seq::empty(),
        previous: match history.slot {
            Some(old_slot) => if old_slot + 2 == slot {
                all_available(history.current)
            } else {
                Seq::empty()
            },
            None => Seq::empty(),
        },
    }
}

/// The history at the start of a slot. A backwards jump, or a gap beyond one
/// period of the other parity, forgets everything.
pub open spec fn slot_begun(list: ListModel, slot: u64) -> ListModel {
    if list.slot == Some(slot) {
        list
    } else {
        let kept = match list.slot {
            Some(before) => if slot < before || slot - before > 2 {
                nothing_heard()
            } else {
                list
            },
            None => list,
        };
        ListModel {
            slot: Some(slot),
            ..with_parity(kept, slot, turned(parity(kept, slot), slot))
        }
    }
}

/// Every list is bounded.
pub open spec fn is_bounded(list: ListModel) -> bool {
    &&& list.even.current.len() <= MAX_HISTORY
    &&& list.even.previous.len() <= MAX_HISTORY
    &&& list.odd.current.len() <= MAX_HISTORY
    &&& list.odd.previous.len() <= MAX_HISTORY
}

/// Letters among the bytes from `from` on.
pub open spec fn letters_from(s: Seq<u8>, from: int) -> nat
    decreases s.len() - from,
{
    if from >= s.len() {
        0
    } else {
        letters_from(s, from + 1) + (if is_letter_byte(s[from]) {
            1nat
        } else {
            0nat
        })
    }
}

pub open spec fn is_letter_byte(b: u8) -> bool {
    65 <= b <= 90 || 97 <= b <= 122
}

/// A call of the common form: its last digit in second or third place, a letter
/// before it and at most three behind it. This is less strict than packing.
pub open spec fn is_common_call(call: Seq<char>) -> bool {
    let s = encode_utf8(uppercase(call));
    let area = last_digit_byte(s, s.len());
    &&& 1 <= area <= 2
    &&& exists|i: int| 0 <= i < area && is_letter_byte(#[trigger] s[i])
    &&& letters_from(s, area + 1) <= 3
}

/// A locator that is not the farewell of the same shape.
pub open spec fn is_place(word: Seq<char>) -> bool {
    grid_value(word) is Some && word != "RR73"@
}

fn letter_byte(b: u8) -> (r: bool)
    ensures
        r == is_letter_byte(b),
{
    (65 <= b && b <= 90) || (97 <= b && b <= 122)
}

fn standard_call(call: &str) -> (r: bool)
    ensures
        r == is_common_call(call@),
{
    let large: String = uppercased(call);
    let b: &[u8] = large.as_str().as_bytes();
    let n: usize = b.len();
    let mut area: usize = n;
    while area > 0 && !(48 <= b[area - 1] && b[area - 1] <= 57)
        invariant
            area <= n,
            n == b@.len(),
            last_digit_byte(b@, n as nat) == last_digit_byte(b@, area as nat),
        decreases area,
    {
        area = area - 1;
    }
    if area != 2 && area != 3 {
        return false;
    }
    let place: usize = area - 1;
    let lettered: bool = letter_byte(b[0]) || (place == 2 && letter_byte(b[1]));
    if !lettered {
        assert(forall|i: int| 0 <= i < place ==> !is_letter_byte(#[trigger] b@[i]));
        return false;
    }
    assert(is_letter_byte(b@[0]) || is_letter_byte(b@[1]));
    let mut count: usize = 0;
    let mut i: usize = n;
    while i > area
        invariant
            area <= i <= n,
            n == b@.len(),
            count <= n - i,
            count == letters_from(b@, i as int),
        decreases i,
    {
        i = i - 1;
        if letter_byte(b[i]) {
            count = count + 1;
        }
    }
    count <= 3
}

fn grid4(word: &str) -> (r: bool)
    ensures
        r == is_place(word@),
{
    if word.unicode_len() != 4 {
        return false;
    }
    let a: char = word.get_char(0);
    let b: char = word.get_char(1);
    let c: char = word.get_char(2);
    let d: char = word.get_char(3);
    'A' <= a && a <= 'R' && 'A' <= b && b <= 'R' && '0' <= c && c <= '9' && '0' <= d && d <= '9'
        && !same(word, "RR73")
}

/// The entry that a signal leaves: only standard, fully resolved call pairs from
/// within the band and the window.
pub open spec fn entry_of(text: Seq<char>, frequency: u32, dt: u32) -> Option<HeardModel> {
    let w = words(text);
    if !from_zero_to(frequency, HZ_6000) || dt % 0x8000_0000 > SECONDS_15 || text.contains('/')
        || text.contains('<') || text.contains('>') || starts_with(text, "CQ_"@) || w.len() < 2 || (
    w[0] != "CQ"@ && !is_common_call(w[0])) || !is_common_call(w[1]) {
        None
    } else {
        Some(
            HeardModel {
                call1: w[0],
                call2: w[1],
                grid: if is_place(w.last()) {
                    w.last()
                } else {
                    Seq::empty()
                },
                frequency,
                dt,
                available: true,
            },
        )
    }
}

/// Two entries that lie within 3 Hz of each other.
pub open spec fn are_close(a: HeardModel, b: HeardModel) -> bool {
    within(a.frequency, b.frequency, HZ_3)
}

/// Earlier entries of the same transmitter close by are no longer tried.
pub open spec fn suppressed(entries: Seq<HeardModel>, entry: HeardModel) -> Seq<HeardModel> {
    Seq::new(
        entries.len(),
        |i: int|
            if entries[i].call2 == entry.call2 && are_close(entries[i], entry) {
                HeardModel { available: false, ..entries[i] }
            } else {
                entries[i]
            },
    )
}

/// The same pair of calls was already heard close by.
pub open spec fn is_known(entries: Seq<HeardModel>, entry: HeardModel) -> bool {
    exists|i: int|
        0 <= i < entries.len() && are_close(#[trigger] entries[i], entry) && entries[i].call1
            == entry.call1 && entries[i].call2 == entry.call2
}

/// The history of a parity after an entry.
pub open spec fn with_entry(history: ParityModel, entry: HeardModel) -> ParityModel {
    ParityModel {
        slot: history.slot,
        previous: suppressed(history.previous, entry),
        current: if history.current.len() < MAX_HISTORY && !is_known(history.current, entry) {
            history.current.push(entry)
        } else {
            history.current
        },
    }
}

/// The history after a signal was heard.
pub open spec fn list_remembered(
    list: ListModel,
    text: Seq<char>,
    frequency: u32,
    dt: u32,
) -> ListModel {
    match (list.slot, entry_of(text, frequency, dt)) {
        (Some(slot), Some(entry)) => with_parity(
            list,
            slot,
            with_entry(parity(list, slot), entry),
        ),
        _ => list,
    }
}

fn new_entry(text: &str, frequency: u32, dt: u32) -> (r: Option<Heard>)
    ensures
        r.deep_view() == entry_of(text@, frequency, dt),
{
    if !is_from_zero_to(frequency, HZ_6000) || dt % 0x8000_0000 > SECONDS_15 {
        return None;
    }
    if has_char(text, '/') || has_char(text, '<') || has_char(text, '>') || has_prefix(
        text,
        "CQ_",
    ) {
        return None;
    }
    let w: Vec<String> = split_words(text);
    let n: usize = w.len();
    if n < 2 {
        return None;
    }
    assert(w.deep_view()[0] == w@[0]@ && w.deep_view()[1] == w@[1]@ && w.deep_view().last() == w@[n
        - 1]@);
    if (!same(w[0].as_str(), "CQ") && !standard_call(w[0].as_str())) || !standard_call(
        w[1].as_str(),
    ) {
        return None;
    }
    let grid: String = if grid4(w[n - 1].as_str()) { w[n - 1].clone() } else { String::new() };
    Some(
        Heard {
            call1: w[0].clone(),
            call2: w[1].clone(),
            grid,
            frequency,
            dt,
            available: true,
        },
    )
}

fn suppress(entries: &mut Vec<Heard>, entry: &Heard)
    ensures
        final(entries).deep_view() == suppressed(old(entries).deep_view(), entry.deep_view()),
{
    let ghost start = entries.deep_view();
    let n: usize = entries.len();
    let mut out: Vec<Heard> = Vec::new();
    let mut i: usize = 0;
    while i < n
        invariant
            i <= n,
            n == entries.len(),
            start == entries.deep_view(),
            start.len() == n,
            out.deep_view() =~= suppressed(start, entry.deep_view()).take(i as int),
        decreases n - i,
    {
        assert(start[i as int] == entries@[i as int].deep_view());
        let mut copy: Heard = copy_entry(&entries[i]);
        if same(copy.call2.as_str(), entry.call2.as_str()) && is_within(
            copy.frequency,
            entry.frequency,
            HZ_3,
        ) {
            copy.available = false;
        }
        let ghost before = out.deep_view();
        let ghost added = copy.deep_view();
        out.push(copy);
        assert(out.deep_view() =~= before.push(added));
        assert(added =~= suppressed(start, entry.deep_view())[i as int]);
        i = i + 1;
    }
    *entries = out;
    assert(entries.deep_view() =~= suppressed(start, entry.deep_view()));
}

fn copy_entry(entry: &Heard) -> (r: Heard)
    ensures
        r.deep_view() == entry.deep_view(),
{
    Heard {
        call1: entry.call1.clone(),
        call2: entry.call2.clone(),
        grid: entry.grid.clone(),
        frequency: entry.frequency,
        dt: entry.dt,
        available: entry.available,
    }
}

fn known(entries: &Vec<Heard>, entry: &Heard) -> (r: bool)
    ensures
        r == is_known(entries.deep_view(), entry.deep_view()),
{
    let ghost all = entries.deep_view();
    let mut i: usize = 0;
    while i < entries.len()
        invariant
            i <= entries.len(),
            all == entries.deep_view(),
            forall|k: int|
                0 <= k < i ==> !(are_close(#[trigger] all[k], entry.deep_view()) && all[k].call1
                    == entry.call1@ && all[k].call2 == entry.call2@),
        decreases entries.len() - i,
    {
        assert(all[i as int] == entries@[i as int].deep_view());
        if same(entries[i].call1.as_str(), entry.call1.as_str()) && same(
            entries[i].call2.as_str(),
            entry.call2.as_str(),
        ) && is_within(entries[i].frequency, entry.frequency, HZ_3) {
            assert(are_close(all[i as int], entry.deep_view()));
            return true;
        }
        i = i + 1;
    }
    false
}

impl ParityHistory {
    fn new() -> (r: Self)
        ensures
            r.deep_view() == unheard(),
    {
        let r = ParityHistory { slot: None, current: Vec::new(), previous: Vec::new() };
        assert(r.deep_view() =~= unheard());
        r
    }

    fn turn(&mut self, slot: u64)
        ensures
            final(self).deep_view() == turned(old(self).deep_view(), slot),
    {
        let follows: bool = match self.slot {
            Some(before) => before <= u64::MAX - 2 && before + 2 == slot,
            None => false,
        };
        let mut previous: Vec<Heard> = Vec::new();
        assert(previous.deep_view() =~= Seq::<HeardModel>::empty());
        if follows {
            let ghost all = self.current.deep_view();
            let mut i: usize = 0;
            while i < self.current.len()
                invariant
                    i <= self.current.len(),
                    all == self.current.deep_view(),
                    previous.deep_view() =~= all_available(all).take(i as int),
                decreases self.current.len() - i,
            {
                assert(all[i as int] == self.current@[i as int].deep_view());
                let mut copy: Heard = copy_entry(&self.current[i]);
                copy.available = true;
                let ghost before = previous.deep_view();
                let ghost added = copy.deep_view();
                previous.push(copy);
                assert(previous.deep_view() =~= before.push(added));
                assert(added =~= all_available(all)[i as int]);
                i = i + 1;
            }
            assert(previous.deep_view() =~= all_available(all));
        }
        self.previous = previous;
        self.current = Vec::new();
        self.slot = Some(slot);
        assert(self.deep_view() =~= turned(old(self).deep_view(), slot));
    }

    fn add_entry(&mut self, entry: Heard)
        ensures
            final(self).deep_view() == with_entry(old(self).deep_view(), entry.deep_view()),
    {
        suppress(&mut self.previous, &entry);
        if self.current.len() < MAX_HISTORY && !known(&self.current, &entry) {
            let ghost before = self.current.deep_view();
            let ghost added = entry.deep_view();
            self.current.push(entry);
            assert(self.current.deep_view() =~= before.push(added));
        }
        assert(self.deep_view() =~= with_entry(old(self).deep_view(), entry.deep_view()));
    }
}

impl Default for Ft8ListDecoder {
    fn default() -> (r: Self)
        ensures
            r.deep_view() == nothing_heard(),
    {
        Ft8ListDecoder::new()
    }
}

impl Ft8ListDecoder {
    pub fn new() -> (r: Self)
        ensures
            r.deep_view() == nothing_heard(),
    {
        Ft8ListDecoder { slot: None, even: ParityHistory::new(), odd: ParityHistory::new() }
    }

    /// Invalidate station history.
    pub fn reset(&mut self)
        ensures
            final(self).deep_view() == nothing_heard(),
    {
        self.slot = None;
        self.even = ParityHistory::new();
        self.odd = ParityHistory::new();
    }

    /// Identity counts 15-second FT8 periods, including periods not decoded.
    /// Repeating an identity is an early/final update.
    pub fn begin_slot(&mut self, slot: u64)
        ensures
            final(self).deep_view() == slot_begun(old(self).deep_view(), slot),
    {
        let ghost start = self.deep_view();
        match self.slot {
            Some(before) => {
                if before == slot {
                    return;
                }
                if slot < before || slot - before > 2 {
                    self.reset();
                }
            },
            None => {},
        }
        if slot % 2 == 0 {
            self.even.turn(slot);
        } else {
            self.odd.turn(slot);
        }
        self.slot = Some(slot);
        assert(self.deep_view() =~= slot_begun(start, slot));
    }

    /// The entries of the current slot's parity that were heard before.
    pub fn previous(&self) -> (r: Option<&Vec<Heard>>)
        ensures
            match (r, self.slot) {
                (Some(entries), Some(slot)) => entries.deep_view() == parity(
                    self.deep_view(),
                    slot,
                ).previous,
                (None, None) => true,
                _ => false,
            },
    {
        match self.slot {
            Some(slot) => if slot % 2 == 0 {
                Some(&self.even.previous)
            } else {
                Some(&self.odd.previous)
            },
            None => None,
        }
    }

    /// The entries that were heard in the current slot.
    pub fn current(&self) -> (r: Option<&Vec<Heard>>)
        ensures
            match (r, self.slot) {
                (Some(entries), Some(slot)) => entries.deep_view() == parity(
                    self.deep_view(),
                    slot,
                ).current,
                (None, None) => true,
                _ => false,
            },
    {
        match self.slot {
            Some(slot) => if slot % 2 == 0 {
                Some(&self.even.current)
            } else {
                Some(&self.odd.current)
            },
            None => None,
        }
    }

    /// Save only standard, fully resolved call pairs. Newly decoded stations
    /// suppress their earlier hypotheses.
    pub fn remember(&mut self, signal: &DecodedSignal)
        ensures
            final(self).deep_view() == list_remembered(
                old(self).deep_view(),
                signal.message.text@,
                signal.frequency_hz,
                signal.dt_seconds,
            ),
    {
        let slot: u64 = match self.slot {
            Some(slot) => slot,
            None => {
                return;
            },
        };
        match new_entry(signal.message.text.as_str(), signal.frequency_hz, signal.dt_seconds) {
            None => {},
            Some(entry) => {
                if slot % 2 == 0 {
                    self.even.add_entry(entry);
                } else {
                    self.odd.add_entry(entry);
                }
            },
        }
        assert(self.deep_view() =~= list_remembered(
            old(self).deep_view(),
            signal.message.text@,
            signal.frequency_hz,
            signal.dt_seconds,
        ));
    }

    /// Whether the other station was already heard in this slot.
    pub fn heard_already(&self, dx_call: &str) -> (r: bool)
        ensures
            r == (self.slot matches Some(slot) && exists|i: int|
                0 <= i < parity(self.deep_view(), slot).current.len() && ((#[trigger] parity(
                    self.deep_view(),
                    slot,
                ).current[i]).call2 == dx_call@ || parity(self.deep_view(), slot).current[i].call1
                    == dx_call@)),
    {
        match self.current() {
            None => false,
            Some(entries) => {
                let ghost slot = self.slot->0;
                let ghost all = parity(self.deep_view(), slot).current;
                let mut i: usize = 0;
                while i < entries.len()
                    invariant
                        i <= entries.len(),
                        all == entries.deep_view(),
                        self.slot == Some(slot),
                        all == parity(self.deep_view(), slot).current,
                        forall|k: int|
                            0 <= k < i ==> !((#[trigger] all[k]).call2 == dx_call@ || all[k].call1
                                == dx_call@),
                    decreases entries.len() - i,
                {
                    assert(all[i as int] == entries@[i as int].deep_view());
                    if same(entries[i].call2.as_str(), dx_call) || same(
                        entries[i].call1.as_str(),
                        dx_call,
                    ) {
                        return true;
                    }
                    i = i + 1;
                }
                false
            },
        }
    }

    /// Whether any earlier entry is still to be tried.
    pub fn any_available(&self) -> (r: bool)
        ensures
            r == (self.slot matches Some(slot) && exists|i: int|
                0 <= i < parity(self.deep_view(), slot).previous.len() && (#[trigger] parity(
                    self.deep_view(),
                    slot,
                ).previous[i]).available),
    {
        match self.previous() {
            None => false,
            Some(entries) => {
                let ghost slot = self.slot->0;
                let ghost all = parity(self.deep_view(), slot).previous;
                let mut i: usize = 0;
                while i < entries.len()
                    invariant
                        i <= entries.len(),
                        all == entries.deep_view(),
                        self.slot == Some(slot),
                        all == parity(self.deep_view(), slot).previous,
                        forall|k: int| 0 <= k < i ==> !(#[trigger] all[k]).available,
                    decreases entries.len() - i,
                {
                    assert(all[i as int] == entries@[i as int].deep_view());
                    if entries[i].available {
                        return true;
                    }
                    i = i + 1;
                }
                false
            },
        }
    }

    /// Whether list decoding has anything to do: assistance from all context is
    /// asked for, the activity allows it, and there is an earlier entry or a
    /// complete description of the other station.
    pub fn is_wanted(&self, settings: &DecodeSettings) -> (r: bool)
        ensures
            r == (settings.assistance_in_force() == ApMode::Auto && settings.ap.activity
                != Activity::Fox && settings.ap.activity != Activity::Hound && ((self.slot matches Some(
                slot,
            ) && exists|i: int|
                0 <= i < parity(self.deep_view(), slot).previous.len() && (#[trigger] parity(
                    self.deep_view(),
                    slot,
                ).previous[i]).available) || is_described(*settings))),
    {
        settings.ap_mode() == ApMode::Auto && settings.ap.activity != Activity::Fox
            && settings.ap.activity != Activity::Hound && (self.any_available() || (
        settings.priority_hz.is_some() && settings.ap.my_call.is_some()
            && settings.ap.dx_call.is_some() && settings.ap.dx_grid.is_some()))
    }
}

/// Both calls, the locator and the frequency of the other station are given.
pub open spec fn is_described(settings: DecodeSettings) -> bool {
    settings.priority_hz is Some && settings.ap.my_call is Some && settings.ap.dx_call is Some
        && settings.ap.dx_grid is Some
}

/// No list ever grows beyond its bound.
pub proof fn history_stays_bounded(
    list: ListModel,
    slot: u64,
    text: Seq<char>,
    frequency: u32,
    dt: u32,
)
    requires
        is_bounded(list),
    ensures
        is_bounded(nothing_heard()),
        is_bounded(slot_begun(list, slot)),
        is_bounded(list_remembered(list, text, frequency, dt)),
{
}

/// Two slots in a row of one parity: what was heard in the first is tried in the
/// second.
pub proof fn heard_entries_come_back(list: ListModel, slot: u64)
    requires
        list.slot == Some(slot),
        parity(list, slot).slot == Some(slot),
        slot + 2 <= u64::MAX,
    ensures
        parity(slot_begun(list, (slot + 2) as u64), slot).previous == all_available(
            parity(list, slot).current,
        ),
{
}

/// A slot that lies before the last one, or more than two behind it, finds nothing
/// that was heard.
pub proof fn distant_slots_find_nothing(list: ListModel, before: u64, slot: u64)
    requires
        list.slot == Some(before),
        slot < before || slot > before + 2,
    ensures
        parity(slot_begun(list, slot), slot).previous.len() == 0,
        parity(slot_begun(list, slot), slot).current.len() == 0,
{
}

/// Beginning a slot again changes nothing.
pub proof fn repeated_slots_keep_history(list: ListModel, slot: u64)
    ensures
        slot_begun(slot_begun(list, slot), slot) == slot_begun(list, slot),
{
}

/// A station that is heard again close by is no longer tried from what was heard of
/// it before.
pub proof fn heard_stations_are_not_tried(
    list: ListModel,
    slot: u64,
    text: Seq<char>,
    frequency: u32,
    dt: u32,
    i: int,
)
    requires
        list.slot == Some(slot),
        entry_of(text, frequency, dt) is Some,
        0 <= i < parity(list, slot).previous.len(),
        parity(list, slot).previous[i].call2 == entry_of(text, frequency, dt)->0.call2,
        within(parity(list, slot).previous[i].frequency, frequency, HZ_3),
    ensures
        !parity(list_remembered(list, text, frequency, dt), slot).previous[i].available,
{
}

// ---------------------------------------------------------------------------
// Hypotheses
// ---------------------------------------------------------------------------

/// A message that may have been sent, with its waveform.
#[derive(Clone, Debug, PartialEq, Eq)]
pub struct Hypothesis {
    pub text: String,
    pub bits: [bool; 77],
    pub codeword: [bool; 174],
    pub tones: [u8; 79],
}

#[verifier::ext_equal]
pub struct ListHypothesis {
    pub text: Seq<char>,
    pub bits: Seq<bool>,
    pub codeword: Seq<bool>,
    pub tones: Seq<u8>,
}

impl DeepView for Hypothesis {
    type V = ListHypothesis;

    open spec fn deep_view(&self) -> ListHypothesis {
        ListHypothesis {
            text: self.text@,
            bits: self.bits@,
            codeword: self.codeword@,
            tones: self.tones@,
        }
    }
}

/// The two calls of hypothesis `i` as they are displayed. Calls that are not of
/// the common form stand in brackets in some of them.
pub open spec fn calls_text(call1: Seq<char>, call2: Seq<char>, a8: bool, i: int) -> Seq<char> {
    let first = call1 == "CQ"@ || is_common_call(call1);
    let second = is_common_call(call2);
    if !first && (i == 1 || i >= 6) {
        "<"@ + stripped(call1) + "> "@ + call2
    } else if !first && 2 <= i <= 4 {
        call1 + " <"@ + stripped(call2) + ">"@
    } else if first && !second && (i <= 4 || i == 6) {
        "<"@ + call1 + "> "@ + call2
    } else if first && !second && i >= 7 {
        call1 + " <"@ + stripped(call2) + ">"@
    } else if !a8 && call1 == "CQ"@ && i != 5 {
        "QU1RK "@ + call2
    } else {
        call1 + " "@ + call2
    }
}

/// The report of hypothesis `i`.
pub open spec fn report_number(i: int) -> int {
    -50 + (i - 7) / 2
}

/// The text of hypothesis `i`: the calls alone, three acknowledgements, a CQ, a
/// locator, and reports from -50 to 49 plain and rogered.
pub open spec fn hypothesis_text(
    call1: Seq<char>,
    call2: Seq<char>,
    grid: Seq<char>,
    a8: bool,
    i: int,
) -> Seq<char> {
    let prefix = calls_text(call1, call2, a8, i);
    let second = is_common_call(call2);
    if i == 1 {
        prefix
    } else if i == 2 {
        prefix + " RRR"@
    } else if i == 3 {
        prefix + " RR73"@
    } else if i == 4 {
        prefix + " 73"@
    } else if i == 5 {
        if second && grid != "RR73"@ {
            trim_end("CQ "@ + call2 + " "@ + grid)
        } else {
            "CQ "@ + call2
        }
    } else if i == 6 {
        if second {
            trim_end(prefix + " "@ + grid)
        } else {
            prefix
        }
    } else if a8 && !(-30 <= report_number(i) <= 30) {
        Seq::empty()
    } else {
        prefix + " "@ + (if i % 2 == 0 {
            "R"@
        } else {
            ""@
        }) + signed_two(report_number(i))
    }
}

/// The payload of a blank message: zero telemetry.
pub open spec fn blank_payload() -> Seq<bool> {
    Seq::new(77, |k: int| k == 71 || k == 73)
}

/// The payload of a nonstandard message with empty fields.
pub open spec fn empty_payload() -> Seq<bool> {
    Seq::new(77, |k: int| k == 74)
}

pub open spec fn with_waveform(text: Seq<char>, bits: Seq<bool>) -> ListHypothesis {
    ListHypothesis {
        text,
        bits,
        codeword: encoded(bits),
        tones: Seq::new(79, |p: int| ft8_tone(encoded(bits), p)),
    }
}

/// Hypothesis `i`, unless its text cannot be sent. A blank message competes but
/// is never returned, as does the empty form of two portable calls.
pub open spec fn hypothesis_of(
    call1: Seq<char>,
    call2: Seq<char>,
    grid: Seq<char>,
    a8: bool,
    i: int,
) -> Option<ListHypothesis> {
    let text = hypothesis_text(call1, call2, grid, a8, i);
    if text.len() == 0 {
        Some(with_waveform(text, blank_payload()))
    } else {
        match payload_of_text(text) {
            Ok(bits) => Some(with_waveform(text, bits)),
            Err(_) => if a8 && i == 1 && is_common_call(call2) && call2.contains('/') {
                Some(with_waveform(Seq::empty(), empty_payload()))
            } else {
                None
            },
        }
    }
}

/// The hypotheses `1..=n` that can be sent, in order.
pub open spec fn hypotheses_upto(
    call1: Seq<char>,
    call2: Seq<char>,
    grid: Seq<char>,
    a8: bool,
    n: nat,
) -> Seq<ListHypothesis>
    decreases n,
{
    if n == 0 {
        Seq::empty()
    } else {
        let rest = hypotheses_upto(call1, call2, grid, a8, (n - 1) as nat);
        match hypothesis_of(call1, call2, grid, a8, n as int) {
            Some(hypothesis) => rest.push(hypothesis),
            None => rest,
        }
    }
}

fn display_calls(call1: &str, call2: &str, a8: bool, i: u32) -> (r: String)
    ensures
        r@ == calls_text(call1@, call2@, a8, i as int),
{
    let cq: bool = same(call1, "CQ");
    let first: bool = cq || standard_call(call1);
    let second: bool = standard_call(call2);
    let mut out: String = String::new();
    if !first && (i == 1 || i >= 6) {
        out.append("<");
        out.append(strip_angles(call1));
        out.append("> ");
        out.append(call2);
    } else if (!first && 2 <= i && i <= 4) || (first && !second && i >= 7) {
        out.append(call1);
        out.append(" <");
        out.append(strip_angles(call2));
        out.append(">");
    } else if first && !second && (i <= 4 || i == 6) {
        out.append("<");
        out.append(call1);
        out.append("> ");
        out.append(call2);
    } else if !a8 && cq && i != 5 {
        out.append("QU1RK ");
        out.append(call2);
    } else {
        out.append(call1);
        out.append(" ");
        out.append(call2);
    }
    assert(out@ =~= calls_text(call1@, call2@, a8, i as int));
    out
}

fn append_signed(out: &mut String, n: i32)
    requires
        -99 <= n <= 99,
    ensures
        final(out)@ == old(out)@ + signed_two(n as int),
{
    let ghost before = out@;
    if n < 0 {
        out.append("-");
        append_digits(out, (-n) as u64, 2);
    } else {
        out.append("+");
        append_digits(out, n as u64, 2);
    }
    assert(out@ =~= before + signed_two(n as int));
}

fn make_text(call1: &str, call2: &str, grid: &str, a8: bool, i: u32) -> (r: String)
    requires
        1 <= i <= 206,
    ensures
        r@ == hypothesis_text(call1@, call2@, grid@, a8, i as int),
{
    let mut out: String = display_calls(call1, call2, a8, i);
    let ghost prefix = out@;
    let second: bool = standard_call(call2);
    if i == 1 {
    } else if i == 2 {
        out.append(" RRR");
    } else if i == 3 {
        out.append(" RR73");
    } else if i == 4 {
        out.append(" 73");
    } else if i == 5 {
        let mut cq: String = "CQ ".to_owned();
        cq.append(call2);
        if second && !same(grid, "RR73") {
            cq.append(" ");
            cq.append(grid);
            assert(cq@ =~= "CQ "@ + call2@ + " "@ + grid@);
            return trimmed_end(cq.as_str()).to_owned();
        }
        return cq;
    } else if i == 6 {
        if second {
            out.append(" ");
            out.append(grid);
            return trimmed_end(out.as_str()).to_owned();
        }
    } else {
        let report: i32 = -50 + (i as i32 - 7) / 2;
        if a8 && (report < -30 || report > 30) {
            return String::new();
        }
        out.append(" ");
        if i % 2 == 0 {
            out.append("R");
        } else {
            out.append("");
        }
        append_signed(&mut out, report);
    }
    out
}

fn waveform(text: String, bits: [bool; 77]) -> (r: Hypothesis)
    ensures
        r.deep_view() == with_waveform(text@, bits@),
{
    let codeword: [bool; 174] = encode_payload(&bits);
    let tones: [u8; 79] = ft8(&codeword);
    let r = Hypothesis { text, bits, codeword, tones };
    assert(r.deep_view() =~= with_waveform(text@, bits@));
    r
}

fn make_hypothesis(call1: &str, call2: &str, grid: &str, a8: bool, i: u32) -> (r: Option<
    Hypothesis,
>)
    requires
        1 <= i <= 206,
    ensures
        r.deep_view() == hypothesis_of(call1@, call2@, grid@, a8, i as int),
{
    let text: String = make_text(call1, call2, grid, a8, i);
    if text.as_str().unicode_len() == 0 {
        let mut bits: [bool; 77] = [false; 77];
        bits[71] = true;
        bits[73] = true;
        assert(bits@ =~= blank_payload());
        return Some(waveform(text, bits));
    }
    match encode(text.as_str()) {
        Ok(bits) => Some(waveform(text, bits)),
        Err(_) => {
            if a8 && i == 1 && standard_call(call2) && has_char(call2, '/') {
                let mut bits: [bool; 77] = [false; 77];
                bits[74] = true;
                assert(bits@ =~= empty_payload());
                Some(waveform(String::new(), bits))
            } else {
                None
            }
        },
    }
}

/// The messages that may follow from what is known of two stations. With `a8` they
/// come from the settings, else from what was heard before.
pub fn hypotheses(call1: &str, call2: &str, grid: &str, a8: bool) -> (r: Vec<Hypothesis>)
    ensures
        r.deep_view() == hypotheses_upto(call1@, call2@, grid@, a8, 206),
        r.len() <= 206,
{
    let mut out: Vec<Hypothesis> = Vec::new();
    let mut i: u32 = 1;
    assert(out.deep_view() =~= Seq::<ListHypothesis>::empty());
    while i <= 206
        invariant
            1 <= i <= 207,
            out.len() < i,
            out.deep_view() == hypotheses_upto(call1@, call2@, grid@, a8, (i - 1) as nat),
        decreases 207 - i,
    {
        match make_hypothesis(call1, call2, grid, a8, i) {
            Some(hypothesis) => {
                let ghost before = out.deep_view();
                let ghost added = hypothesis.deep_view();
                out.push(hypothesis);
                assert(out.deep_view() =~= before.push(added));
            },
            None => {},
        }
        i = i + 1;
    }
    out
}

/// Whether a hypothesis from an earlier entry may be returned when it wins: not a
/// placeholder for a CQ, and no CQ without a locator.
pub fn may_win(text: &str, grid: &str) -> (r: bool)
    ensures
        r == (!starts_with(text@, "QU1RK "@) && !(starts_with(text@, "CQ "@) && grid@.len() == 0)),
{
    !has_prefix(text, "QU1RK ") && !(has_prefix(text, "CQ ") && grid.unicode_len() == 0)
}

/// Validated list result, with the waveform metadata needed for subtraction.
#[derive(Clone, Debug, PartialEq, Eq)]
pub struct AssistedCandidate {
    pub signal: DecodedSignal,
    pub tones: [u8; 79],
}

/// The signal of a winning hypothesis, unless its payload does not unpack. Offset
/// and frequency are bit patterns of single precision values.
pub fn make_candidate(
    hypothesis: Hypothesis,
    messages: &mut MessageDecoder,
    frequency: u32,
    dt: u32,
    snr: i32,
    ap_type: u8,
    errors: usize,
    doubtful: bool,
) -> (r: Option<AssistedCandidate>)
    requires
        consistent(old(messages)@),
    ensures
        consistent(final(messages)@),
        final(messages)@ == taught(old(messages)@, hypothesis.bits@),
        r is Some <==> unpacked(old(messages)@, hypothesis.bits@) is Ok,
        r matches Some(candidate) ==> {
            let signal = candidate.signal;
            &&& candidate.tones == hypothesis.tones
            &&& signal.source_bits == hypothesis.bits
            &&& unpacked(old(messages)@, hypothesis.bits@) == Ok::<
                crate::wire::MessageModel,
                MessageError,
            >(signal.message.deep_view())
            &&& signal.frequency_hz == frequency
            &&& signal.snr_db == snr
            &&& signal.dt_seconds == dt
            &&& signal.assisted
            &&& signal.diagnostics == Some(
                DecodeDiagnostics {
                    method: DecodeMethod::List,
                    bp_iterations: 0,
                    hard_errors: errors,
                    osd_pass: None,
                    pass: 1,
                    ap_type: Some(ap_type),
                    confidence: Some(
                        if doubtful {
                            DOUBTFUL
                        } else {
                            CONFIDENT
                        },
                    ),
                    questionable: doubtful,
                },
            )
        },
{
    let message: Message = match messages.unpack(&hypothesis.bits) {
        Ok(message) => message,
        Err(_) => {
            return None;
        },
    };
    Some(
        AssistedCandidate {
            signal: DecodedSignal {
                source_bits: hypothesis.bits,
                message,
                frequency_hz: frequency,
                snr_db: snr,
                dt_seconds: dt,
                assisted: true,
                diagnostics: Some(
                    DecodeDiagnostics {
                        method: DecodeMethod::List,
                        bp_iterations: 0,
                        hard_errors: errors,
                        osd_pass: None,
                        pass: 1,
                        ap_type: Some(ap_type),
                        confidence: Some(if doubtful { DOUBTFUL } else { CONFIDENT }),
                        questionable: doubtful,
                    },
                ),
            },
            tones: hypothesis.tones,
        },
    )
}

} // verus!
