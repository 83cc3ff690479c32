//! Explicit receive assistance context; no radio control or contact sequencer.
use vstd::prelude::*;
use vstd::string::*;
use vstd::utf8::encode_utf8;
use crate::callsign::{all_call_chars, hash10, is_call_char, normal_call, without_brackets};
use crate::engine::{DecodeSettings, Mode};
use crate::message::{consistent, MessageDecoder, MessageError};
use crate::message_encode::{
    all_upper, any_digit, any_upper, base_of, bits_of, encode, field_day_payload, grid_value,
    is_plain, joined_words, lemma_whole_base, payload_of, payload_of_text, push_wide_bits,
    standard_payload, token_value, words_payload,
};
use crate::quantities::{HZ_50, HZ_950, HZ_1000, HZ_5000};
use crate::single::{finite, from_zero_to, is_finite, is_from_zero_to, negate, negated};
use crate::symbols::{scramble_ft4, scrambled};
use crate::text::{
    ascii_digit, ascii_upper, is_digit, is_upper, same, starts_with, trim, trimmed, upper,
    upper_char, uppercase, uppercased, words,
};
use crate::wire::{remembered, silence, unpacked, History};

verus! {

/// How much receive assistance is asked for.
#[derive(Clone, Copy, Debug, PartialEq, Eq, Structural)]
pub enum ApMode {
    Off,
    Cq,
    Auto,
}

impl Default for ApMode {
    fn default() -> (r: Self)
        ensures
            r == ApMode::Off,
    {
        ApMode::Off
    }
}

impl ApMode {
    pub open spec fn spec_name(self) -> Seq<char> {
        match self {
            ApMode::Off => "off"@,
            ApMode::Cq => "cq"@,
            ApMode::Auto => "auto"@,
        }
    }

    pub fn name(self) -> (r: &'static str)
        ensures
            r@ == self.spec_name(),
    {
        match self {
            ApMode::Off => "off",
            ApMode::Cq => "cq",
            ApMode::Auto => "auto",
        }
    }

    /// The value of a name, where there is one.
    pub open spec fn of_name(value: Seq<char>) -> Option<Self> {
        if value == "off"@ {
            Some(ApMode::Off)
        } else if value == "cq"@ {
            Some(ApMode::Cq)
        } else if value == "auto"@ {
            Some(ApMode::Auto)
        } else {
            None
        }
    }

    /// Reads a name.
    pub fn parse(value: &str) -> (r: Result<Self, String>)
        ensures
            match r {
                Ok(found) => ApMode::of_name(value@) == Some(found),
                Err(error) => ApMode::of_name(value@) is None && error@ == "invalid ApMode: "@ + value@,
            },
    {
        if same(value, "off") {
            Ok(ApMode::Off)
        } else if same(value, "cq") {
            Ok(ApMode::Cq)
        } else if same(value, "auto") {
            Ok(ApMode::Auto)
        } else {
            let mut error: String = "invalid ApMode: ".to_owned();
            error.append(value);
            Err(error)
        }
    }
}

impl std::str::FromStr for ApMode {
    type Err = String;

    fn from_str(value: &str) -> (r: Result<Self, String>)
        ensures
            match r {
                Ok(found) => ApMode::of_name(value@) == Some(found),
                Err(error) => ApMode::of_name(value@) is None && error@
                    == "invalid ApMode: "@ + value@,
            },
    {
        ApMode::parse(value)
    }
}

/// How far a contact has come.
#[derive(Clone, Copy, Debug, PartialEq, Eq, Structural)]
pub enum ContactState {
    CallingCq,
    CallingStation,
    Report,
    RogerReport,
    Rogers,
    Signoff,
}

impl Default for ContactState {
    fn default() -> (r: Self)
        ensures
            r == ContactState::CallingCq,
    {
        ContactState::CallingCq
    }
}

impl ContactState {
    pub open spec fn spec_name(self) -> Seq<char> {
        match self {
            ContactState::CallingCq => "calling-cq"@,
            ContactState::CallingStation => "calling-station"@,
            ContactState::Report => "report"@,
            ContactState::RogerReport => "roger-report"@,
            ContactState::Rogers => "rogers"@,
            ContactState::Signoff => "signoff"@,
        }
    }

    pub fn name(self) -> (r: &'static str)
        ensures
            r@ == self.spec_name(),
    {
        match self {
            ContactState::CallingCq => "calling-cq",
            ContactState::CallingStation => "calling-station",
            ContactState::Report => "report",
            ContactState::RogerReport => "roger-report",
            ContactState::Rogers => "rogers",
            ContactState::Signoff => "signoff",
        }
    }

    /// The value of a name, where there is one.
    pub open spec fn of_name(value: Seq<char>) -> Option<Self> {
        if value == "calling-cq"@ {
            Some(ContactState::CallingCq)
        } else if value == "calling-station"@ {
            Some(ContactState::CallingStation)
        } else if value == "report"@ {
            Some(ContactState::Report)
        } else if value == "roger-report"@ {
            Some(ContactState::RogerReport)
        } else if value == "rogers"@ {
            Some(ContactState::Rogers)
        } else if value == "signoff"@ {
            Some(ContactState::Signoff)
        } else {
            None
        }
    }

    /// Reads a name.
    pub fn parse(value: &str) -> (r: Result<Self, String>)
        ensures
            match r {
                Ok(found) => ContactState::of_name(value@) == Some(found),
                Err(error) => ContactState::of_name(value@) is None && error@ == "invalid ContactState: "@ + value@,
            },
    {
        if same(value, "calling-cq") {
            Ok(ContactState::CallingCq)
        } else if same(value, "calling-station") {
            Ok(ContactState::CallingStation)
        } else if same(value, "report") {
            Ok(ContactState::Report)
        } else if same(value, "roger-report") {
            Ok(ContactState::RogerReport)
        } else if same(value, "rogers") {
            Ok(ContactState::Rogers)
        } else if same(value, "signoff") {
            Ok(ContactState::Signoff)
        } else {
            let mut error: String = "invalid ContactState: ".to_owned();
            error.append(value);
            Err(error)
        }
    }
}

impl std::str::FromStr for ContactState {
    type Err = String;

    fn from_str(value: &str) -> (r: Result<Self, String>)
        ensures
            match r {
                Ok(found) => ContactState::of_name(value@) == Some(found),
                Err(error) => ContactState::of_name(value@) is None && error@
                    == "invalid ContactState: "@ + value@,
            },
    {
        ContactState::parse(value)
    }
}

/// The operating activity.
#[derive(Clone, Copy, Debug, PartialEq, Eq, Structural)]
pub enum Activity {
    Normal,
    NaVhf,
    EuVhf,
    FieldDay,
    Rtty,
    WwDigi,
    Fox,
    Hound,
    ArrlDigi,
}

impl Default for Activity {
    fn default() -> (r: Self)
        ensures
            r == Activity::Normal,
    {
        Activity::Normal
    }
}

impl Activity {
    pub open spec fn spec_name(self) -> Seq<char> {
        match self {
            Activity::Normal => "normal"@,
            Activity::NaVhf => "na-vhf"@,
            Activity::EuVhf => "eu-vhf"@,
            Activity::FieldDay => "field-day"@,
            Activity::Rtty => "rtty"@,
            Activity::WwDigi => "ww-digi"@,
            Activity::Fox => "fox"@,
            Activity::Hound => "hound"@,
            Activity::ArrlDigi => "arrl-digi"@,
        }
    }

    pub fn name(self) -> (r: &'static str)
        ensures
            r@ == self.spec_name(),
    {
        match self {
            Activity::Normal => "normal",
            Activity::NaVhf => "na-vhf",
            Activity::EuVhf => "eu-vhf",
            Activity::FieldDay => "field-day",
            Activity::Rtty => "rtty",
            Activity::WwDigi => "ww-digi",
            Activity::Fox => "fox",
            Activity::Hound => "hound",
            Activity::ArrlDigi => "arrl-digi",
        }
    }

    /// The value of a name, where there is one.
    pub open spec fn of_name(value: Seq<char>) -> Option<Self> {
        if value == "normal"@ {
            Some(Activity::Normal)
        } else if value == "na-vhf"@ {
            Some(Activity::NaVhf)
        } else if value == "eu-vhf"@ {
            Some(Activity::EuVhf)
        } else if value == "field-day"@ {
            Some(Activity::FieldDay)
        } else if value == "rtty"@ {
            Some(Activity::Rtty)
        } else if value == "ww-digi"@ {
            Some(Activity::WwDigi)
        } else if value == "fox"@ {
            Some(Activity::Fox)
        } else if value == "hound"@ {
            Some(Activity::Hound)
        } else if value == "arrl-digi"@ {
            Some(Activity::ArrlDigi)
        } else {
            None
        }
    }

    /// Reads a name.
    pub fn parse(value: &str) -> (r: Result<Self, String>)
        ensures
            match r {
                Ok(found) => Activity::of_name(value@) == Some(found),
                Err(error) => Activity::of_name(value@) is None && error@ == "invalid Activity: "@ + value@,
            },
    {
        if same(value, "normal") {
            Ok(Activity::Normal)
        } else if same(value, "na-vhf") {
            Ok(Activity::NaVhf)
        } else if same(value, "eu-vhf") {
            Ok(Activity::EuVhf)
        } else if same(value, "field-day") {
            Ok(Activity::FieldDay)
        } else if same(value, "rtty") {
            Ok(Activity::Rtty)
        } else if same(value, "ww-digi") {
            Ok(Activity::WwDigi)
        } else if same(value, "fox") {
            Ok(Activity::Fox)
        } else if same(value, "hound") {
            Ok(Activity::Hound)
        } else if same(value, "arrl-digi") {
            Ok(Activity::ArrlDigi)
        } else {
            let mut error: String = "invalid Activity: ".to_owned();
            error.append(value);
            Err(error)
        }
    }

    /// The number of the activity.
    pub open spec fn number(self) -> u8 {
        match self {
            Activity::Normal => 0,
            Activity::NaVhf => 1,
            Activity::EuVhf => 2,
            Activity::FieldDay => 3,
            Activity::Rtty => 4,
            Activity::WwDigi => 5,
            Activity::Fox => 6,
            Activity::Hound => 7,
            Activity::ArrlDigi => 8,
        }
    }

    pub fn native(self) -> (r: u8)
        ensures
            r == self.number(),
    {
        match self {
            Activity::Normal => 0,
            Activity::NaVhf => 1,
            Activity::EuVhf => 2,
            Activity::FieldDay => 3,
            Activity::Rtty => 4,
            Activity::WwDigi => 5,
            Activity::Fox => 6,
            Activity::Hound => 7,
            Activity::ArrlDigi => 8,
        }
    }
}

impl std::str::FromStr for Activity {
    type Err = String;

    fn from_str(value: &str) -> (r: Result<Self, String>)
        ensures
            match r {
                Ok(found) => Activity::of_name(value@) == Some(found),
                Err(error) => Activity::of_name(value@) is None && error@
                    == "invalid Activity: "@ + value@,
            },
    {
        Activity::parse(value)
    }
}

/// What the receiver knows of the contact. Frequencies are bit patterns of
/// single precision values in hertz.
#[derive(Clone, Debug, PartialEq, Eq)]
pub struct ApSettings {
    pub mode: ApMode,
    pub my_call: Option<String>,
    pub dx_call: Option<String>,
    pub dx_grid: Option<String>,
    pub state: ContactState,
    pub activity: Activity,
    pub width_hz: u32,
    pub tx_hz: Option<u32>,
    pub known_calls: Vec<String>,
}

/// No assistance.
pub open spec fn initial_assistance() -> ApModel {
    ApModel {
        mode: ApMode::Off,
        my_call: None,
        dx_call: None,
        dx_grid: None,
        state: ContactState::CallingCq,
        activity: Activity::Normal,
        width_hz: HZ_50,
        tx_hz: None,
        known_calls: Seq::empty(),
    }
}

impl Default for ApSettings {
    fn default() -> (r: Self)
        ensures
            r.deep_view() == initial_assistance(),
    {
        let r = ApSettings {
            mode: ApMode::Off,
            my_call: None,
            dx_call: None,
            dx_grid: None,
            state: ContactState::CallingCq,
            activity: Activity::Normal,
            width_hz: HZ_50,
            tx_hz: None,
            known_calls: Vec::new(),
        };
        assert(r.deep_view() =~= initial_assistance());
        r
    }
}

// ---------------------------------------------------------------------------
// Validation
// ---------------------------------------------------------------------------

/// A letter, a digit or the stroke, in either case.
pub open spec fn is_hint_char(c: char) -> bool {
    is_call_char(upper(c))
}

/// A call that may serve as a hint: of bounded length, with a letter and a
/// digit, and with at most one stroke that stands at neither end.
pub open spec fn is_hint(call: Seq<char>, longest: nat) -> bool {
    let bare = without_brackets(trim(call));
    &&& 3 <= bare.len() <= longest
    &&& forall|i: int| 0 <= i < bare.len() ==> is_hint_char(#[trigger] bare[i])
    &&& any_upper(uppercase(bare))
    &&& any_digit(bare)
    &&& bare[0] != '/'
    &&& bare.last() != '/'
    &&& forall|i: int, j: int| 0 <= i < j < bare.len() ==> !(bare[i] == '/' && bare[j] == '/')
}

/// A locator of four or six characters in either case.
pub open spec fn is_locator(grid: Seq<char>) -> bool {
    let g = uppercase(grid);
    &&& g.len() == 4 || g.len() == 6
    &&& 'A' <= g[0] <= 'R'
    &&& 'A' <= g[1] <= 'R'
    &&& is_digit(g[2])
    &&& is_digit(g[3])
    &&& g.len() == 6 ==> 'A' <= g[4] <= 'X' && 'A' <= g[5] <= 'X'
}

/// The first known call that is no hint, from `from` on; the length without one.
pub open spec fn first_bad_call(calls: Seq<Seq<char>>, from: int) -> int
    decreases calls.len() - from,
{
    if from >= calls.len() || !is_hint(calls[from], 13) {
        from
    } else {
        first_bad_call(calls, from + 1)
    }
}

pub open spec fn bad_call(call: Seq<char>) -> Option<Seq<char>> {
    Some("invalid assistance callsign: "@ + call)
}

/// A frequency that is finite and within zero and `high`.
pub open spec fn within(hz: u32, high: u32) -> bool {
    finite(hz) && from_zero_to(hz, high)
}

/// The settings as plain sequences.
#[verifier::ext_equal]
pub struct ApModel {
    pub mode: ApMode,
    pub my_call: Option<Seq<char>>,
    pub dx_call: Option<Seq<char>>,
    pub dx_grid: Option<Seq<char>>,
    pub state: ContactState,
    pub activity: Activity,
    pub width_hz: u32,
    pub tx_hz: Option<u32>,
    pub known_calls: Seq<Seq<char>>,
}

impl DeepView for ApSettings {
    type V = ApModel;

    open spec fn deep_view(&self) -> ApModel {
        ApModel {
            mode: self.mode,
            my_call: self.my_call.deep_view(),
            dx_call: self.dx_call.deep_view(),
            dx_grid: self.dx_grid.deep_view(),
            state: self.state,
            activity: self.activity,
            width_hz: self.width_hz,
            tx_hz: self.tx_hz,
            known_calls: self.known_calls.deep_view(),
        }
    }
}

impl ApModel {
    /// What is wrong with the settings, if anything.
    pub open spec fn complaint(self) -> Option<Seq<char>> {
        let bad = first_bad_call(self.known_calls, 0);
        if self.my_call matches Some(call) && !is_hint(call, 11) {
            bad_call(self.my_call->0)
        } else if self.dx_call matches Some(call) && !is_hint(call, 11) {
            bad_call(self.dx_call->0)
        } else if bad < self.known_calls.len() {
            bad_call(self.known_calls[bad])
        } else if self.known_calls.len() > 400 {
            Some("known_calls is limited to 400 entries"@)
        } else if self.dx_grid matches Some(grid) && !is_locator(grid) {
            Some("dx_grid must be a four- or six-character Maidenhead locator"@)
        } else if !within(self.width_hz, HZ_1000) {
            Some("ap_width_hz must be within 0..1000 Hz"@)
        } else if self.tx_hz matches Some(hz) && !within(hz, HZ_5000) {
            Some("tx_hz must be within 0..5000 Hz"@)
        } else {
            None
        }
    }
}

impl ApSettings {
    /// What is wrong with the settings, if anything.
    pub open spec fn complaint(&self) -> Option<Seq<char>> {
        self.deep_view().complaint()
    }

    /// A copy of the settings.
    pub fn copied(&self) -> (r: Self)
        ensures
            r.deep_view() == self.deep_view(),
    {
        let mut known: Vec<String> = Vec::new();
        let mut i: usize = 0;
        while i < self.known_calls.len()
            invariant
                i <= self.known_calls.len(),
                known.deep_view() =~= self.known_calls.deep_view().take(i as int),
            decreases self.known_calls.len() - i,
        {
            let call: String = self.known_calls[i].clone();
            let ghost before = known.deep_view();
            known.push(call);
            assert(known.deep_view() =~= before.push(call@));
            i = i + 1;
        }
        let r = ApSettings {
            mode: self.mode,
            my_call: self.my_call.clone(),
            dx_call: self.dx_call.clone(),
            dx_grid: self.dx_grid.clone(),
            state: self.state,
            activity: self.activity,
            width_hz: self.width_hz,
            tx_hz: self.tx_hz,
            known_calls: known,
        };
        assert(r.deep_view() =~= self.deep_view());
        r
    }

    pub fn validate(&self) -> (r: Result<(), String>)
        ensures
            match r {
                Ok(_) => self.complaint() is None,
                Err(error) => self.complaint() == Some(error@),
            },
    {
        match &self.my_call {
            Some(call) => {
                if !hint(call.as_str(), 11) {
                    return Err(bad_call_text(call.as_str()));
                }
            },
            None => {},
        }
        match &self.dx_call {
            Some(call) => {
                if !hint(call.as_str(), 11) {
                    return Err(bad_call_text(call.as_str()));
                }
            },
            None => {},
        }
        let mut i: usize = 0;
        while i < self.known_calls.len()
            invariant
                i <= self.known_calls.len(),
                self.my_call.deep_view() matches Some(call) ==> is_hint(call, 11),
                self.dx_call.deep_view() matches Some(call) ==> is_hint(call, 11),
                first_bad_call(self.known_calls.deep_view(), 0) == first_bad_call(
                    self.known_calls.deep_view(),
                    i as int,
                ),
            decreases self.known_calls.len() - i,
        {
            assert(self.known_calls.deep_view()[i as int] == self.known_calls@[i as int]@);
            if !hint(self.known_calls[i].as_str(), 13) {
                return Err(bad_call_text(self.known_calls[i].as_str()));
            }
            i = i + 1;
        }
        if self.known_calls.len() > 400 {
            return Err("known_calls is limited to 400 entries".to_owned());
        }
        match &self.dx_grid {
            Some(grid) => {
                if !locator(grid.as_str()) {
                    return Err(
                        "dx_grid must be a four- or six-character Maidenhead locator".to_owned(),
                    );
                }
            },
            None => {},
        }
        if !inside(self.width_hz, HZ_1000) {
            return Err("ap_width_hz must be within 0..1000 Hz".to_owned());
        }
        match self.tx_hz {
            Some(hz) => {
                if !inside(hz, HZ_5000) {
                    return Err("tx_hz must be within 0..5000 Hz".to_owned());
                }
            },
            None => {},
        }
        Ok(())
    }

    /// The contact state's schedule of hypothesis types.
    pub open spec fn schedule(&self, mode: Mode) -> Seq<u8> {
        if self.mode == ApMode::Off {
            seq![]
        } else if self.mode == ApMode::Cq {
            seq![1u8]
        } else {
            match self.state {
                ContactState::CallingCq => seq![1u8, 2],
                ContactState::CallingStation => seq![2u8, 3],
                ContactState::Report => seq![2u8, 3],
                ContactState::RogerReport => if mode == Mode::Ft8 {
                    seq![3u8, 4, 5, 6]
                } else {
                    seq![3u8, 6]
                },
                ContactState::Rogers => if mode == Mode::Ft8 {
                    seq![3u8, 4, 5, 6]
                } else {
                    seq![3u8, 6]
                },
                ContactState::Signoff => seq![3u8, 1, 2],
            }
        }
    }

    /// Whether a candidate stands within the assistance width of the receive or the
    /// transmit frequency.
    pub fn targeted(&self, frequency: u32, rx: Option<u32>) -> (r: bool)
        ensures
            r == (is_targeted(*self, frequency, rx) || is_targeted(*self, frequency, self.tx_hz)),
    {
        near(rx, frequency, self.width_hz) || near(self.tx_hz, frequency, self.width_hz)
    }

    /// The hypotheses of each contact state, in order. CQ-only bypasses station
    /// hints.
    pub fn types(&self, mode: Mode) -> (r: Vec<u8>)
        ensures
            r@ == self.schedule(mode),
    {
        let mut out: Vec<u8> = Vec::new();
        if self.mode == ApMode::Off {
        } else if self.mode == ApMode::Cq {
            out.push(1);
        } else {
            match self.state {
                ContactState::CallingCq => {
                    out.push(1);
                    out.push(2);
                },
                ContactState::CallingStation | ContactState::Report => {
                    out.push(2);
                    out.push(3);
                },
                ContactState::RogerReport | ContactState::Rogers => {
                    out.push(3);
                    if mode == Mode::Ft8 {
                        out.push(4);
                        out.push(5);
                    }
                    out.push(6);
                },
                ContactState::Signoff => {
                    out.push(3);
                    out.push(1);
                    out.push(2);
                },
            }
        }
        assert(out@ =~= self.schedule(mode));
        out
    }
}

fn near(center: Option<u32>, frequency: u32, width: u32) -> (r: bool)
    ensures
        r == (center matches Some(hz) && crate::single::within(hz, frequency, width)),
{
    match center {
        Some(hz) => crate::single::is_within(hz, frequency, width),
        None => false,
    }
}

pub fn inside(hz: u32, high: u32) -> (r: bool)
    ensures
        r == within(hz, high),
{
    is_finite(hz) && is_from_zero_to(hz, high)
}

fn bad_call_text(call: &str) -> (r: String)
    ensures
        Some(r@) == bad_call(call@),
{
    let mut error: String = "invalid assistance callsign: ".to_owned();
    error.append(call);
    error
}

fn hint(call: &str, longest: usize) -> (r: bool)
    ensures
        r == is_hint(call@, longest as nat),
{
    let inner: &str = trimmed(call);
    let length: usize = inner.unicode_len();
    let bare: &str = if length > 0 && inner.get_char(0) == '<' && inner.get_char(length - 1)
        == '>' {
        inner.substring_char(1, length - 1)
    } else {
        inner
    };
    let n: usize = bare.unicode_len();
    if n < 3 || n > longest {
        return false;
    }
    let mut letter: bool = false;
    let mut digit: bool = false;
    let mut stroke: bool = false;
    let mut i: usize = 0;
    let ghost big = uppercase(bare@);
    while i < n
        invariant
            i <= n,
            n == bare@.len(),
            big == uppercase(bare@),
            bare@ == without_brackets(trim(call@)),
            letter == exists|k: int| 0 <= k < i && is_upper(#[trigger] big[k]),
            digit == exists|k: int| 0 <= k < i && is_digit(#[trigger] bare@[k]),
            stroke == exists|k: int| 0 <= k < i && #[trigger] bare@[k] == '/',
            forall|k: int| 0 <= k < i ==> is_hint_char(#[trigger] bare@[k]),
            forall|k: int, j: int| 0 <= k < j < i ==> !(bare@[k] == '/' && bare@[j] == '/'),
        decreases n - i,
    {
        let c: char = bare.get_char(i);
        let large: char = upper_char(c);
        assert(big[i as int] == large);
        if !(ascii_upper(large) || ascii_digit(large) || large == '/') {
            assert(!is_hint_char(bare@[i as int]));
            return false;
        }
        if ascii_upper(large) {
            assert(is_upper(big[i as int]));
            letter = true;
        }
        if ascii_digit(c) {
            assert(is_digit(bare@[i as int]));
            digit = true;
        }
        if c == '/' {
            if stroke {
                proof {
                    let k = choose|k: int| 0 <= k < i && #[trigger] bare@[k] == '/';
                    assert(bare@[k] == '/' && bare@[i as int] == '/');
                }
                return false;
            }
            assert(bare@[i as int] == '/');
            stroke = true;
        }
        i = i + 1;
    }
    letter && digit && bare.get_char(0) != '/' && bare.get_char(n - 1) != '/'
}

fn locator(grid: &str) -> (r: bool)
    ensures
        r == is_locator(grid@),
{
    let n: usize = grid.unicode_len();
    if n != 4 && n != 6 {
        return false;
    }
    let large: String = uppercased(grid);
    let g: &str = large.as_str();
    let a: char = g.get_char(0);
    let b: char = g.get_char(1);
    if !('A' <= a && a <= 'R' && 'A' <= b && b <= 'R' && ascii_digit(g.get_char(2)) && ascii_digit(
        g.get_char(3),
    )) {
        return false;
    }
    if n == 6 {
        let e: char = g.get_char(4);
        let f: char = g.get_char(5);
        return 'A' <= e && e <= 'X' && 'A' <= f && f <= 'X';
    }
    true
}

// ---------------------------------------------------------------------------
// Call context
// ---------------------------------------------------------------------------

pub open spec fn is_angle(c: char) -> bool {
    c == '<' || c == '>'
}

pub open spec fn strip_front(s: Seq<char>) -> Seq<char>
    decreases s.len(),
{
    if s.len() > 0 && is_angle(s[0]) {
        strip_front(s.skip(1))
    } else {
        s
    }
}

pub open spec fn strip_back(s: Seq<char>) -> Seq<char>
    decreases s.len(),
{
    if s.len() > 0 && is_angle(s.last()) {
        strip_back(s.drop_last())
    } else {
        s
    }
}

/// A text without the angle brackets at its ends.
pub open spec fn stripped(s: Seq<char>) -> Seq<char> {
    strip_back(strip_front(s))
}

pub(crate) fn strip_angles<'a>(inner: &'a str) -> (r: &'a str)
    ensures
        r@ == stripped(inner@),
{
    let n: usize = inner.unicode_len();
    let mut i: usize = 0;
    assert(inner@.skip(0) =~= inner@);
    while i < n && (inner.get_char(i) == '<' || inner.get_char(i) == '>')
        invariant
            i <= n,
            n == inner@.len(),
            strip_front(inner@) == strip_front(inner@.skip(i as int)),
        decreases n - i,
    {
        assert(inner@.skip(i as int).skip(1) =~= inner@.skip(i + 1));
        i = i + 1;
    }
    let tail: &str = inner.substring_char(i, n);
    assert(tail@ =~= inner@.skip(i as int));
    let mut m: usize = tail.unicode_len();
    assert(tail@.take(m as int) =~= tail@);
    while m > 0 && (tail.get_char(m - 1) == '<' || tail.get_char(m - 1) == '>')
        invariant
            m <= tail@.len(),
            strip_back(tail@) == strip_back(tail@.take(m as int)),
        decreases m,
    {
        assert(tail@.take(m as int).drop_last() =~= tail@.take(m - 1));
        m = m - 1;
    }
    tail.substring_char(0, m)
}

/// A supplied call in capitals, without display brackets.
pub open spec fn bare_call(call: Seq<char>) -> Seq<char> {
    uppercase(stripped(trim(call)))
}

fn bare(call: &str) -> (r: String)
    ensures
        r@ == bare_call(call@),
{
    uppercased(strip_angles(trimmed(call)))
}

/// Place of the last digit among the first `n` bytes, -1 without one.
pub open spec fn last_digit_byte(s: Seq<u8>, n: nat) -> int
    decreases n,
{
    if n == 0 {
        -1
    } else if 48 <= s[n - 1] <= 57 {
        n - 1
    } else {
        last_digit_byte(s, (n - 1) as nat)
    }
}

pub open spec fn is_capital(b: u8) -> bool {
    65 <= b <= 90
}

/// Capitals among the bytes from `from` on.
pub open spec fn capitals(s: Seq<u8>, from: int) -> nat
    decreases s.len() - from,
{
    if from >= s.len() {
        0
    } else {
        capitals(s, from + 1) + (if is_capital(s[from]) {
            1nat
        } else {
            0nat
        })
    }
}

/// A call that is used without brackets in hypotheses. This deliberately differs
/// from wire packing.
pub open spec fn is_plain_call(s: Seq<u8>) -> bool {
    let area = last_digit_byte(s, s.len());
    &&& 1 <= area <= 2
    &&& exists|i: int| 0 <= i < area && is_capital(#[trigger] s[i])
    &&& capitals(s, area + 1) <= 3
}

fn native_stdcall(call: &str) -> (r: bool)
    ensures
        r == is_plain_call(encode_utf8(call@)),
{
    let b: &[u8] = call.as_bytes();
    let n: usize = b.len();
    let mut area: usize = n;
    while area > 0 && !(48 <= b[area - 1] && b[area - 1] <= 57)
        invariant
            area <= n,
            n == b@.len(),
            last_digit_byte(b@, n as nat) == last_digit_byte(b@, area as nat),
        decreases area,
    {
        area = area - 1;
    }
    if area != 2 && area != 3 {
        return false;
    }
    let place: usize = area - 1;
    let first: bool = 65 <= b[0] && b[0] <= 90;
    let second: bool = place == 2 && 65 <= b[1] && b[1] <= 90;
    if !first && !second {
        assert(forall|i: int| 0 <= i < place ==> !is_capital(#[trigger] b@[i]));
        return false;
    }
    assert(is_capital(b@[0]) || is_capital(b@[1]));
    let mut count: usize = 0;
    let mut i: usize = n;
    while i > area
        invariant
            area <= i <= n,
            n == b@.len(),
            count <= n - i,
            count == capitals(b@, i as int),
        decreases i,
    {
        i = i - 1;
        if 65 <= b[i] && b[i] <= 90 {
            count = count + 1;
        }
    }
    count <= 3
}

/// Place of a byte among the free text characters; zero for any other.
pub open spec fn text_index(b: u8) -> nat {
    if 48 <= b <= 57 {
        (b - 47) as nat
    } else if 65 <= b <= 90 {
        (b - 54) as nat
    } else if b == 43 {
        37
    } else if b == 45 {
        38
    } else if b == 46 {
        39
    } else if b == 47 {
        40
    } else if b == 63 {
        41
    } else {
        0
    }
}

/// Bytes in base 42.
pub open spec fn text_number(s: Seq<u8>) -> nat
    decreases s.len(),
{
    if s.len() == 0 {
        0
    } else {
        text_number(s.drop_last()) * 42 + text_index(s.last())
    }
}

pub open spec fn without_spaces_behind(s: Seq<u8>) -> Seq<u8>
    decreases s.len(),
{
    if s.len() > 0 && s.last() == 32 {
        without_spaces_behind(s.drop_last())
    } else {
        s
    }
}

pub open spec fn first_bytes(s: Seq<u8>) -> Seq<u8> {
    if s.len() > 13 {
        s.take(13)
    } else {
        s
    }
}

/// The first 13 bytes of a text as a free text payload.
pub open spec fn free_text_payload(text: Seq<char>) -> Seq<bool> {
    bits_of(text_number(without_spaces_behind(first_bytes(encode_utf8(text)))), 71) + bits_of(0, 6)
}

fn text_index_of(b: u8) -> (r: u128)
    ensures
        r == text_index(b),
        r < 42,
{
    if 48 <= b && b <= 57 {
        (b - 47) as u128
    } else if 65 <= b && b <= 90 {
        (b - 54) as u128
    } else if b == 43 {
        37
    } else if b == 45 {
        38
    } else if b == 46 {
        39
    } else if b == 47 {
        40
    } else if b == 63 {
        41
    } else {
        0
    }
}

fn free_text_bits(text: &str) -> (r: [bool; 77])
    ensures
        r@ == free_text_payload(text@),
{
    let b: &[u8] = text.as_bytes();
    let mut n: usize = if b.len() > 13 { 13 } else { b.len() };
    let ghost front = first_bytes(b@);
    assert(front.take(n as int) =~= front);
    while n > 0 && b[n - 1] == 32
        invariant
            n <= 13,
            n <= b@.len(),
            n <= front.len(),
            front == first_bytes(b@),
            without_spaces_behind(front) == without_spaces_behind(front.take(n as int)),
        decreases n,
    {
        assert(front.take(n as int).drop_last() =~= front.take(n - 1));
        n = n - 1;
    }
    let ghost kept = front.take(n as int);
    assert(without_spaces_behind(front) == kept);
    let mut value: u128 = 0;
    let mut i: usize = 0;
    assert(kept.take(0) =~= Seq::<u8>::empty());
    while i < n
        invariant
            i <= n,
            n <= 13,
            n <= b@.len(),
            kept == first_bytes(b@).take(n as int),
            kept.len() == n,
            value == text_number(kept.take(i as int)),
            i == 0 ==> value < 1,
            i == 1 ==> value < 42,
            i == 2 ==> value < 1764,
            i == 3 ==> value < 74088,
            i == 4 ==> value < 3111696,
            i == 5 ==> value < 130691232,
            i == 6 ==> value < 5489031744,
            i == 7 ==> value < 230539333248,
            i == 8 ==> value < 9682651996416,
            i == 9 ==> value < 406671383849472,
            i == 10 ==> value < 17080198121677824,
            i == 11 ==> value < 717368321110468608,
            i == 12 ==> value < 30129469486639681536,
            i == 13 ==> value < 1265437718438866624512,
        decreases n - i,
    {
        assert(kept.take(i + 1).drop_last() =~= kept.take(i as int));
        assert(kept[i as int] == b@[i as int]);
        value = value * 42 + text_index_of(b[i]);
        i = i + 1;
    }
    assert(kept.take(n as int) =~= kept);
    let mut bits: Vec<bool> = Vec::new();
    push_wide_bits(&mut bits, value, 71);
    push_wide_bits(&mut bits, 0, 6);
    assert(bits@ =~= free_text_payload(text@));
    payload_of(&bits)
}

/// What the hypotheses say of the contact: the payload of an exchange between
/// the two stations, and the ten bit hash of the other one.
pub struct ContextModel {
    pub bits: Seq<bool>,
    pub hash: nat,
}

pub open spec fn exchange_text(my: Seq<char>, dx: Seq<char>, mode: Mode) -> Seq<char> {
    (if mode == Mode::Ft8 && !is_plain_call(encode_utf8(my)) {
        "<"@ + my + ">"@
    } else {
        my
    }) + " "@ + dx + " "@ + (if mode == Mode::Ft8 {
        "RRR"@
    } else {
        "RR73"@
    })
}

/// The payload must be received as the exchange it was made from, unless the
/// activity goes without that.
pub open spec fn is_confirmed(
    text: Seq<char>,
    bits: Seq<bool>,
    history: History,
    mode: Mode,
    activity: Activity,
) -> bool {
    mode == Mode::Ft4 || activity.number() <= 5 || activity == Activity::Hound ==> {
        &&& bits.subrange(74, 77) == seq![false, false, true]
        &&& unpacked(history, bits) matches Ok(message) && (activity != Activity::Hound
            ==> message.text == text)
    }
}

pub open spec fn context_between(
    my: Seq<char>,
    dx: Seq<char>,
    mode: Mode,
    activity: Activity,
) -> Option<ContextModel> {
    let text = exchange_text(my, dx, mode);
    if normal_call(my) is None || normal_call(dx) is None {
        None
    } else {
        let history = remembered(
            remembered(silence(), normal_call(my)->0),
            normal_call(dx)->0,
        );
        let found = match payload_of_text(text) {
            Ok(bits) => Some(bits),
            Err(_) => if activity == Activity::ArrlDigi {
                Some(free_text_payload(text))
            } else {
                None
            },
        };
        match found {
            Some(bits) => if is_confirmed(text, bits, history, mode, activity) {
                Some(ContextModel { bits, hash: hash10(normal_call(dx)->0) })
            } else {
                None
            },
            None => None,
        }
    }
}

/// The other station's call, or the call that stands in for it.
pub open spec fn other_call(ap: ApSettings, my: Seq<char>, mode: Mode) -> Seq<char> {
    match ap.dx_call.deep_view() {
        Some(dx) => bare_call(dx),
        None => bare_call(
            if mode == Mode::Ft8 {
                "KA1ABC"@
            } else {
                my
            },
        ),
    }
}

pub open spec fn context_of(ap: ApSettings, mode: Mode) -> Option<ContextModel> {
    match ap.my_call.deep_view() {
        None => None,
        Some(call) => {
            let my = bare_call(call);
            context_between(my, other_call(ap, my, mode), mode, ap.activity)
        },
    }
}

spec fn context_view(r: Option<([bool; 77], u32)>) -> Option<ContextModel> {
    match r {
        Some(context) => Some(ContextModel { bits: context.0@, hash: context.1 as nat }),
        None => None,
    }
}

fn confirmed(
    text: &str,
    bits: &[bool; 77],
    decoder: &mut MessageDecoder,
    mode: Mode,
    activity: Activity,
) -> (r: bool)
    requires
        consistent(old(decoder)@),
    ensures
        r == is_confirmed(text@, bits@, old(decoder)@, mode, activity),
{
    if !(mode == Mode::Ft4 || activity.native() <= 5 || activity == Activity::Hound) {
        return true;
    }
    let standard: bool = !bits[74] && !bits[75] && bits[76];
    if !standard {
        proof {
            let tail = bits@.subrange(74, 77);
            if tail == seq![false, false, true] {
                assert(tail[0] == bits@[74] && tail[1] == bits@[75] && tail[2] == bits@[76]);
            }
        }
        return false;
    }
    assert(bits@.subrange(74, 77) =~= seq![false, false, true]);
    match decoder.unpack(bits) {
        Ok(message) => activity == Activity::Hound || same(message.text.as_str(), text),
        Err(_) => false,
    }
}

fn call_context(ap: &ApSettings, mode: Mode) -> (r: Option<([bool; 77], u32)>)
    ensures
        context_view(r) == context_of(*ap, mode),
{
    let my: String = match &ap.my_call {
        Some(call) => bare(call.as_str()),
        None => {
            return None;
        },
    };
    let dx: String = match &ap.dx_call {
        Some(call) => bare(call.as_str()),
        None => if mode == Mode::Ft8 {
            bare("KA1ABC")
        } else {
            bare(my.as_str())
        },
    };
    let mut decoder: MessageDecoder = MessageDecoder::default();
    match decoder.remember_call(my.as_str()) {
        Ok(_) => {},
        Err(_) => {
            return None;
        },
    }
    let hash: u32 = match decoder.remember_call(dx.as_str()) {
        Ok(hashes) => hashes[0],
        Err(_) => {
            return None;
        },
    };
    proof {
        crate::callsign::hashes_nest(normal_call(dx@)->0);
    }
    let mut text: String = String::new();
    if mode == Mode::Ft8 && !native_stdcall(my.as_str()) {
        text.append("<");
        text.append(my.as_str());
        text.append(">");
    } else {
        text.append(my.as_str());
    }
    text.append(" ");
    text.append(dx.as_str());
    text.append(" ");
    if mode == Mode::Ft8 {
        text.append("RRR");
    } else {
        text.append("RR73");
    }
    assert(text@ =~= exchange_text(my@, dx@, mode));
    let bits: [bool; 77] = match encode(text.as_str()) {
        Ok(bits) => bits,
        Err(_) => {
            if ap.activity != Activity::ArrlDigi {
                return None;
            }
            free_text_bits(text.as_str())
        },
    };
    if confirmed(text.as_str(), &bits, &mut decoder, mode, ap.activity) {
        Some((bits, hash))
    } else {
        None
    }
}

// ---------------------------------------------------------------------------
// Hypotheses
// ---------------------------------------------------------------------------

/// A native AP hypothesis. `bits` are in channel order (scrambled for FT4).
#[derive(Clone, Debug, PartialEq, Eq)]
pub struct ApHypothesis {
    pub ap_type: u8,
    pub mask: [bool; 174],
    pub bits: [bool; 77],
    /// Masked bits that keep their received likelihood.
    pub preserve: [bool; 77],
}

#[verifier::ext_equal]
pub struct HypothesisModel {
    pub ap_type: u8,
    pub mask: Seq<bool>,
    pub bits: Seq<bool>,
    pub preserve: Seq<bool>,
}

impl DeepView for ApHypothesis {
    type V = HypothesisModel;

    open spec fn deep_view(&self) -> HypothesisModel {
        HypothesisModel {
            ap_type: self.ap_type,
            mask: self.mask@,
            bits: self.bits@,
            preserve: self.preserve@,
        }
    }
}

pub open spec fn blank(ap_type: u8) -> HypothesisModel {
    HypothesisModel {
        ap_type,
        mask: Seq::new(174, |i: int| false),
        bits: Seq::new(77, |i: int| false),
        preserve: Seq::new(77, |i: int| false),
    }
}

/// The hypothesis with `values` assumed from bit `offset` on.
pub open spec fn assuming(h: HypothesisModel, offset: int, values: Seq<bool>) -> HypothesisModel {
    HypothesisModel {
        mask: Seq::new(174, |i: int| h.mask[i] || offset <= i < offset + values.len()),
        bits: Seq::new(
            77,
            |i: int|
                if offset <= i < offset + values.len() {
                    values[i - offset]
                } else {
                    h.bits[i]
                },
        ),
        ..h
    }
}

/// The hypothesis with `values` assumed in FT8 only.
pub open spec fn assuming_ft8(
    h: HypothesisModel,
    mode: Mode,
    offset: int,
    values: Seq<bool>,
) -> HypothesisModel {
    if mode == Mode::Ft8 {
        assuming(h, offset, values)
    } else {
        h
    }
}

/// The hypothesis with the subtype frozen in FT8 at its received likelihood.
pub open spec fn freezing_subtype(h: HypothesisModel, mode: Mode) -> HypothesisModel {
    if mode == Mode::Ft8 {
        HypothesisModel {
            mask: Seq::new(174, |i: int| h.mask[i] || 71 <= i < 74),
            preserve: Seq::new(77, |i: int| h.preserve[i] || 71 <= i < 74),
            ..h
        }
    } else {
        h
    }
}

/// The three bits of a message type.
pub open spec fn type_bits(n: nat) -> Seq<bool> {
    bits_of(n, 3)
}

/// The last bits of a rogered, final or closing exchange.
pub open spec fn closing_bits(ap_type: u8) -> Seq<bool> {
    if ap_type == 4 {
        bits_of(0b0111111010010010001, 19)
    } else if ap_type == 5 {
        bits_of(0b0111111010010100001, 19)
    } else {
        bits_of(0b0111111001110101001, 19)
    }
}

/// Hypothesis type 1: a CQ.
pub open spec fn cq_hypothesis(mode: Mode, cq: Seq<bool>) -> HypothesisModel {
    assuming_ft8(assuming(blank(1), 0, cq.take(29)), mode, 74, type_bits(1))
}

/// Hypothesis type 2: a message to this station.
pub open spec fn my_call_hypothesis(
    mode: Mode,
    activity: u8,
    calls: Seq<bool>,
    hash: nat,
) -> HypothesisModel {
    if activity == 2 {
        assuming_ft8(
            assuming_ft8(assuming(blank(2), 0, calls.take(28)), mode, 74, type_bits(0)),
            mode,
            71,
            type_bits(2),
        )
    } else if activity == 3 {
        assuming_ft8(assuming(blank(2), 0, calls.take(28)), mode, 74, type_bits(0))
    } else if activity == 4 {
        assuming_ft8(assuming(blank(2), 1, calls.take(28)), mode, 74, type_bits(3))
    } else if activity == 7 {
        assuming(
            assuming(assuming(blank(2), 28, calls.take(28)), 56, bits_of(hash, 10)),
            71,
            bits_of(8, 6),
        )
    } else {
        assuming_ft8(assuming(blank(2), 0, calls.take(29)), mode, 74, type_bits(1))
    }
}

/// Hypothesis type 3: a message between the two stations.
pub open spec fn both_calls_hypothesis(mode: Mode, activity: u8, calls: Seq<bool>) -> HypothesisModel {
    if activity == 3 {
        assuming_ft8(
            freezing_subtype(
                assuming(
                    assuming(blank(3), 0, calls.take(28)),
                    28,
                    calls.subrange(29, 57),
                ),
                mode,
            ),
            mode,
            74,
            type_bits(0),
        )
    } else if activity == 4 {
        assuming_ft8(
            assuming(assuming(blank(3), 1, calls.take(28)), 29, calls.subrange(29, 57)),
            mode,
            74,
            type_bits(3),
        )
    } else {
        assuming_ft8(assuming(blank(3), 0, calls.take(58)), mode, 74, type_bits(1))
    }
}

/// Hypothesis types 4 to 6: a closing message between the two stations.
pub open spec fn closing_hypothesis(
    ap_type: u8,
    mode: Mode,
    activity: u8,
    calls: Seq<bool>,
    hash: nat,
) -> HypothesisModel {
    if ap_type == 4 && activity == 7 {
        assuming(
            assuming(assuming(blank(4), 0, calls.take(28)), 56, bits_of(hash, 10)),
            71,
            bits_of(8, 6),
        )
    } else {
        assuming_ft8(assuming(blank(ap_type), 0, calls), mode, 58, closing_bits(ap_type))
    }
}

/// A hypothesis before scrambling.
pub open spec fn plain_hypothesis(
    ap_type: u8,
    mode: Mode,
    activity: u8,
    cq: Seq<bool>,
    context: Option<ContextModel>,
) -> HypothesisModel {
    let calls = match context {
        Some(found) => found.bits,
        None => cq,
    };
    let hash = match context {
        Some(found) => found.hash,
        None => 0,
    };
    if ap_type == 1 {
        cq_hypothesis(mode, cq)
    } else if ap_type == 2 {
        my_call_hypothesis(mode, activity, calls, hash)
    } else if ap_type == 3 {
        both_calls_hypothesis(mode, activity, calls)
    } else {
        closing_hypothesis(ap_type, mode, activity, calls, hash)
    }
}

/// A hypothesis in channel order.
pub open spec fn channel_hypothesis(h: HypothesisModel, mode: Mode) -> HypothesisModel {
    if mode == Mode::Ft4 {
        HypothesisModel { bits: scrambled(h.bits), ..h }
    } else {
        h
    }
}

/// Above 950 Hz.
pub open spec fn is_above_hound(frequency: u32) -> bool {
    HZ_950 < frequency <= 0x7f80_0000
}

/// The candidate stands within the assistance width of a frequency.
pub open spec fn is_targeted(ap: ApSettings, frequency: u32, center: Option<u32>) -> bool {
    center matches Some(hz) && crate::single::within(hz, frequency, ap.width_hz)
}

/// The candidate stands where a message of this contact is expected: near the
/// receive frequency, or in FT8 near the transmit frequency.
pub open spec fn is_expected(settings: DecodeSettings, mode: Mode, frequency: u32) -> bool {
    is_targeted(settings.ap, frequency, settings.priority_hz) || (mode == Mode::Ft8
        && is_targeted(settings.ap, frequency, settings.ap.tx_hz))
}

/// Assistance is off for the whole candidate.
pub open spec fn no_hypotheses(settings: DecodeSettings, mode: Mode, frequency: u32) -> bool {
    let activity = settings.ap.activity.number();
    ||| settings.assistance_in_force() == ApMode::Off
    ||| mode == Mode::Ft4 && settings.depth < 2
    ||| activity == 6
    ||| mode == Mode::Ft4 && activity >= 6
    ||| activity == 7 && is_above_hound(frequency)
}

/// A hypothesis type that is tried for the candidate.
pub open spec fn is_tried(
    settings: DecodeSettings,
    mode: Mode,
    frequency: u32,
    ap_type: u8,
    known: bool,
) -> bool {
    let activity = settings.ap.activity.number();
    let dx = settings.ap.dx_call is Some;
    &&& ap_type >= 3 && activity != 7 ==> is_expected(settings, mode, frequency)
    &&& ap_type >= 2 ==> known
    &&& ap_type >= 3 ==> dx
    &&& activity == 7 && ap_type >= 2 ==> dx
    &&& !(activity == 7 && ap_type == 5)
}

/// The CQ that an activity uses.
pub open spec fn cq_text(activity: Activity) -> Seq<char> {
    match activity {
        Activity::NaVhf => "CQ TEST K1ABC FN42"@,
        Activity::EuVhf => "CQ TEST K1ABC FN42"@,
        Activity::ArrlDigi => "CQ TEST K1ABC FN42"@,
        Activity::FieldDay => "CQ FD K1ABC FN42"@,
        Activity::Rtty => "CQ RU K1ABC FN42"@,
        Activity::WwDigi => "CQ WW K1ABC FN42"@,
        _ => "CQ K1ABC FN42"@,
    }
}

/// The hypotheses of the first `n` scheduled types.
pub open spec fn hypotheses_of(
    settings: DecodeSettings,
    mode: Mode,
    frequency: u32,
    types: Seq<u8>,
    cq: Seq<bool>,
    context: Option<ContextModel>,
    n: nat,
) -> Seq<HypothesisModel>
    decreases n,
{
    if n == 0 {
        Seq::empty()
    } else {
        let rest = hypotheses_of(settings, mode, frequency, types, cq, context, (n - 1) as nat);
        let ap_type = types[n - 1];
        if is_tried(settings, mode, frequency, ap_type, context is Some) {
            rest.push(
                channel_hypothesis(
                    plain_hypothesis(
                        ap_type,
                        mode,
                        settings.ap.activity.number(),
                        cq,
                        context,
                    ),
                    mode,
                ),
            )
        } else {
            rest
        }
    }
}

/// The bounded schedule of hypotheses for a candidate.
pub open spec fn expected_hypotheses(
    settings: DecodeSettings,
    mode: Mode,
    frequency: u32,
) -> Seq<HypothesisModel> {
    if no_hypotheses(settings, mode, frequency) {
        Seq::empty()
    } else {
        let types = settings.ap.schedule(mode);
        hypotheses_of(
            settings,
            mode,
            frequency,
            types,
            payload_of_text(cq_text(settings.ap.activity))->Ok_0,
            context_of(settings.ap, mode),
            types.len(),
        )
    }
}

impl ApHypothesis {
    fn blank(ap_type: u8) -> (r: Self)
        ensures
            r.deep_view() == blank(ap_type),
    {
        let r = ApHypothesis {
            ap_type,
            mask: [false; 174],
            bits: [false; 77],
            preserve: [false; 77],
        };
        assert(r.deep_view() =~= blank(ap_type));
        r
    }

    /// Assumes the bits `from..to` of `source` from `offset` on.
    fn set(&mut self, offset: usize, source: &[bool], from: usize, to: usize)
        requires
            from <= to <= source@.len(),
            offset + (to - from) <= 77,
        ensures
            final(self).deep_view() == assuming(
                old(self).deep_view(),
                offset as int,
                source@.subrange(from as int, to as int),
            ),
    {
        let count: usize = to - from;
        let ghost values = source@.subrange(from as int, to as int);
        let mut i: usize = 0;
        while i < count
            invariant
                i <= count,
                count == to - from,
                from <= to <= source@.len(),
                offset + count <= 77,
                values == source@.subrange(from as int, to as int),
                self.ap_type == old(self).ap_type,
                self.preserve@ == old(self).preserve@,
                forall|k: int|
                    0 <= k < 174 ==> #[trigger] self.mask@[k] == (old(self).mask@[k] || offset <= k
                        < offset + i),
                forall|k: int|
                    0 <= k < 77 ==> #[trigger] self.bits@[k] == (if offset <= k < offset + i {
                        values[k - offset]
                    } else {
                        old(self).bits@[k]
                    }),
            decreases count - i,
        {
            self.mask[offset + i] = true;
            self.bits[offset + i] = source[from + i];
            i = i + 1;
        }
        assert(self.deep_view() =~= assuming(old(self).deep_view(), offset as int, values));
    }

    fn set_number(&mut self, offset: usize, value: u64, width: usize)
        requires
            offset + width <= 77,
        ensures
            final(self).deep_view() == assuming(
                old(self).deep_view(),
                offset as int,
                bits_of(value as nat, width as nat),
            ),
    {
        let mut bits: Vec<bool> = Vec::new();
        push_wide_bits(&mut bits, value as u128, width);
        assert(bits@ =~= bits_of(value as nat, width as nat));
        assert(bits@.subrange(0, width as int) =~= bits@);
        self.set(offset, bits.as_slice(), 0, width);
    }

    fn freeze_subtype(&mut self)
        ensures
            final(self).deep_view() == freezing_subtype(old(self).deep_view(), Mode::Ft8),
    {
        self.mask[71] = true;
        self.mask[72] = true;
        self.mask[73] = true;
        self.preserve[71] = true;
        self.preserve[72] = true;
        self.preserve[73] = true;
        assert(self.deep_view() =~= freezing_subtype(old(self).deep_view(), Mode::Ft8));
    }

    /// The value that the hypothesis gives a bit, if any.
    pub open spec fn assumption(&self, i: int) -> Option<bool> {
        if i < 77 && self.mask@[i] && !self.preserve@[i] {
            Some(self.bits@[i])
        } else {
            None
        }
    }

    /// The likelihoods under the hypothesis: assumed bits get the given magnitude, as it is
    /// for one and with its sign flipped for zero; others stay as received. All are bit
    /// patterns of single precision values.
    pub fn apply(&self, llr: &[u32; 174], magnitude: u32) -> (r: [u32; 174])
        ensures
            forall|i: int|
                0 <= i < 174 ==> #[trigger] r@[i] == (match self.assumption(i) {
                    Some(true) => magnitude,
                    Some(false) => negated(magnitude),
                    None => llr@[i],
                }),
    {
        let minus: u32 = negate(magnitude);
        let mut out: [u32; 174] = *llr;
        let mut i: usize = 0;
        while i < 77
            invariant
                i <= 77,
                minus == negated(magnitude),
                forall|k: int|
                    0 <= k < 174 ==> #[trigger] out@[k] == (if k < i {
                        match self.assumption(k) {
                            Some(true) => magnitude,
                            Some(false) => negated(magnitude),
                            None => llr@[k],
                        }
                    } else {
                        llr@[k]
                    }),
            decreases 77 - i,
        {
            if self.mask[i] && !self.preserve[i] {
                out[i] = if self.bits[i] { magnitude } else { minus };
            }
            i = i + 1;
        }
        out
    }
}

fn build(
    ap_type: u8,
    mode: Mode,
    activity: u8,
    cq: &[bool; 77],
    context: &Option<([bool; 77], u32)>,
) -> (r: ApHypothesis)
    requires
        1 <= ap_type <= 6,
    ensures
        r.deep_view() == plain_hypothesis(ap_type, mode, activity, cq@, context_view(*context)),
{
    let calls: [bool; 77] = match context {
        Some(found) => found.0,
        None => *cq,
    };
    let hash: u64 = match context {
        Some(found) => found.1 as u64,
        None => 0,
    };
    let ft8: bool = mode == Mode::Ft8;
    let mut h: ApHypothesis = ApHypothesis::blank(ap_type);
    assert(calls@.subrange(0, 28) =~= calls@.take(28));
    assert(calls@.subrange(0, 29) =~= calls@.take(29));
    assert(calls@.subrange(0, 58) =~= calls@.take(58));
    assert(calls@.subrange(0, 77) =~= calls@);
    assert(cq@.subrange(0, 29) =~= cq@.take(29));
    if ap_type == 1 {
        h.set(0, cq, 0, 29);
        if ft8 {
            h.set_number(74, 1, 3);
        }
    } else if ap_type == 2 {
        if activity == 2 || activity == 3 {
            h.set(0, &calls, 0, 28);
            if ft8 {
                h.set_number(74, 0, 3);
                if activity == 2 {
                    h.set_number(71, 2, 3);
                }
            }
        } else if activity == 4 {
            h.set(1, &calls, 0, 28);
            if ft8 {
                h.set_number(74, 3, 3);
            }
        } else if activity == 7 {
            h.set(28, &calls, 0, 28);
            h.set_number(56, hash, 10);
            h.set_number(71, 8, 6);
        } else {
            h.set(0, &calls, 0, 29);
            if ft8 {
                h.set_number(74, 1, 3);
            }
        }
    } else if ap_type == 3 {
        if activity == 3 {
            h.set(0, &calls, 0, 28);
            h.set(28, &calls, 29, 57);
            if ft8 {
                h.freeze_subtype();
                h.set_number(74, 0, 3);
            }
        } else if activity == 4 {
            h.set(1, &calls, 0, 28);
            h.set(29, &calls, 29, 57);
            if ft8 {
                h.set_number(74, 3, 3);
            }
        } else {
            h.set(0, &calls, 0, 58);
            if ft8 {
                h.set_number(74, 1, 3);
            }
        }
    } else if ap_type == 4 && activity == 7 {
        h.set(0, &calls, 0, 28);
        h.set_number(56, hash, 10);
        h.set_number(71, 8, 6);
    } else {
        h.set(0, &calls, 0, 77);
        if ft8 {
            let closing: u64 = if ap_type == 4 {
                0b0111111010010010001
            } else if ap_type == 5 {
                0b0111111010010100001
            } else {
                0b0111111001110101001
            };
            h.set_number(58, closing, 19);
        }
    }
    h
}

/// Build the bounded schedule of hypotheses, with explicit receive context gates.
/// Known calls seed message hash resolution elsewhere; they do not add AP trials.
pub fn hypotheses(settings: &DecodeSettings, mode: Mode, frequency: u32) -> (r: Vec<ApHypothesis>)
    ensures
        r.deep_view() == expected_hypotheses(*settings, mode, frequency),
{
    let mut out: Vec<ApHypothesis> = Vec::new();
    assert(out.deep_view() =~= Seq::<HypothesisModel>::empty());
    let activity: u8 = settings.ap.activity.native();
    if settings.ap_mode() == ApMode::Off || (mode == Mode::Ft4 && settings.depth < 2) || activity
        == 6 || (mode == Mode::Ft4 && activity >= 6) || (activity == 7 && frequency > HZ_950
        && frequency <= 0x7f80_0000) {
        return out;
    }
    let context: Option<([bool; 77], u32)> = call_context(&settings.ap, mode);
    let text: &str = match settings.ap.activity {
        Activity::NaVhf | Activity::EuVhf | Activity::ArrlDigi => "CQ TEST K1ABC FN42",
        Activity::FieldDay => "CQ FD K1ABC FN42",
        Activity::Rtty => "CQ RU K1ABC FN42",
        Activity::WwDigi => "CQ WW K1ABC FN42",
        _ => "CQ K1ABC FN42",
    };
    let cq: [bool; 77] = match encode(text) {
        Ok(bits) => bits,
        Err(_) => {
            proof {
                lemma_cq_encodes(settings.ap.activity);
            }
            return out;
        },
    };
    let types: Vec<u8> = settings.ap.types(mode);
    let ghost found = context_view(context);
    let mut i: usize = 0;
    while i < types.len()
        invariant
            i <= types.len(),
            types@ == settings.ap.schedule(mode),
            activity == settings.ap.activity.number(),
            found == context_view(context),
            out.deep_view() == hypotheses_of(
                *settings,
                mode,
                frequency,
                types@,
                cq@,
                found,
                i as nat,
            ),
        decreases types.len() - i,
    {
        let ap_type: u8 = types[i];
        assert(1 <= ap_type <= 6);
        let expected: bool = if mode == Mode::Ft4 {
            near(settings.priority_hz, frequency, settings.ap.width_hz)
        } else {
            settings.ap.targeted(frequency, settings.priority_hz)
        };
        let dx: bool = settings.ap.dx_call.is_some();
        let tried: bool = !(ap_type >= 3 && activity != 7 && !expected) && !(ap_type >= 2
            && context.is_none()) && !(ap_type >= 3 && !dx) && !(activity == 7 && ap_type >= 2
            && !dx) && !(activity == 7 && ap_type == 5);
        if tried {
            let mut h: ApHypothesis = build(ap_type, mode, activity, &cq, &context);
            if mode == Mode::Ft4 {
                h.bits = scramble_ft4(&h.bits);
            }
            let ghost before = out.deep_view();
            out.push(h);
            assert(out.deep_view() =~= before.push(h.deep_view()));
        }
        i = i + 1;
    }
    out
}

// ---------------------------------------------------------------------------
// The fixed CQ messages
// ---------------------------------------------------------------------------

proof fn lemma_cq_words(first: Seq<char>)
    requires
        token_value(first) is Some,
        starts_with(first, "CQ"@),
    ensures
        words_payload(seq![first, "K1ABC"@, "FN42"@]) is Ok,
{
    reveal_strlit("K1ABC");
    reveal_strlit("FN42");
    reveal_strlit("RR73");
    reveal_strlit("/P");
    reveal_strlit("/R");
    let call = "K1ABC"@;
    let grid = "FN42"@;
    let w = seq![first, call, grid];
    lemma_k1abc();
    crate::round_trip::tokens_round_trip(silence(), first);
    crate::round_trip::lemma_token_shape(first);
    crate::round_trip::base_calls_round_trip(silence(), call);
    assert(grid_value(grid) is Some);
    crate::round_trip::grids_round_trip(grid);
    assert(!call.contains('/')) by {
        lemma_whole_base(call);
    }
    assert(call.skip(3)[0] == 'B');
    assert(grid[0] != "RR73"@[0]);
    assert(standard_payload(w) is Ok && standard_payload(w)->Ok_0 is Some);
    assert(field_day_payload(w) == Ok::<Option<Seq<bool>>, MessageError>(None));
}

proof fn lemma_k1abc()
    ensures
        base_of("K1ABC"@) == Some("K1ABC"@),
        "K1ABC"@[0] != 'Q',
{
    reveal_strlit("K1ABC");
    let call = "K1ABC"@;
    assert(is_upper(call[0]));
    assert(is_digit(call[1]));
    crate::text::lemma_find_char(call, '/');
    assert(all_call_chars(call));
}

proof fn lemma_cq_test()
    ensures
        payload_of_text("CQ TEST K1ABC FN42"@) is Ok,
{
    reveal_strlit("CQ");
    reveal_strlit("TEST");
    reveal_strlit("K1ABC");
    reveal_strlit("FN42");
    reveal_strlit("CQ TEST K1ABC FN42");
    lemma_directed_cq("TEST"@);
    assert("CQ TEST K1ABC FN42"@ =~= "CQ"@ + seq![' '] + "TEST"@ + seq![' '] + "K1ABC"@ + seq![' ']
        + "FN42"@);
}

proof fn lemma_cq_fd()
    ensures
        payload_of_text("CQ FD K1ABC FN42"@) is Ok,
{
    reveal_strlit("CQ");
    reveal_strlit("FD");
    reveal_strlit("K1ABC");
    reveal_strlit("FN42");
    reveal_strlit("CQ FD K1ABC FN42");
    lemma_directed_cq("FD"@);
    assert("CQ FD K1ABC FN42"@ =~= "CQ"@ + seq![' '] + "FD"@ + seq![' '] + "K1ABC"@ + seq![' ']
        + "FN42"@);
}

proof fn lemma_cq_ru()
    ensures
        payload_of_text("CQ RU K1ABC FN42"@) is Ok,
{
    reveal_strlit("CQ");
    reveal_strlit("RU");
    reveal_strlit("K1ABC");
    reveal_strlit("FN42");
    reveal_strlit("CQ RU K1ABC FN42");
    lemma_directed_cq("RU"@);
    assert("CQ RU K1ABC FN42"@ =~= "CQ"@ + seq![' '] + "RU"@ + seq![' '] + "K1ABC"@ + seq![' ']
        + "FN42"@);
}

proof fn lemma_cq_ww()
    ensures
        payload_of_text("CQ WW K1ABC FN42"@) is Ok,
{
    reveal_strlit("CQ");
    reveal_strlit("WW");
    reveal_strlit("K1ABC");
    reveal_strlit("FN42");
    reveal_strlit("CQ WW K1ABC FN42");
    lemma_directed_cq("WW"@);
    assert("CQ WW K1ABC FN42"@ =~= "CQ"@ + seq![' '] + "WW"@ + seq![' '] + "K1ABC"@ + seq![' ']
        + "FN42"@);
}

proof fn lemma_plain_words()
    ensures
        words(uppercase("CQ K1ABC FN42"@)) == seq!["CQ"@, "K1ABC"@, "FN42"@],
        uppercase("CQ K1ABC FN42"@) == "CQ K1ABC FN42"@,
{
    reveal_strlit("CQ");
    reveal_strlit("K1ABC");
    reveal_strlit("FN42");
    reveal_strlit("CQ K1ABC FN42");
    let text = "CQ K1ABC FN42"@;
    assert(text =~= "CQ"@ + seq![' '] + "K1ABC"@ + seq![' '] + "FN42"@);
    crate::text::lemma_three_words("CQ"@, "K1ABC"@, "FN42"@);
    assert(uppercase(text) =~= text);
}

proof fn lemma_plain_joined()
    ensures
        joined_words(seq!["CQ"@, "K1ABC"@, "FN42"@]) == Ok::<Seq<Seq<char>>, MessageError>(
            seq!["CQ"@, "K1ABC"@, "FN42"@],
        ),
{
    reveal_strlit("FN42");
    let grid = "FN42"@;
    assert(is_digit(grid[2]));
    assert(grid.skip(3)[0] == '2');
    crate::text::lemma_find_char(grid, '/');
    assert(base_of(grid) is None) by {
        assert(!is_upper(grid.skip(3)[0]));
    }
}

#[verifier::rlimit(30)]
proof fn lemma_cq_plain()
    ensures
        payload_of_text("CQ K1ABC FN42"@) is Ok,
{
    lemma_plain_words();
    lemma_plain_joined();
    assert(words_payload(seq!["CQ"@, "K1ABC"@, "FN42"@]) is Ok) by {
        reveal_strlit("CQ");
        assert("CQ"@.take(2) =~= "CQ"@);
        lemma_cq_words("CQ"@);
    }
    let w = seq!["CQ"@, "K1ABC"@, "FN42"@];
    assert forall|i: int| 0 <= i < w.len() implies (#[trigger] w[i]).len() <= 13 by {
        reveal_strlit("CQ");
        reveal_strlit("K1ABC");
        reveal_strlit("FN42");
    }
    reveal_strlit("CQ K1ABC FN42");
    reveal(payload_of_text);
}

/// Every CQ of the schedule encodes.
pub proof fn lemma_cq_encodes(activity: Activity)
    ensures
        payload_of_text(cq_text(activity)) is Ok,
{
    lemma_cq_test();
    lemma_cq_fd();
    lemma_cq_ru();
    lemma_cq_ww();
    lemma_cq_plain();
}

proof fn lemma_directed_cq(direction: Seq<char>)
    requires
        1 <= direction.len() <= 4,
        all_upper(direction),
    ensures
        payload_of_text(
            "CQ"@ + seq![' '] + direction + seq![' '] + "K1ABC"@ + seq![' '] + "FN42"@,
        ) is Ok,
{
    reveal_strlit("CQ");
    reveal_strlit("K1ABC");
    reveal_strlit("FN42");
    reveal_strlit("CQ_");
    reveal_strlit("DE");
    reveal_strlit("QRZ");
    reveal(payload_of_text);
    let space = seq![' '];
    let text = "CQ"@ + space + direction + space + "K1ABC"@ + space + "FN42"@;
    assert(forall|i: int| 0 <= i < direction.len() ==> is_upper(#[trigger] direction[i]));
    assert forall|i: int| 0 <= i < text.len() implies upper(text[i]) == text[i] && is_plain(
        #[trigger] text[i],
    ) by {
        if 3 <= i < 3 + direction.len() {
            assert(text[i] == direction[i - 3]);
            assert(is_upper(direction[i - 3]));
        }
    }
    assert(uppercase(text) =~= text);
    crate::text::lemma_four_words("CQ"@, direction, "K1ABC"@, "FN42"@);
    let w = seq!["CQ"@, direction, "K1ABC"@, "FN42"@];
    lemma_k1abc();
    let cq = "CQ_"@ + direction;
    assert(cq.take(3) =~= "CQ_"@);
    assert(cq.skip(3) =~= direction);
    assert(is_upper(direction[0]));
    assert(token_value(cq) is Some);
    assert(cq.take(2) =~= "CQ"@);
    lemma_cq_words(cq);
    assert(seq![cq] + w.skip(2) =~= seq![cq, "K1ABC"@, "FN42"@]);
}

/// A mode is read back from its name.
pub proof fn mode_names_are_read_back(mode: ApMode)
    ensures
        ApMode::of_name(mode.spec_name()) == Some(mode),
{
    reveal_strlit("off");
    reveal_strlit("cq");
    reveal_strlit("auto");
    assert("off"@.len() == 3 && "cq"@.len() == 2 && "auto"@.len() == 4);
}

/// A contact state is read back from its name.
pub proof fn state_names_are_read_back(state: ContactState)
    ensures
        ContactState::of_name(state.spec_name()) == Some(state),
{
    reveal_strlit("calling-cq");
    reveal_strlit("calling-station");
    reveal_strlit("report");
    reveal_strlit("roger-report");
    reveal_strlit("rogers");
    reveal_strlit("signoff");
    assert("calling-cq"@.len() == 10 && "calling-station"@.len() == 15);
    assert("report"@.len() == 6 && "roger-report"@.len() == 12);
    assert("rogers"@.len() == 6 && "signoff"@.len() == 7);
    assert("report"@[2] != "rogers"@[2]);
}

/// An activity is read back from its name.
pub proof fn activity_names_are_read_back(activity: Activity)
    ensures
        Activity::of_name(activity.spec_name()) == Some(activity),
{
    reveal_strlit("normal");
    reveal_strlit("na-vhf");
    reveal_strlit("eu-vhf");
    reveal_strlit("field-day");
    reveal_strlit("rtty");
    reveal_strlit("ww-digi");
    reveal_strlit("fox");
    reveal_strlit("hound");
    reveal_strlit("arrl-digi");
    assert("normal"@.len() == 6 && "na-vhf"@.len() == 6 && "eu-vhf"@.len() == 6);
    assert("field-day"@.len() == 9 && "arrl-digi"@.len() == 9);
    assert("rtty"@.len() == 4 && "ww-digi"@.len() == 7);
    assert("fox"@.len() == 3 && "hound"@.len() == 5);
    assert("normal"@[1] != "na-vhf"@[1]);
    assert("normal"@[0] != "eu-vhf"@[0]);
    assert("na-vhf"@[0] != "eu-vhf"@[0]);
    assert("field-day"@[0] != "arrl-digi"@[0]);
}

/// Assistance takes both the master gate and a mode; with only one of them nothing
/// is assumed.
pub proof fn assistance_takes_gate_and_mode(settings: DecodeSettings, mode: Mode, frequency: u32)
    requires
        !settings.assistance || settings.ap.mode == ApMode::Off,
    ensures
        expected_hypotheses(settings, mode, frequency).len() == 0,
{
}

/// Nothing is assumed for foxes, for special activities in FT4, in shallow FT4
/// searches, and for hounds above 950 Hz.
pub proof fn some_activities_are_not_assisted(
    settings: DecodeSettings,
    mode: Mode,
    frequency: u32,
)
    requires
        settings.ap.activity == Activity::Fox || (mode == Mode::Ft4 && (settings.depth < 2
            || settings.ap.activity == Activity::Hound || settings.ap.activity
            == Activity::ArrlDigi)) || (settings.ap.activity == Activity::Hound && is_above_hound(
            frequency,
        )),
    ensures
        expected_hypotheses(settings, mode, frequency).len() == 0,
{
}

proof fn lemma_hypothesis_types(
    settings: DecodeSettings,
    mode: Mode,
    frequency: u32,
    types: Seq<u8>,
    cq: Seq<bool>,
    context: Option<ContextModel>,
    n: nat,
)
    requires
        n <= types.len(),
    ensures
        ({
            let all = hypotheses_of(settings, mode, frequency, types, cq, context, n);
            &&& all.len() <= n
            &&& forall|i: int|
                0 <= i < all.len() ==> is_tried(
                    settings,
                    mode,
                    frequency,
                    (#[trigger] all[i]).ap_type,
                    context is Some,
                )
        }),
    decreases n,
{
    if n > 0 {
        lemma_hypothesis_types(
            settings,
            mode,
            frequency,
            types,
            cq,
            context,
            (n - 1) as nat,
        );
    }
}

/// Messages of a contact are assumed only where they are expected, and only with
/// both calls known.
pub proof fn contacts_are_assumed_near_their_frequency(
    settings: DecodeSettings,
    mode: Mode,
    frequency: u32,
    i: int,
)
    requires
        0 <= i < expected_hypotheses(settings, mode, frequency).len(),
        expected_hypotheses(settings, mode, frequency)[i].ap_type >= 3,
        settings.ap.activity != Activity::Hound,
    ensures
        is_expected(settings, mode, frequency),
        settings.ap.dx_call is Some,
        expected_hypotheses(settings, mode, frequency).len() <= 4,
{
    let types = settings.ap.schedule(mode);
    lemma_hypothesis_types(
        settings,
        mode,
        frequency,
        types,
        payload_of_text(cq_text(settings.ap.activity))->Ok_0,
        context_of(settings.ap, mode),
        types.len(),
    );
}

} // verus!
