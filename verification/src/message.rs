//! Receive-side 77-bit message handling for FT8 and FT4. Input is the recovered
//! source message (after FT4 descrambling).
use std::collections::VecDeque;
use vstd::arithmetic::power2::{lemma2_to64, lemma2_to64_rest, pow2};
use vstd::prelude::*;
use vstd::string::*;
use crate::callsign::{
    base_digits, base_text, call_hashes, hash10, hash12, hash22, normal_call, normalize_call,
    ALPHANUMERIC, CALL_ALPHABET, LETTERS, TEXT_ALPHABET,
};
use crate::message_tables::{multiplier, section, section_name};
use crate::text::{
    append_decimal, append_digits, append_hexadecimal, ascii_digit, ascii_upper, digit_char,
    has_char, has_prefix, is_upper, letter_char, same, starts_with_char, trim, trimmed, trimmed_end,
    trimmed_start,
};
use crate::wire::{
    call28, call_digits, enveloped, field_of, grid_of, grid_six_of, is_standard_call, last_digit,
    lookup, number, parsed, parsed_by_type, place_of, remembered, resolve, shown, signed_two,
    silence, station, taught, token_text, unpacked, with_hash, CallModel, FieldsModel, HashModel,
    History, MessageModel, Parsed, StationModel, HASH22_COUNT, TOKEN_COUNT,
};

verus! {

#[derive(Debug, Clone, Copy, PartialEq, Eq, Structural)]
pub enum MessageKind {
    FreeText,
    Standard,
    Dxpedition,
    FieldDay,
    Telemetry,
    Rtty,
    Nonstandard,
    Vhf,
    Wspr,
}

impl MessageKind {
    pub fn name(&self) -> (r: &'static str)
        ensures
            r@ == (match *self {
                MessageKind::FreeText => "free_text"@,
                MessageKind::Standard => "standard"@,
                MessageKind::Dxpedition => "dxpedition"@,
                MessageKind::FieldDay => "field_day"@,
                MessageKind::Telemetry => "telemetry"@,
                MessageKind::Rtty => "rtty"@,
                MessageKind::Nonstandard => "nonstandard"@,
                MessageKind::Vhf => "vhf"@,
                MessageKind::Wspr => "wspr"@,
            }),
    {
        match self {
            MessageKind::FreeText => "free_text",
            MessageKind::Standard => "standard",
            MessageKind::Dxpedition => "dxpedition",
            MessageKind::FieldDay => "field_day",
            MessageKind::Telemetry => "telemetry",
            MessageKind::Rtty => "rtty",
            MessageKind::Nonstandard => "nonstandard",
            MessageKind::Vhf => "vhf",
            MessageKind::Wspr => "wspr",
        }
    }
}

/// Content of a standard QSO exchange, not the receiver's contact state.
#[derive(Debug, Clone, Copy, PartialEq, Eq, Structural)]
pub enum ExchangeType {
    Cq,
    Qrz,
    De,
    Calls,
    Grid,
    RogerGrid,
    Report,
    RogerReport,
    Rrr,
    Rr73,
    Signoff,
}

impl ExchangeType {
    pub fn name(self) -> (r: &'static str)
        ensures
            r@ == (match self {
                ExchangeType::Cq => "cq"@,
                ExchangeType::Qrz => "qrz"@,
                ExchangeType::De => "de"@,
                ExchangeType::Calls => "calls"@,
                ExchangeType::Grid => "grid"@,
                ExchangeType::RogerGrid => "roger_grid"@,
                ExchangeType::Report => "report"@,
                ExchangeType::RogerReport => "roger_report"@,
                ExchangeType::Rrr => "rrr"@,
                ExchangeType::Rr73 => "rr73"@,
                ExchangeType::Signoff => "73"@,
            }),
    {
        match self {
            ExchangeType::Cq => "cq",
            ExchangeType::Qrz => "qrz",
            ExchangeType::De => "de",
            ExchangeType::Calls => "calls",
            ExchangeType::Grid => "grid",
            ExchangeType::RogerGrid => "roger_grid",
            ExchangeType::Report => "report",
            ExchangeType::RogerReport => "roger_report",
            ExchangeType::Rrr => "rrr",
            ExchangeType::Rr73 => "rr73",
            ExchangeType::Signoff => "73",
        }
    }
}

#[derive(Debug, Clone, Copy, PartialEq, Eq, Structural)]
pub enum MessageError {
    UnsupportedType,
    InvalidField,
    InvalidCallsign,
}

impl MessageError {
    /// The error as a sentence.
    pub fn text(&self) -> (r: &'static str)
        ensures
            r@ == (match *self {
                MessageError::UnsupportedType => "unsupported message type"@,
                MessageError::InvalidField => "invalid encoded message field"@,
                MessageError::InvalidCallsign => "invalid callsign"@,
            }),
    {
        match self {
            MessageError::UnsupportedType => "unsupported message type",
            MessageError::InvalidField => "invalid encoded message field",
            MessageError::InvalidCallsign => "invalid callsign",
        }
    }
}

#[derive(Debug, Clone, PartialEq, Eq)]
pub struct CallsignHash {
    pub width: u8,
    pub value: u32,
    pub resolved: Option<String>,
}

impl DeepView for CallsignHash {
    type V = HashModel;

    open spec fn deep_view(&self) -> HashModel {
        HashModel { width: self.width, value: self.value, resolved: self.resolved.deep_view() }
    }
}

#[derive(Debug, Clone, PartialEq, Eq)]
pub struct Station {
    /// Normalized callsign without display brackets; absent for unresolved hashes.
    pub call: Option<String>,
    pub hash: Option<CallsignHash>,
}

impl DeepView for Station {
    type V = StationModel;

    open spec fn deep_view(&self) -> StationModel {
        StationModel { call: self.call.deep_view(), hash: self.hash.deep_view() }
    }
}

/// Fields recovered during unpacking. Unclassified formats retain null exchange
/// metadata rather than deriving sequencing instructions from displayed text.
#[derive(Debug, Clone, PartialEq, Eq)]
pub struct MessageFields {
    pub exchange_type: Option<ExchangeType>,
    pub sender: Option<Station>,
    pub recipient: Option<Station>,
    pub cq_modifier: Option<String>,
    /// Signal report carried in a standard message, not measured receive SNR.
    pub report_db: Option<i32>,
}

impl DeepView for MessageFields {
    type V = FieldsModel;

    open spec fn deep_view(&self) -> FieldsModel {
        FieldsModel {
            exchange_type: self.exchange_type,
            sender: self.sender.deep_view(),
            recipient: self.recipient.deep_view(),
            cq_modifier: self.cq_modifier.deep_view(),
            report_db: self.report_db,
        }
    }
}

impl Default for MessageFields {
    fn default() -> (r: Self)
        ensures
            r.deep_view() == crate::wire::no_fields(),
    {
        MessageFields {
            exchange_type: None,
            sender: None,
            recipient: None,
            cq_modifier: None,
            report_db: None,
        }
    }
}

#[derive(Debug, Clone, PartialEq, Eq)]
pub struct Message {
    pub text: String,
    pub kind: MessageKind,
    pub grid: Option<String>,
    pub hashes: Vec<CallsignHash>,
    pub fields: MessageFields,
}

impl DeepView for Message {
    type V = MessageModel;

    open spec fn deep_view(&self) -> MessageModel {
        MessageModel {
            text: self.text@,
            kind: self.kind,
            grid: self.grid.deep_view(),
            hashes: self.hashes.deep_view(),
            fields: self.fields.deep_view(),
        }
    }
}

// ---------------------------------------------------------------------------
// Fields of a payload
// ---------------------------------------------------------------------------

pub proof fn lemma_number_bound(bits: Seq<bool>)
    ensures
        number(bits) < pow2(bits.len()),
    decreases bits.len(),
{
    if bits.len() == 0 {
        lemma2_to64();
    } else {
        lemma_number_bound(bits.drop_last());
        vstd::arithmetic::power2::lemma_pow2_unfold(bits.len());
    }
}

fn wide_field(bits: &[bool; 77], start: usize, width: usize) -> (r: u128)
    requires
        start + width <= 77,
        width <= 71,
    ensures
        r == field_of(bits@, start as int, width as int),
{
    let mut value: u128 = 0;
    let mut n: usize = 0;
    assert(bits@.subrange(start as int, start as int) =~= Seq::<bool>::empty());
    while n < width
        invariant
            n <= width,
            width <= 71,
            start + width <= 77,
            value == number(bits@.subrange(start as int, start + n)),
        decreases width - n,
    {
        proof {
            let s = bits@.subrange(start as int, start + n);
            lemma_number_bound(s);
            lemma2_to64();
            lemma2_to64_rest();
            vstd::arithmetic::power2::lemma_pow2_strictly_increases(n as nat, 72);
            vstd::arithmetic::power2::lemma_pow2_adds(36, 36);
            assert(bits@.subrange(start as int, start + n + 1).drop_last() =~= s);
        }
        value = 2 * value + (if bits[start + n] { 1 } else { 0 });
        n = n + 1;
    }
    value
}

/// The `width` bit number that starts at bit `start`.
fn get(bits: &[bool; 77], start: usize, width: usize) -> (r: u32)
    requires
        start + width <= 77,
        width <= 28,
    ensures
        r == field_of(bits@, start as int, width as int),
        r < 268435456,
        width <= 25 ==> r < 33554432,
        width <= 22 ==> r < 4194304,
        width <= 16 ==> r < 65536,
        width <= 15 ==> r < 32768,
        width <= 13 ==> r < 8192,
        width <= 12 ==> r < 4096,
        width <= 11 ==> r < 2048,
        width <= 10 ==> r < 1024,
        width <= 7 ==> r < 128,
        width <= 5 ==> r < 32,
        width <= 4 ==> r < 16,
        width <= 3 ==> r < 8,
        width <= 2 ==> r < 4,
{
    proof {
        let s = bits@.subrange(start as int, start + width);
        lemma_number_bound(s);
        lemma2_to64();
        let n = width as nat;
        vstd::arithmetic::power2::lemma_pow2_strictly_increases(n, 29);
        if n < 28 {
            vstd::arithmetic::power2::lemma_pow2_strictly_increases(n, 28);
        }
        if n < 25 {
            vstd::arithmetic::power2::lemma_pow2_strictly_increases(n, 25);
        }
        if n < 22 {
            vstd::arithmetic::power2::lemma_pow2_strictly_increases(n, 22);
        }
        if n < 16 {
            vstd::arithmetic::power2::lemma_pow2_strictly_increases(n, 16);
        }
        if n < 15 {
            vstd::arithmetic::power2::lemma_pow2_strictly_increases(n, 15);
        }
        if n < 13 {
            vstd::arithmetic::power2::lemma_pow2_strictly_increases(n, 13);
        }
        if n < 12 {
            vstd::arithmetic::power2::lemma_pow2_strictly_increases(n, 12);
        }
        if n < 11 {
            vstd::arithmetic::power2::lemma_pow2_strictly_increases(n, 11);
        }
        if n < 10 {
            vstd::arithmetic::power2::lemma_pow2_strictly_increases(n, 10);
        }
        if n < 7 {
            vstd::arithmetic::power2::lemma_pow2_strictly_increases(n, 7);
        }
        if n < 5 {
            vstd::arithmetic::power2::lemma_pow2_strictly_increases(n, 5);
        }
        if n < 4 {
            vstd::arithmetic::power2::lemma_pow2_strictly_increases(n, 4);
        }
        if n < 3 {
            vstd::arithmetic::power2::lemma_pow2_strictly_increases(n, 3);
        }
        if n < 2 {
            vstd::arithmetic::power2::lemma_pow2_strictly_increases(n, 2);
        }
    }
    wide_field(bits, start, width) as u32
}

fn append_signed(out: &mut String, n: i32)
    requires
        -99 <= n <= 99,
    ensures
        final(out)@ == old(out)@ + signed_two(n as int),
{
    let ghost before = out@;
    if n < 0 {
        out.append("-");
        append_digits(out, (-n) as u64, 2);
    } else {
        out.append("+");
        append_digits(out, n as u64, 2);
    }
    assert(out@ =~= before + signed_two(n as int));
}

fn grid_text(n: u32) -> (r: Option<String>)
    ensures
        match r {
            Some(text) => n < 32400 && text@ == grid_of(n as int),
            None => n >= 32400,
        },
{
    if n >= 32400 {
        return None;
    }
    let mut out: String = String::new();
    out.push(letter_char(n / 1800));
    out.push(letter_char(n / 100 % 18));
    out.push(digit_char(n / 10 % 10));
    out.push(digit_char(n % 10));
    assert(out@ =~= grid_of(n as int));
    Some(out)
}

fn grid_six_text(n: u32) -> (r: Option<String>)
    ensures
        match r {
            Some(text) => n / 576 < 32400 && text@ == grid_six_of(n as int),
            None => n / 576 >= 32400,
        },
{
    match grid_text(n / 576) {
        None => None,
        Some(mut out) => {
            out.push(letter_char(n / 24 % 24));
            out.push(letter_char(n % 24));
            Some(out)
        },
    }
}

// ---------------------------------------------------------------------------
// Call fields
// ---------------------------------------------------------------------------

fn copy_hash(hash: &CallsignHash) -> (r: CallsignHash)
    ensures
        r.deep_view() == hash.deep_view(),
{
    CallsignHash { width: hash.width, value: hash.value, resolved: hash.resolved.clone() }
}

impl Station {
    /// Called with an unpacked callsign field and its hash, never message text.
    fn from_field(call: &str, hash: &Option<CallsignHash>) -> (r: Option<Station>)
        requires
            call@.len() > 0 && call@[0] == '<' ==> hash is Some,
        ensures
            r.deep_view() == station(call@, hash.deep_view()),
    {
        if call.unicode_len() == 0 || same(call, "CQ") || same(call, "QRZ") || same(call, "DE")
            || has_prefix(call, "CQ ") || has_prefix(call, "CQ_") {
            return None;
        }
        if call.get_char(0) == '<' {
            match hash {
                Some(own) => Some(
                    Station { call: own.resolved.clone(), hash: Some(copy_hash(own)) },
                ),
                None => None,
            }
        } else {
            Some(Station { call: Some(call.to_owned()), hash: None })
        }
    }
}

/// A 28 bit call field.
struct CallField {
    text: String,
    hash: Option<CallsignHash>,
}

impl DeepView for CallField {
    type V = CallModel;

    closed spec fn deep_view(&self) -> CallModel {
        CallModel { text: self.text@, hash: self.hash.deep_view() }
    }
}

spec fn call_result(r: Result<CallField, MessageError>) -> Result<CallModel, MessageError> {
    match r {
        Ok(call) => Ok(call.deep_view()),
        Err(error) => Err(error),
    }
}

/// Only a hash is displayed with a bracket in front.
spec fn bracket_means_hash(call: CallModel) -> bool {
    call.text.len() > 0 && (call.text[0] == '<' <==> call.hash is Some)
}

fn push_hash(hashes: &mut Vec<CallsignHash>, call: &CallField)
    ensures
        final(hashes).deep_view() == with_hash(old(hashes).deep_view(), call.deep_view()),
{
    let ghost before = hashes.deep_view();
    match &call.hash {
        Some(hash) => {
            let own: CallsignHash = copy_hash(hash);
            hashes.push(own);
            assert(hashes.deep_view() =~= before.push(own.deep_view()));
        },
        None => {},
    }
}

fn standard_call(call: &str) -> (r: bool)
    ensures
        r == is_standard_call(call@),
{
    let n: usize = call.unicode_len();
    let mut area: usize = n;
    while area > 0 && !ascii_digit(call.get_char(area - 1))
        invariant
            area <= n,
            n == call@.len(),
            last_digit(call@, n as nat) == last_digit(call@, area as nat),
        decreases area,
    {
        area = area - 1;
    }
    if area != 2 && area != 3 {
        return false;
    }
    let place: usize = area - 1;
    let first: bool = ascii_upper(call.get_char(0));
    let lettered: bool = first || (place == 2 && ascii_upper(call.get_char(1)));
    if !lettered {
        assert(forall|i: int| 0 <= i < place ==> !is_upper(#[trigger] call@[i]));
        return false;
    }
    assert(is_upper(call@[0]) || is_upper(call@[1]));
    let mut i: usize = area;
    while i < n
        invariant
            area <= i <= n,
            n == call@.len(),
            area == place + 1,
            place == last_digit(call@, call@.len()),
            forall|k: int| place < k < i ==> is_upper(#[trigger] call@[k]),
        decreases n - i,
    {
        if !ascii_upper(call.get_char(i)) {
            assert(!is_upper(call@[i as int]));
            return false;
        }
        i = i + 1;
    }
    call.get_char(0) != 'Q' && !has_char(call, ' ') && n >= 3
}

fn call_characters(n: u32) -> (r: String)
    ensures
        r@ == call_digits(n as int),
{
    let mut out: String = String::new();
    out.push(CALL_ALPHABET[(n / 7085880 % 37) as usize]);
    out.push(ALPHANUMERIC[(n / 196830 % 36) as usize]);
    out.push(ALPHANUMERIC[(n / 19683 % 10) as usize]);
    out.push(LETTERS[(n / 729 % 27) as usize]);
    out.push(LETTERS[(n / 27 % 27) as usize]);
    out.push(LETTERS[(n % 27) as usize]);
    assert(out@ =~= call_digits(n as int));
    out
}

proof fn lemma_four_letters(value: nat)
    requires
        value < 531441,
    ensures
        crate::callsign::excess(value, 4, 27) == 0,
{
    reveal_with_fuel(crate::callsign::excess, 5);
}

fn token(value: u32) -> (r: Result<String, MessageError>)
    requires
        value < TOKEN_COUNT,
    ensures
        match (r, token_text(value as int)) {
            (Ok(text), Ok(expected)) => text@ == expected,
            (Err(error), Err(expected)) => error == expected,
            _ => false,
        },
{
    if value == 0 {
        Ok("DE".to_owned())
    } else if value == 1 {
        Ok("QRZ".to_owned())
    } else if value == 2 {
        Ok("CQ".to_owned())
    } else if value <= 1002 {
        let mut out: String = "CQ_".to_owned();
        append_digits(&mut out, (value - 3) as u64, 3);
        Ok(out)
    } else if value <= 532443 {
        proof {
            lemma_four_letters((value - 1003) as nat);
        }
        match base_text((value - 1003) as u128, 4, &LETTERS) {
            None => Err(MessageError::InvalidField),
            Some(letters) => {
                let mut out: String = "CQ_".to_owned();
                out.append(trimmed_start(letters.as_str()));
                let text: &str = trimmed_end(out.as_str());
                if has_char(text, ' ') {
                    Err(MessageError::InvalidField)
                } else {
                    Ok(text.to_owned())
                }
            },
        }
    } else {
        Err(MessageError::InvalidField)
    }
}

// ---------------------------------------------------------------------------
// The decoder
// ---------------------------------------------------------------------------

/// Receive-local callsign history. Ten/twelve-bit slots use the latest call;
/// the 22-bit history retains at most 1,000 distinct hashes, newest first.
#[derive(Clone)]
pub struct MessageDecoder {
    calls10: Vec<Option<String>>,
    calls12: Vec<Option<String>>,
    calls22: VecDeque<(u32, String)>,
}

/// What holds of every history: all slots are there, each call is in normal form
/// and stands where its hash says, and no 22 bit hash occurs twice.
pub open spec fn consistent(history: History) -> bool {
    &&& history.calls10.len() == 1024
    &&& history.calls12.len() == 4096
    &&& history.calls22.len() <= 1000
    &&& forall|i: int|
        0 <= i < 1024 ==> (#[trigger] history.calls10[i] matches Some(call) ==> hash10(call) == i
            && normal_call(call) == Some(call))
    &&& forall|i: int|
        0 <= i < 4096 ==> (#[trigger] history.calls12[i] matches Some(call) ==> hash12(call) == i
            && normal_call(call) == Some(call))
    &&& forall|i: int|
        0 <= i < history.calls22.len() ==> (#[trigger] history.calls22[i]).0 == hash22(
            history.calls22[i].1,
        ) && normal_call(history.calls22[i].1) == Some(history.calls22[i].1)
    &&& forall|i: int, j: int|
        0 <= i < j < history.calls22.len() ==> (#[trigger] history.calls22[i]).0 != (
        #[trigger] history.calls22[j]).0
}

impl View for MessageDecoder {
    type V = History;

    closed spec fn view(&self) -> History {
        History {
            calls10: self.calls10.deep_view(),
            calls12: self.calls12.deep_view(),
            calls22: self.calls22.deep_view(),
        }
    }
}

fn no_calls(n: usize) -> (r: Vec<Option<String>>)
    ensures
        r.deep_view() == Seq::new(n as nat, |i: int| None::<Seq<char>>),
{
    let mut out: Vec<Option<String>> = Vec::new();
    let mut i: usize = 0;
    while i < n
        invariant
            i <= n,
            out.deep_view() =~= Seq::new(i as nat, |i: int| None::<Seq<char>>),
        decreases n - i,
    {
        let ghost before = out.deep_view();
        out.push(None);
        assert(out.deep_view() =~= before.push(None));
        i = i + 1;
    }
    out
}

pub proof fn lemma_place(entries: Seq<(u32, Seq<char>)>, hash: nat)
    ensures
        0 <= place_of(entries, hash) <= entries.len(),
        place_of(entries, hash) < entries.len() ==> entries[place_of(entries, hash)].0 == hash,
        forall|i: int| 0 <= i < place_of(entries, hash) ==> (#[trigger] entries[i]).0 != hash,
        lookup(entries, hash) == (if place_of(entries, hash) < entries.len() {
            Some(entries[place_of(entries, hash)].1)
        } else {
            None
        }),
    decreases entries.len(),
{
    if entries.len() > 0 && entries[0].0 != hash {
        let rest = entries.skip(1);
        lemma_place(rest, hash);
        let p = place_of(rest, hash);
        assert forall|i: int| 0 <= i < 1 + p implies (#[trigger] entries[i]).0 != hash by {
            if i > 0 {
                assert(entries[i] == rest[i - 1]);
            }
        }
    }
}

pub proof fn lemma_place_unique(entries: Seq<(u32, Seq<char>)>, hash: nat, p: int)
    requires
        0 <= p <= entries.len(),
        p < entries.len() ==> entries[p].0 == hash,
        forall|i: int| 0 <= i < p ==> (#[trigger] entries[i]).0 != hash,
    ensures
        place_of(entries, hash) == p,
{
    lemma_place(entries, hash);
    let q = place_of(entries, hash);
    if q < p {
        assert(entries[q].0 != hash);
    }
    if p < q {
        assert(entries[p].0 != hash);
    }
}

impl Default for MessageDecoder {
    fn default() -> (r: Self)
        ensures
            r@ == silence(),
            consistent(r@),
    {
        let r = MessageDecoder {
            calls10: no_calls(1024),
            calls12: no_calls(4096),
            calls22: VecDeque::new(),
        };
        assert(r@.calls22 =~= Seq::empty());
        r
    }
}

impl MessageDecoder {
    fn place(&self, hash: u32) -> (r: usize)
        ensures
            r == place_of(self@.calls22, hash as nat),
            r <= self.calls22.len(),
            self@.calls22.len() == self.calls22.len(),
    {
        let ghost entries = self@.calls22;
        let mut i: usize = 0;
        while i < self.calls22.len() && self.calls22[i].0 != hash
            invariant
                i <= self.calls22.len(),
                entries == self@.calls22,
                entries.len() == self.calls22.len(),
                forall|k: int| 0 <= k < i ==> (#[trigger] entries[k]).0 != hash,
            decreases self.calls22.len() - i,
        {
            assert(entries[i as int].0 == self.calls22@[i as int].0);
            i = i + 1;
        }
        proof {
            if i < self.calls22.len() {
                assert(entries[i as int].0 == self.calls22@[i as int].0);
            }
            lemma_place_unique(entries, hash as nat, i as int);
        }
        i
    }

    fn hashed(&self, value: u32, width: u8) -> (r: CallField)
        requires
            consistent(self@),
            (width == 10 && value < 1024) || (width == 12 && value < 4096) || (width == 22 && value
                < HASH22_COUNT),
        ensures
            r.deep_view() == (CallModel {
                text: shown(resolve(self@, value as nat, width as int)),
                hash: Some(resolve(self@, value as nat, width as int)),
            }),
            bracket_means_hash(r.deep_view()),
    {
        let resolved: Option<String> = if width == 10 {
            self.calls10[value as usize].clone()
        } else if width == 12 {
            self.calls12[value as usize].clone()
        } else {
            let place: usize = self.place(value);
            proof {
                lemma_place(self@.calls22, value as nat);
            }
            if place < self.calls22.len() {
                assert(self@.calls22[place as int].1 == self.calls22@[place as int].1@);
                Some(self.calls22[place].1.clone())
            } else {
                None
            }
        };
        assert(width == 10 ==> self@.calls10[value as int] == self.calls10@[value as int].deep_view());
        assert(width == 12 ==> self@.calls12[value as int] == self.calls12@[value as int].deep_view());
        let ghost model = resolve(self@, value as nat, width as int);
        assert(resolved.deep_view() == model.resolved);
        let mut text: String = "<".to_owned();
        match &resolved {
            Some(call) => {
                text.append(call.as_str());
            },
            None => {
                text.append("...");
            },
        }
        text.append(">");
        proof {
            reveal_strlit("<");
        }
        CallField { text, hash: Some(CallsignHash { width, value, resolved }) }
    }

    fn call28(&self, value: u32) -> (r: Result<CallField, MessageError>)
        requires
            consistent(self@),
            value < 268435456,
        ensures
            call_result(r) == call28(self@, value as int),
            r matches Ok(call) ==> bracket_means_hash(call.deep_view()),
    {
        proof {
            reveal(call28);
        }
        if value < TOKEN_COUNT {
            return match token(value) {
                Ok(text) => {
                    proof {
                        lemma_token_start(value as int);
                    }
                    Ok(CallField { text, hash: None })
                },
                Err(error) => Err(error),
            };
        }
        if value < TOKEN_COUNT + HASH22_COUNT {
            return Ok(self.hashed(value - TOKEN_COUNT, 22));
        }
        let characters: String = call_characters(value - TOKEN_COUNT - HASH22_COUNT);
        let call: &str = trimmed(characters.as_str());
        if standard_call(call) {
            proof {
                let s = call@;
                let area = last_digit(s, s.len());
                assert(s[0] != '<') by {
                    lemma_trim_parts(characters@);
                    assert(characters@.contains(s[0]));
                    let k = choose|k: int| 0 <= k < characters@.len() && characters@[k] == s[0];
                    assert(k == 0 || k == 1 || k == 2 || k == 3 || k == 4 || k == 5);
                }
            }
            Ok(CallField { text: call.to_owned(), hash: None })
        } else {
            Err(MessageError::InvalidCallsign)
        }
    }
}

pub proof fn lemma_trim_parts(s: Seq<char>)
    ensures
        forall|i: int| 0 <= i < trim(s).len() ==> s.contains(#[trigger] trim(s)[i]),
{
    lemma_trim_start_part(s);
    lemma_trim_end_part(crate::text::trim_start(s));
    assert forall|i: int| 0 <= i < trim(s).len() implies s.contains(#[trigger] trim(s)[i]) by {
        assert(crate::text::trim_start(s).contains(trim(s)[i]));
        let k = choose|k: int|
            0 <= k < crate::text::trim_start(s).len() && crate::text::trim_start(s)[k] == trim(
                s,
            )[i];
        assert(s.contains(crate::text::trim_start(s)[k]));
    }
}

pub proof fn lemma_trim_start_part(s: Seq<char>)
    ensures
        forall|i: int|
            0 <= i < crate::text::trim_start(s).len() ==> s.contains(
                #[trigger] crate::text::trim_start(s)[i],
            ),
    decreases s.len(),
{
    if s.len() > 0 && crate::text::is_space(s[0]) {
        let rest = s.skip(1);
        lemma_trim_start_part(rest);
        assert forall|i: int| 0 <= i < crate::text::trim_start(s).len() implies s.contains(
            #[trigger] crate::text::trim_start(s)[i],
        ) by {
            let c = crate::text::trim_start(rest)[i];
            assert(rest.contains(c));
            let k = choose|k: int| 0 <= k < rest.len() && rest[k] == c;
            assert(s[k + 1] == c);
        }
    }
}

pub proof fn lemma_trim_end_part(s: Seq<char>)
    ensures
        forall|i: int|
            0 <= i < crate::text::trim_end(s).len() ==> s.contains(
                #[trigger] crate::text::trim_end(s)[i],
            ),
    decreases s.len(),
{
    if s.len() > 0 && crate::text::is_space(s.last()) {
        let rest = s.drop_last();
        lemma_trim_end_part(rest);
        assert forall|i: int| 0 <= i < crate::text::trim_end(s).len() implies s.contains(
            #[trigger] crate::text::trim_end(s)[i],
        ) by {
            let c = crate::text::trim_end(rest)[i];
            assert(rest.contains(c));
            let k = choose|k: int| 0 <= k < rest.len() && rest[k] == c;
            assert(s[k] == c);
        }
    }
}

proof fn lemma_token_start(value: int)
    requires
        0 <= value < TOKEN_COUNT,
    ensures
        token_text(value) matches Ok(text) ==> text.len() > 0 && text[0] != '<',
{
    reveal_strlit("DE");
    reveal_strlit("QRZ");
    reveal_strlit("CQ");
    reveal_strlit("CQ_");
    if 1002 < value <= 532443 {
        let s = "CQ_"@ + crate::text::trim_start(
            base_digits((value - 1003) as nat, 4, LETTERS@),
        );
        lemma_trim_end_keeps_start(s);
    }
}

pub proof fn lemma_trim_end_keeps_start(s: Seq<char>)
    requires
        s.len() > 0,
        !crate::text::is_space(s[0]),
    ensures
        crate::text::trim_end(s).len() > 0,
        crate::text::trim_end(s)[0] == s[0],
    decreases s.len(),
{
    if crate::text::is_space(s.last()) {
        lemma_trim_end_keeps_start(s.drop_last());
    }
}

// ---------------------------------------------------------------------------
// Message types
// ---------------------------------------------------------------------------

/// A message and the call that it teaches.
#[derive(Debug)]
pub struct Unpacking {
    pub message: Message,
    pub learned: Option<String>,
}

pub open spec fn unpacking_result(r: Result<Unpacking, MessageError>) -> Result<Parsed, MessageError> {
    match r {
        Ok(found) => Ok(
            Parsed { message: found.message.deep_view(), learned: found.learned.deep_view() },
        ),
        Err(error) => Err(error),
    }
}

fn no_hashes() -> (r: Vec<CallsignHash>)
    ensures
        r.deep_view() == Seq::<HashModel>::empty(),
{
    let r: Vec<CallsignHash> = Vec::new();
    assert(r.deep_view() =~= Seq::<HashModel>::empty());
    r
}

fn parse_free_text(bits: &[bool; 77]) -> (r: Result<Unpacking, MessageError>)
    ensures
        unpacking_result(r) == crate::wire::free_text(bits@),
{
    match base_text(wide_field(bits, 0, 71), 13, &TEXT_ALPHABET) {
        None => Err(MessageError::InvalidField),
        Some(characters) => {
            let text: &str = trimmed(characters.as_str());
            if text.unicode_len() == 0 {
                return Err(MessageError::InvalidField);
            }
            Ok(
                Unpacking {
                    message: Message {
                        text: text.to_owned(),
                        kind: MessageKind::FreeText,
                        grid: None,
                        hashes: no_hashes(),
                        fields: MessageFields::default(),
                    },
                    learned: None,
                },
            )
        },
    }
}

fn parse_telemetry(bits: &[bool; 77]) -> (r: Result<Unpacking, MessageError>)
    ensures
        unpacking_result(r) == crate::wire::telemetry(bits@),
{
    let mut text: String = String::new();
    append_hexadecimal(&mut text, wide_field(bits, 0, 71));
    assert(text@ =~= crate::text::hexadecimal(field_of(bits@, 0, 71)));
    Ok(
        Unpacking {
            message: Message {
                text,
                kind: MessageKind::Telemetry,
                grid: None,
                hashes: no_hashes(),
                fields: MessageFields::default(),
            },
            learned: None,
        },
    )
}

fn append_roger(text: &mut String, flag: bool)
    ensures
        final(text)@ == old(text)@ + crate::wire::roger(flag),
{
    if flag {
        text.append("R ");
    } else {
        text.append("");
    }
}

fn power(n: u32) -> (r: u32)
    requires
        n < 32,
    ensures
        r == crate::wire::power_of(n as nat),
        r <= 103,
{
    (n * 10 + 1) / 3
}

fn without_zeros<'a>(s: &'a str) -> (r: &'a str)
    ensures
        r@ == crate::wire::trim_zeros(s@),
{
    let n: usize = s.unicode_len();
    let mut i: usize = 0;
    assert(s@.skip(0) =~= s@);
    while i < n && s.get_char(i) == '0'
        invariant
            i <= n,
            n == s@.len(),
            crate::wire::trim_zeros(s@) == crate::wire::trim_zeros(s@.skip(i as int)),
        decreases n - i,
    {
        assert(s@.skip(i as int).skip(1) =~= s@.skip(i + 1));
        i = i + 1;
    }
    let r: &str = s.substring_char(i, n);
    assert(r@ =~= s@.skip(i as int));
    r
}

proof fn lemma_affix_fits(p: nat)
    ensures
        p < 46656 ==> crate::callsign::excess(p, 3, 36) == 0,
        p < 36 ==> crate::callsign::excess(p, 1, 36) == 0,
        p < 1296 ==> crate::callsign::excess(p, 2, 36) == 0,
{
    reveal_with_fuel(crate::callsign::excess, 4);
}

fn compound_call(base: &str, p: u32) -> (r: Option<String>)
    requires
        p < 65536,
    ensures
        r.deep_view() == crate::wire::compound(base@, p as nat),
{
    let mut out: String = String::new();
    if p < 46656 {
        proof {
            lemma_affix_fits(p as nat);
        }
        match base_text(p as u128, 3, &ALPHANUMERIC) {
            None => {
                return None;
            },
            Some(prefix) => {
                let bare: &str = without_zeros(prefix.as_str());
                if bare.unicode_len() == 0 {
                    out.append("0");
                } else {
                    out.append(bare);
                }
            },
        }
        out.append("/");
        out.append(base);
        let ghost prefix = crate::wire::trim_zeros(base_digits(p as nat, 3, ALPHANUMERIC@));
        assert(out@ =~= (if prefix.len() == 0 {
            "0"@
        } else {
            prefix
        }) + "/"@ + base@);
        return Some(out);
    }
    let s: u32 = p - 46656;
    out.append(base);
    out.append("/");
    let ghost front = base@ + "/"@;
    assert(out@ =~= front);
    proof {
        lemma_affix_fits(s as nat);
    }
    if s < 1296 {
        let width: usize = if s < 36 { 1 } else { 2 };
        match base_text(s as u128, width, &ALPHANUMERIC) {
            None => None,
            Some(suffix) => {
                out.append(suffix.as_str());
                Some(out)
            },
        }
    } else if s < 12960 {
        out.push(CALL_ALPHABET[(s / 360 + 1) as usize]);
        out.push(CALL_ALPHABET[(s / 10 % 36 + 1) as usize]);
        out.push(digit_char(s % 10));
        assert(out@ =~= front + seq![
            CALL_ALPHABET@[(s as nat / 360 + 1) as int],
            CALL_ALPHABET@[(s as nat / 10 % 36 + 1) as int],
            crate::text::digit((s as nat % 10) as int),
        ]);
        Some(out)
    } else {
        None
    }
}

/// The compound call starts with a bracket only where the base call does.
proof fn lemma_compound_start(base: Seq<char>, p: nat)
    requires
        p < 65536,
        base.len() > 0,
        base[0] != '<',
    ensures
        crate::wire::compound(base, p) matches Some(call) ==> call.len() > 0 && call[0] != '<',
{
    if p < 46656 {
        let all = base_digits(p, 3, ALPHANUMERIC@);
        reveal_with_fuel(base_digits, 4);
        lemma_zeros_part(all);
        reveal_strlit("0");
        let prefix = crate::wire::trim_zeros(all);
        if prefix.len() > 0 {
            assert(all.contains(prefix[0]));
            let k = choose|k: int| 0 <= k < all.len() && all[k] == prefix[0];
            assert(k == 0 || k == 1 || k == 2);
        }
    }
}

pub proof fn lemma_zeros_part(s: Seq<char>)
    ensures
        forall|i: int|
            0 <= i < crate::wire::trim_zeros(s).len() ==> s.contains(
                #[trigger] crate::wire::trim_zeros(s)[i],
            ),
    decreases s.len(),
{
    if s.len() > 0 && s[0] == '0' {
        let rest = s.skip(1);
        lemma_zeros_part(rest);
        assert forall|i: int| 0 <= i < crate::wire::trim_zeros(s).len() implies s.contains(
            #[trigger] crate::wire::trim_zeros(s)[i],
        ) by {
            let c = crate::wire::trim_zeros(rest)[i];
            assert(rest.contains(c));
            let k = choose|k: int| 0 <= k < rest.len() && rest[k] == c;
            assert(s[k + 1] == c);
        }
    }
}

impl MessageDecoder {
    fn parse_dxpedition(&self, bits: &[bool; 77]) -> (r: Result<Unpacking, MessageError>)
        requires
            consistent(self@),
        ensures
            unpacking_result(r) == crate::wire::dxpedition(self@, bits@),
    {
        if get(bits, 0, 28) <= 2 || get(bits, 28, 28) <= 2 {
            return Err(MessageError::InvalidField);
        }
        let a: CallField = match self.call28(get(bits, 0, 28)) {
            Ok(call) => call,
            Err(error) => {
                return Err(error);
            },
        };
        let b: CallField = match self.call28(get(bits, 28, 28)) {
            Ok(call) => call,
            Err(error) => {
                return Err(error);
            },
        };
        let c: CallField = self.hashed(get(bits, 56, 10), 10);
        let mut hashes: Vec<CallsignHash> = no_hashes();
        push_hash(&mut hashes, &a);
        push_hash(&mut hashes, &b);
        push_hash(&mut hashes, &c);
        let mut text: String = String::new();
        text.append(a.text.as_str());
        text.append(" RR73; ");
        text.append(b.text.as_str());
        text.append(" ");
        text.append(c.text.as_str());
        text.append(" ");
        append_signed(&mut text, 2 * get(bits, 66, 5) as i32 - 30);
        assert(text@ =~= a.text@ + " RR73; "@ + b.text@ + " "@ + c.text@ + " "@ + signed_two(
            2 * field_of(bits@, 66, 5) - 30,
        ));
        Ok(
            Unpacking {
                message: Message {
                    text,
                    kind: MessageKind::Dxpedition,
                    grid: None,
                    hashes,
                    fields: MessageFields::default(),
                },
                learned: None,
            },
        )
    }

    fn parse_field_day(&self, bits: &[bool; 77]) -> (r: Result<Unpacking, MessageError>)
        requires
            consistent(self@),
        ensures
            unpacking_result(r) == crate::wire::field_day(self@, bits@),
    {
        if get(bits, 0, 28) <= 2 || get(bits, 28, 28) <= 2 {
            return Err(MessageError::InvalidField);
        }
        let a: CallField = match self.call28(get(bits, 0, 28)) {
            Ok(call) => call,
            Err(error) => {
                return Err(error);
            },
        };
        let b: CallField = match self.call28(get(bits, 28, 28)) {
            Ok(call) => call,
            Err(error) => {
                return Err(error);
            },
        };
        let number: usize = get(bits, 64, 7) as usize;
        if number == 0 || number > 86 {
            return Err(MessageError::InvalidField);
        }
        let mut hashes: Vec<CallsignHash> = no_hashes();
        push_hash(&mut hashes, &a);
        push_hash(&mut hashes, &b);
        let mut fields: MessageFields = MessageFields::default();
        fields.recipient = Station::from_field(a.text.as_str(), &a.hash);
        fields.sender = Station::from_field(b.text.as_str(), &b.hash);
        let more: u32 = if get(bits, 71, 3) == 4 { 16 } else { 0 };
        let count: u32 = get(bits, 57, 4) + 1 + more;
        let class: char = letter_char(get(bits, 61, 3));
        let mut text: String = String::new();
        text.append(a.text.as_str());
        text.append(" ");
        text.append(b.text.as_str());
        text.append(" ");
        append_roger(&mut text, bits[56]);
        append_decimal(&mut text, count as u64);
        text.push(class);
        text.append(" ");
        text.append(section(number - 1));
        assert(text@ =~= a.text@ + " "@ + b.text@ + " "@ + crate::wire::roger(bits@[56])
            + crate::text::decimal(count as nat) + seq![class] + " "@ + section_name(number - 1));
        Ok(
            Unpacking {
                message: Message {
                    text,
                    kind: MessageKind::FieldDay,
                    grid: None,
                    hashes,
                    fields,
                },
                learned: None,
            },
        )
    }

    fn parse_wspr_compound(&self, bits: &[bool; 77]) -> (r: Result<Unpacking, MessageError>)
        requires
            consistent(self@),
        ensures
            unpacking_result(r) == crate::wire::wspr_compound(self@, bits@),
    {
        let base: CallField = match self.call28(get(bits, 0, 28)) {
            Ok(call) => call,
            Err(error) => {
                return Err(error);
            },
        };
        let level: u32 = power(get(bits, 44, 5));
        if level > 60 {
            return Err(MessageError::InvalidField);
        }
        let affix: u32 = get(bits, 28, 16);
        let call: String = match compound_call(base.text.as_str(), affix) {
            Some(call) => call,
            None => {
                return Err(MessageError::InvalidField);
            },
        };
        proof {
            if base.text@[0] != '<' {
                lemma_compound_start(base.text@, affix as nat);
            }
        }
        let mut hashes: Vec<CallsignHash> = no_hashes();
        push_hash(&mut hashes, &base);
        let mut fields: MessageFields = MessageFields::default();
        fields.sender = Station::from_field(call.as_str(), &base.hash);
        let mut text: String = String::new();
        text.append(call.as_str());
        text.append(" ");
        append_decimal(&mut text, level as u64);
        assert(text@ =~= call@ + " "@ + crate::text::decimal(level as nat));
        Ok(
            Unpacking {
                message: Message { text, kind: MessageKind::Wspr, grid: None, hashes, fields },
                learned: Some(call),
            },
        )
    }

    fn parse_wspr_plain(&self, bits: &[bool; 77]) -> (r: Result<Unpacking, MessageError>)
        requires
            consistent(self@),
        ensures
            unpacking_result(r) == crate::wire::wspr_plain(self@, bits@),
    {
        let call: CallField = match self.call28(get(bits, 0, 28)) {
            Ok(call) => call,
            Err(error) => {
                return Err(error);
            },
        };
        let grid: String = match grid_text(get(bits, 28, 15)) {
            Some(grid) => grid,
            None => {
                return Err(MessageError::InvalidField);
            },
        };
        let level: u32 = power(get(bits, 43, 5));
        if level > 60 {
            return Err(MessageError::InvalidField);
        }
        let mut hashes: Vec<CallsignHash> = no_hashes();
        push_hash(&mut hashes, &call);
        let mut fields: MessageFields = MessageFields::default();
        fields.sender = Station::from_field(call.text.as_str(), &call.hash);
        let mut text: String = String::new();
        text.append(call.text.as_str());
        text.append(" ");
        text.append(grid.as_str());
        text.append(" ");
        append_decimal(&mut text, level as u64);
        assert(text@ =~= call.text@ + " "@ + grid@ + " "@ + crate::text::decimal(level as nat));
        Ok(
            Unpacking {
                message: Message {
                    text,
                    kind: MessageKind::Wspr,
                    grid: Some(grid),
                    hashes,
                    fields,
                },
                learned: Some(call.text),
            },
        )
    }

    fn parse_wspr_hashed(&self, bits: &[bool; 77]) -> (r: Result<Unpacking, MessageError>)
        requires
            consistent(self@),
        ensures
            unpacking_result(r) == crate::wire::wspr_hashed(self@, bits@),
    {
        let call: CallField = self.hashed(get(bits, 0, 22), 22);
        let n: u32 = get(bits, 22, 25);
        let mut grid: String = match grid_text(n / 625) {
            Some(grid) => grid,
            None => {
                return Err(MessageError::InvalidField);
            },
        };
        let sub: u32 = n % 625;
        if sub != 624 {
            grid.push(letter_char(sub / 25));
            grid.push(letter_char(sub % 25));
        }
        assert(grid@ =~= crate::wire::wspr_grid(n as nat));
        let mut hashes: Vec<CallsignHash> = no_hashes();
        push_hash(&mut hashes, &call);
        assert(hashes.deep_view() =~= seq![call.hash.deep_view()->0]);
        let mut fields: MessageFields = MessageFields::default();
        fields.sender = Station::from_field(call.text.as_str(), &call.hash);
        let mut text: String = String::new();
        text.append(call.text.as_str());
        text.append(" ");
        text.append(grid.as_str());
        assert(text@ =~= call.text@ + " "@ + grid@);
        Ok(
            Unpacking {
                message: Message {
                    text,
                    kind: MessageKind::Wspr,
                    grid: Some(grid),
                    hashes,
                    fields,
                },
                learned: None,
            },
        )
    }

    fn parse_wspr(&self, bits: &[bool; 77]) -> (r: Result<Unpacking, MessageError>)
        requires
            consistent(self@),
        ensures
            unpacking_result(r) == crate::wire::wspr(self@, bits@),
    {
        if bits[49] {
            self.parse_wspr_compound(bits)
        } else if !bits[48] {
            self.parse_wspr_plain(bits)
        } else if !bits[47] {
            self.parse_wspr_hashed(bits)
        } else {
            Err(MessageError::InvalidField)
        }
    }

    fn parse_rtty(&self, bits: &[bool; 77]) -> (r: Result<Unpacking, MessageError>)
        requires
            consistent(self@),
        ensures
            unpacking_result(r) == crate::wire::rtty(self@, bits@),
    {
        let a: CallField = match self.call28(get(bits, 1, 28)) {
            Ok(call) => call,
            Err(error) => {
                return Err(error);
            },
        };
        let b: CallField = match self.call28(get(bits, 29, 28)) {
            Ok(call) => call,
            Err(error) => {
                return Err(error);
            },
        };
        let n: u32 = get(bits, 61, 13);
        let mut exchange: String = String::new();
        if 1 <= n && n <= 7999 {
            append_digits(&mut exchange, n as u64, 4);
        } else if 8001 <= n && n <= 8171 {
            exchange.append(multiplier((n - 8001) as usize));
        } else {
            return Err(MessageError::InvalidField);
        }
        assert(exchange@ =~= crate::wire::rtty_exchange(n as nat)->0);
        let mut hashes: Vec<CallsignHash> = no_hashes();
        push_hash(&mut hashes, &a);
        push_hash(&mut hashes, &b);
        let mut fields: MessageFields = MessageFields::default();
        fields.recipient = Station::from_field(a.text.as_str(), &a.hash);
        fields.sender = Station::from_field(b.text.as_str(), &b.hash);
        let strength: char = digit_char(get(bits, 58, 3) + 2);
        let mut text: String = String::new();
        if bits[0] {
            text.append("TU; ");
        } else {
            text.append("");
        }
        text.append(a.text.as_str());
        text.append(" ");
        text.append(b.text.as_str());
        text.append(" ");
        append_roger(&mut text, bits[57]);
        text.append("5");
        text.push(strength);
        text.append("9 ");
        text.append(exchange.as_str());
        assert(text@ =~= (if bits@[0] {
            "TU; "@
        } else {
            ""@
        }) + a.text@ + " "@ + b.text@ + " "@ + crate::wire::roger(bits@[57]) + "5"@ + seq![
            strength,
        ] + "9 "@ + exchange@);
        Ok(
            Unpacking {
                message: Message { text, kind: MessageKind::Rtty, grid: None, hashes, fields },
                learned: None,
            },
        )
    }

    fn parse_vhf(&self, bits: &[bool; 77]) -> (r: Result<Unpacking, MessageError>)
        requires
            consistent(self@),
        ensures
            unpacking_result(r) == crate::wire::vhf(self@, bits@),
    {
        let a: CallField = self.hashed(get(bits, 0, 12), 12);
        let b: CallField = self.hashed(get(bits, 12, 22), 22);
        let grid: String = match grid_six_text(get(bits, 49, 25)) {
            Some(grid) => grid,
            None => {
                return Err(MessageError::InvalidField);
            },
        };
        let mut hashes: Vec<CallsignHash> = no_hashes();
        push_hash(&mut hashes, &a);
        push_hash(&mut hashes, &b);
        assert(hashes.deep_view() =~= seq![a.hash.deep_view()->0, b.hash.deep_view()->0]);
        let mut fields: MessageFields = MessageFields::default();
        fields.recipient = Station::from_field(a.text.as_str(), &a.hash);
        fields.sender = Station::from_field(b.text.as_str(), &b.hash);
        let mut text: String = String::new();
        text.append(a.text.as_str());
        text.append(" ");
        text.append(b.text.as_str());
        text.append(" ");
        append_roger(&mut text, bits[34]);
        append_digits(&mut text, 52 + get(bits, 35, 3) as u64, 2);
        append_digits(&mut text, get(bits, 38, 11) as u64, 4);
        text.append(" ");
        text.append(grid.as_str());
        assert(text@ =~= a.text@ + " "@ + b.text@ + " "@ + crate::wire::roger(bits@[34])
            + crate::text::digits(52 + field_of(bits@, 35, 3), 2) + crate::text::digits(
            field_of(bits@, 38, 11),
            4,
        ) + " "@ + grid@);
        Ok(
            Unpacking {
                message: Message {
                    text,
                    kind: MessageKind::Vhf,
                    grid: Some(grid),
                    hashes,
                    fields,
                },
                learned: None,
            },
        )
    }
}

fn append_report(text: &mut String, snr: i32)
    requires
        -50 <= snr <= 1000,
    ensures
        final(text)@ == old(text)@ + crate::wire::report_text(snr as int),
{
    if snr >= 100 {
        append_decimal(text, snr as u64);
    } else {
        append_signed(text, snr);
    }
}

fn report(exchange: u32) -> (r: i32)
    requires
        32404 < exchange < 32768,
    ensures
        r == crate::wire::report_of(exchange as nat),
        -50 <= r <= 231,
{
    let snr: i32 = exchange as i32 - 32435;
    if snr > 50 {
        snr - 101
    } else {
        snr
    }
}

fn append_closing(text: &mut String, exchange: u32, rogered: bool)
    requires
        32400 < exchange < 32768,
    ensures
        final(text)@ == old(text)@ + crate::wire::closing(exchange as nat, rogered),
{
    let ghost before = text@;
    if exchange == 32401 {
        text.append("");
    } else if exchange == 32402 {
        text.append(" RRR");
    } else if exchange == 32403 {
        text.append(" RR73");
    } else if exchange == 32404 {
        text.append(" 73");
    } else {
        text.append(" ");
        if rogered {
            text.append("R");
        } else {
            text.append("");
        }
        append_report(text, report(exchange));
        assert(text@ =~= before + (" "@ + (if rogered {
            "R"@
        } else {
            ""@
        }) + crate::wire::report_text(crate::wire::report_of(exchange as nat))));
    }
}

fn exchange_type(address: u32, exchange: u32, rogered: bool, grid: &Option<String>) -> (r: Option<
    ExchangeType,
>)
    requires
        exchange != 32400,
        exchange < 32768,
        exchange < 32400 ==> grid.deep_view() == Some(grid_of(exchange as int)),
    ensures
        r == crate::wire::exchange_kind(address as nat, exchange as nat, rogered),
{
    if address == 0 {
        Some(ExchangeType::De)
    } else if address == 1 {
        Some(ExchangeType::Qrz)
    } else if address <= 532443 {
        Some(ExchangeType::Cq)
    } else if exchange < 32400 {
        let farewell: bool = match grid {
            Some(text) => same(text.as_str(), "RR73"),
            None => false,
        };
        if farewell {
            if rogered {
                None
            } else {
                Some(ExchangeType::Rr73)
            }
        } else if rogered {
            Some(ExchangeType::RogerGrid)
        } else {
            Some(ExchangeType::Grid)
        }
    } else if exchange == 32401 {
        Some(ExchangeType::Calls)
    } else if exchange == 32402 {
        Some(ExchangeType::Rrr)
    } else if exchange == 32403 {
        Some(ExchangeType::Rr73)
    } else if exchange == 32404 {
        Some(ExchangeType::Signoff)
    } else if rogered {
        Some(ExchangeType::RogerReport)
    } else {
        Some(ExchangeType::Report)
    }
}

fn suffix_call(call: &str, flag: bool, primary: u32) -> (r: String)
    ensures
        r@ == crate::wire::suffixed(call@, flag, primary as nat),
{
    let mut out: String = call.to_owned();
    if !starts_with_char(call, '<') && call.unicode_len() >= 3 && flag {
        if primary == 1 {
            out.append("/R");
        } else {
            out.append("/P");
        }
    }
    out
}

fn address_call(call: &str) -> (r: String)
    ensures
        r@ == crate::wire::addressed(call@),
{
    proof {
        reveal_strlit("CQ_");
        reveal_strlit(" ");
    }
    if has_prefix(call, "CQ_") {
        let mut out: String = call.substring_char(0, 2).to_owned();
        out.append(" ");
        out.append(call.substring_char(3, call.unicode_len()));
        assert(out@ =~= call@.update(2, ' '));
        out
    } else {
        call.to_owned()
    }
}

proof fn lemma_addressed_start(a: CallModel, flag: bool, primary: nat)
    requires
        bracket_means_hash(a),
    ensures
        ({
            let shown_call = crate::wire::suffixed(
                crate::wire::addressed(a.text),
                flag,
                primary,
            );
            shown_call.len() > 0 && (shown_call[0] == '<' <==> a.hash is Some)
        }),
{
    reveal_strlit("CQ_");
}

impl MessageDecoder {
    #[verifier::rlimit(40)]
    fn parse_standard(&self, bits: &[bool; 77]) -> (r: Result<Unpacking, MessageError>)
        requires
            consistent(self@),
        ensures
            unpacking_result(r) == crate::wire::standard(self@, bits@),
    {
        let address: u32 = get(bits, 0, 28);
        let source: u32 = get(bits, 29, 28);
        let a: CallField = match self.call28(address) {
            Ok(call) => call,
            Err(error) => {
                return Err(error);
            },
        };
        let b: CallField = match self.call28(source) {
            Ok(call) => call,
            Err(error) => {
                return Err(error);
            },
        };
        let primary: u32 = get(bits, 74, 3);
        let exchange: u32 = get(bits, 59, 15);
        let rogered: bool = bits[58];
        let directed: String = address_call(a.text.as_str());
        let to: String = suffix_call(directed.as_str(), bits[28], primary);
        let from: String = suffix_call(b.text.as_str(), bits[57], primary);
        proof {
            lemma_addressed_start(a.deep_view(), bits@[28], primary as nat);
        }
        let mut text: String = String::new();
        text.append(to.as_str());
        text.append(" ");
        text.append(from.as_str());
        let mut grid: Option<String> = None;
        if exchange < 32400 {
            text.append(" ");
            append_roger(&mut text, rogered);
            match grid_text(exchange) {
                Some(place) => {
                    text.append(place.as_str());
                    grid = Some(place);
                },
                None => {},
            }
        } else if exchange == 32400 {
            return Err(MessageError::InvalidField);
        } else {
            append_closing(&mut text, exchange, rogered);
        }
        assert(text@ =~= crate::wire::standard_text(to@, from@, exchange as nat, rogered));
        let refused: bool = if exchange < 32400 { rogered } else { exchange >= 32402 };
        if refused && has_prefix(text.as_str(), "CQ ") {
            return Err(MessageError::InvalidField);
        }
        let mut hashes: Vec<CallsignHash> = no_hashes();
        push_hash(&mut hashes, &a);
        push_hash(&mut hashes, &b);
        let mut fields: MessageFields = MessageFields::default();
        fields.exchange_type = exchange_type(address, exchange, rogered, &grid);
        if address >= TOKEN_COUNT {
            fields.recipient = Station::from_field(to.as_str(), &a.hash);
        }
        if source >= TOKEN_COUNT {
            fields.sender = Station::from_field(from.as_str(), &b.hash);
        }
        if has_prefix(a.text.as_str(), "CQ_") {
            proof {
                reveal_strlit("CQ_");
            }
            let modifier: &str = a.text.as_str().substring_char(3, a.text.as_str().unicode_len());
            assert(modifier@ =~= a.text@.skip(3));
            fields.cq_modifier = Some(modifier.to_owned());
        }
        if exchange > 32404 {
            fields.report_db = Some(report(exchange));
        }
        let location: Option<String> = match grid {
            Some(place) => {
                if same(place.as_str(), "RR73") {
                    None
                } else {
                    Some(place)
                }
            },
            None => None,
        };
        let learned: Option<String> = if !starts_with_char(from.as_str(), '<')
            && from.as_str().unicode_len() >= 3 {
            Some(from)
        } else {
            None
        };
        Ok(
            Unpacking {
                message: Message {
                    text,
                    kind: MessageKind::Standard,
                    grid: location,
                    hashes,
                    fields,
                },
                learned,
            },
        )
    }

    fn parse_nonstandard(&self, bits: &[bool; 77]) -> (r: Result<Unpacking, MessageError>)
        requires
            consistent(self@),
        ensures
            unpacking_result(r) == crate::wire::nonstandard(self@, bits@),
    {
        let cq: bool = bits[73];
        let flip: bool = bits[70];
        let hashed: CallField = if cq && !flip {
            CallField { text: "".to_owned(), hash: None }
        } else {
            self.hashed(get(bits, 0, 12), 12)
        };
        let characters: String = match base_text(wide_field(bits, 12, 58), 11, &CALL_ALPHABET) {
            Some(characters) => characters,
            None => {
                return Err(MessageError::InvalidField);
            },
        };
        let call: &str = trimmed(characters.as_str());
        if normalize_call(call).is_none() {
            return Err(MessageError::InvalidCallsign);
        }
        proof {
            lemma_call_start(field_of(bits@, 12, 58));
            reveal_strlit("");
        }
        let mut hashes: Vec<CallsignHash> = no_hashes();
        push_hash(&mut hashes, &hashed);
        let ghost hash = resolve(self@, field_of(bits@, 0, 12), 12);
        assert(!(cq && !flip) ==> hashes.deep_view() =~= seq![hash]);
        let a: &str = if flip { call } else { hashed.text.as_str() };
        let b: &str = if flip { hashed.text.as_str() } else { call };
        let mut fields: MessageFields = MessageFields::default();
        let mut text: String = String::new();
        if cq {
            text.append("CQ ");
            text.append(b);
            assert(text@ =~= "CQ "@ + b@);
            fields.exchange_type = Some(ExchangeType::Cq);
        } else {
            fields.recipient = Station::from_field(a, &hashed.hash);
            text.append(a);
            text.append(" ");
            text.append(b);
            let ghost tail = crate::wire::acknowledgement(field_of(bits@, 71, 2)).1;
            let ghost front = a@ + " "@ + b@;
            assert(text@ =~= front);
            let which: u32 = get(bits, 71, 2);
            if which == 0 {
                text.append("");
                fields.exchange_type = Some(ExchangeType::Calls);
            } else if which == 1 {
                text.append(" RRR");
                fields.exchange_type = Some(ExchangeType::Rrr);
            } else if which == 2 {
                text.append(" RR73");
                fields.exchange_type = Some(ExchangeType::Rr73);
            } else {
                text.append(" 73");
                fields.exchange_type = Some(ExchangeType::Signoff);
            }
            assert(text@ == front + tail);
        }
        fields.sender = Station::from_field(b, &hashed.hash);
        let learned: Option<String> = if flip { None } else { Some(call.to_owned()) };
        Ok(
            Unpacking {
                message: Message {
                    text,
                    kind: MessageKind::Nonstandard,
                    grid: None,
                    hashes,
                    fields,
                },
                learned,
            },
        )
    }

    fn parse_by_type(&self, bits: &[bool; 77]) -> (r: Result<Unpacking, MessageError>)
        requires
            consistent(self@),
        ensures
            unpacking_result(r) == parsed_by_type(self@, bits@),
    {
        proof {
            reveal(parsed_by_type);
        }
        let primary: u32 = get(bits, 74, 3);
        let subtype: u32 = get(bits, 71, 3);
        if primary == 0 && subtype == 0 {
            parse_free_text(bits)
        } else if primary == 0 && subtype == 1 {
            self.parse_dxpedition(bits)
        } else if primary == 0 && (subtype == 3 || subtype == 4) {
            self.parse_field_day(bits)
        } else if primary == 0 && subtype == 5 {
            parse_telemetry(bits)
        } else if primary == 0 && subtype == 6 {
            self.parse_wspr(bits)
        } else if primary == 1 || primary == 2 {
            self.parse_standard(bits)
        } else if primary == 3 {
            self.parse_rtty(bits)
        } else if primary == 4 {
            self.parse_nonstandard(bits)
        } else if primary == 5 {
            self.parse_vhf(bits)
        } else {
            Err(MessageError::UnsupportedType)
        }
    }

    /// The message of a payload and the call that it teaches. Nothing is learned yet, and
    /// the text is whole.
    pub fn parse(&self, bits: &[bool; 77]) -> (r: Result<Unpacking, MessageError>)
        requires
            consistent(self@),
        ensures
            unpacking_result(r) == parsed(self@, bits@),
    {
        let found: Unpacking = match self.parse_by_type(bits) {
            Ok(found) => found,
            Err(error) => {
                return Err(error);
            },
        };
        match found.learned {
            None => Ok(Unpacking { message: found.message, learned: None }),
            Some(call) => {
                if same(call.as_str(), "<...>") {
                    Ok(Unpacking { message: found.message, learned: None })
                } else if normalize_call(call.as_str()).is_none() {
                    Err(MessageError::InvalidCallsign)
                } else {
                    Ok(Unpacking { message: found.message, learned: Some(call) })
                }
            },
        }
    }

    /// Unpack one source message. Only a fully valid message can teach history.
    pub fn unpack(&mut self, bits: &[bool; 77]) -> (r: Result<Message, MessageError>)
        requires
            consistent(old(self)@),
        ensures
            match (r, unpacked(old(self)@, bits@)) {
                (Ok(message), Ok(expected)) => message.deep_view() == expected,
                (Err(error), Err(expected)) => error == expected,
                _ => false,
            },
            final(self)@ == taught(old(self)@, bits@),
            consistent(final(self)@),
    {
        let found: Unpacking = match self.parse(bits) {
            Ok(found) => found,
            Err(error) => {
                return Err(error);
            },
        };
        let mut message: Message = found.message;
        if has_prefix(message.text.as_str(), "CQ <") {
            return Err(MessageError::InvalidField);
        }
        if message.text.as_str().unicode_len() > 37 {
            message.text = message.text.as_str().substring_char(0, 37).to_owned();
            assert(message.text@ =~= enveloped(found.message.text@));
        }
        match found.learned {
            Some(call) => {
                match self.remember_call(call.as_str()) {
                    Ok(_) => {},
                    Err(error) => {
                        return Err(error);
                    },
                }
            },
            None => {},
        }
        Ok(message)
    }

    /// Seed a known call, returning its 10-, 12- and 22-bit hashes. Calls are
    /// uppercased and may have surrounding angle brackets. The wire hash uses
    /// the first 11 characters padded with spaces, including wrapping multiply.
    pub fn remember_call(&mut self, call: &str) -> (r: Result<[u32; 3], MessageError>)
        requires
            consistent(old(self)@),
        ensures
            match (r, normal_call(call@)) {
                (Ok(hashes), Some(normal)) => {
                    &&& hashes@ == seq![
                        hash10(normal) as u32,
                        hash12(normal) as u32,
                        hash22(normal) as u32,
                    ]
                    &&& final(self)@ == remembered(old(self)@, normal)
                },
                (Err(error), None) => error == MessageError::InvalidCallsign && final(self)@
                    == old(self)@,
                _ => false,
            },
            consistent(final(self)@),
    {
        let normal: String = match normalize_call(call) {
            Some(normal) => normal,
            None => {
                return Err(MessageError::InvalidCallsign);
            },
        };
        proof {
            crate::callsign::normal_calls_are_stable(call@);
        }
        let ghost before = self@;
        let hashes: [u32; 3] = call_hashes(normal.as_str());
        let place: usize = self.place(hashes[2]);
        proof {
            lemma_place(before.calls22, hashes@[2] as nat);
        }
        self.calls10.set(hashes[0] as usize, Some(normal.clone()));
        self.calls12.set(hashes[1] as usize, Some(normal.clone()));
        if place < self.calls22.len() {
            self.calls22.remove(place);
            self.calls22.insert(place, (hashes[2], normal.clone()));
        } else {
            self.calls22.push_front((hashes[2], normal.clone()));
            self.calls22.truncate(1000);
        }
        proof {
            assert(self@.calls10 =~= remembered(before, normal@).calls10);
            assert(self@.calls12 =~= remembered(before, normal@).calls12);
            assert(self@.calls22 =~= remembered(before, normal@).calls22);
            lemma_remembering_keeps_consistency(before, normal@);
            assert(hashes@ =~= seq![
                hash10(normal@) as u32,
                hash12(normal@) as u32,
                hash22(normal@) as u32,
            ]);
        }
        Ok(hashes)
    }

    pub fn reset(&mut self)
        ensures
            final(self)@ == silence(),
            consistent(final(self)@),
    {
        self.calls10 = no_calls(1024);
        self.calls12 = no_calls(4096);
        self.calls22.clear();
        assert(self@.calls22 =~= Seq::empty());
    }
}

proof fn lemma_call_start(value: nat)
    ensures
        ({
            let call = trim(base_digits(value, 11, CALL_ALPHABET@));
            call.len() > 0 ==> call[0] != '<'
        }),
{
    let all = base_digits(value, 11, CALL_ALPHABET@);
    lemma_trim_parts(all);
    lemma_base_digits(value, 11, CALL_ALPHABET@);
    let call = trim(all);
    if call.len() > 0 {
        assert(all.contains(call[0]));
        let k = choose|k: int| 0 <= k < all.len() && all[k] == call[0];
        assert(CALL_ALPHABET@.contains(all[k]));
        assert(forall|i: int| 0 <= i < 38 ==> CALL_ALPHABET@[i] != '<');
    }
}

pub proof fn lemma_base_digits(value: nat, width: nat, alphabet: Seq<char>)
    requires
        alphabet.len() > 0,
    ensures
        base_digits(value, width, alphabet).len() == width,
        forall|i: int|
            0 <= i < width ==> alphabet.contains(#[trigger] base_digits(value, width, alphabet)[i]),
    decreases width,
{
    if width > 0 {
        lemma_base_digits(value / alphabet.len(), (width - 1) as nat, alphabet);
        let d = (value % alphabet.len()) as int;
        assert(0 <= d < alphabet.len()) by (nonlinear_arith)
            requires
                alphabet.len() > 0,
                d == (value % alphabet.len()) as int,
        ;
        assert(alphabet.contains(alphabet[d]));
    }
}

proof fn lemma_remembering_keeps_consistency(history: History, call: Seq<char>)
    requires
        consistent(history),
        normal_call(call) == Some(call),
    ensures
        consistent(remembered(history, call)),
{
    let after = remembered(history, call);
    let entries = history.calls22;
    lemma_place(entries, hash22(call));
    crate::callsign::hashes_nest(call);
    let place = place_of(entries, hash22(call));
    assert forall|i: int| 0 <= i < after.calls22.len() implies (#[trigger] after.calls22[i]).0
        == hash22(after.calls22[i].1) && normal_call(after.calls22[i].1) == Some(
        after.calls22[i].1,
    ) by {
        if place < entries.len() {
            if i != place {
                assert(after.calls22[i] == entries[i]);
            }
        } else if i > 0 {
            assert(after.calls22[i] == entries[i - 1]);
        }
    }
    assert forall|i: int, j: int| 0 <= i < j < after.calls22.len() implies (
    #[trigger] after.calls22[i]).0 != (#[trigger] after.calls22[j]).0 by {
        if place < entries.len() {
            assert(after.calls22[i].0 == entries[i].0);
            assert(after.calls22[j].0 == entries[j].0);
        } else {
            assert(after.calls22[j] == entries[j - 1]);
            if i > 0 {
                assert(after.calls22[i] == entries[i - 1]);
            }
        }
    }
}

// ---------------------------------------------------------------------------
// Laws
// ---------------------------------------------------------------------------

/// A call that was just remembered is what each of its hashes resolves to.
pub proof fn remembered_calls_resolve(history: History, call: Seq<char>)
    requires
        consistent(history),
        normal_call(call) == Some(call),
    ensures
        resolve(remembered(history, call), hash10(call), 10).resolved == Some(call),
        resolve(remembered(history, call), hash12(call), 12).resolved == Some(call),
        resolve(remembered(history, call), hash22(call), 22).resolved == Some(call),
{
    crate::callsign::hashes_nest(call);
    let entries = history.calls22;
    let after = remembered(history, call).calls22;
    lemma_place(entries, hash22(call));
    let place = place_of(entries, hash22(call));
    if place < entries.len() {
        assert forall|i: int| 0 <= i < place implies (#[trigger] after[i]).0 != hash22(call) by {
            assert(entries[i].0 != hash22(call));
        }
        lemma_place_unique(after, hash22(call), place);
    } else {
        lemma_place_unique(after, hash22(call), 0);
    }
    lemma_place(after, hash22(call));
}

/// Every resolution is a call whose hash is the one that was asked for.
pub proof fn resolutions_carry_their_hash(history: History, value: nat, width: int)
    requires
        consistent(history),
        (width == 10 && value < 1024) || (width == 12 && value < 4096) || (width == 22 && value
            < HASH22_COUNT),
    ensures
        resolve(history, value, width).resolved matches Some(call) ==> {
            &&& normal_call(call) == Some(call)
            &&& width == 10 ==> hash10(call) == value
            &&& width == 12 ==> hash12(call) == value
            &&& width == 22 ==> hash22(call) == value
        },
{
    lemma_place(history.calls22, value);
}

/// After a reset no hash resolves.
pub proof fn silence_resolves_nothing(value: nat, width: int)
    requires
        (width == 10 && value < 1024) || (width == 12 && value < 4096) || (width == 22 && value
            < HASH22_COUNT),
    ensures
        resolve(silence(), value, width).resolved is None,
{
    lemma_place(silence().calls22, value);
}

/// A payload that is refused teaches nothing.
pub proof fn refused_payloads_teach_nothing(history: History, bits: Seq<bool>)
    ensures
        unpacked(history, bits) is Err ==> taught(history, bits) == history,
{
}

/// Unpacked text has at most 37 characters.
pub proof fn unpacked_text_is_bounded(history: History, bits: Seq<bool>)
    ensures
        unpacked(history, bits) matches Ok(message) ==> message.text.len() <= 37,
{
}

} // verus!
