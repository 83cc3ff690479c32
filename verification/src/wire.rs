//! The 77 bit message layouts: what each payload says, given the calls that
//! were heard before.
use vstd::prelude::*;
use crate::callsign::{
    base_digits, excess, hash10, hash12, hash22, normal_call, ALPHANUMERIC, CALL_ALPHABET, LETTERS,
    TEXT_ALPHABET,
};
use crate::message::{ExchangeType, MessageError, MessageKind};
use crate::message_tables::{multiplier_name, section_name};
use crate::text::{
    decimal, digit, digits, hexadecimal, is_digit, is_upper, letter, starts_with, trim, trim_end,
    trim_start,
};

verus! {

/// Number of 28 bit values that are tokens.
pub const TOKEN_COUNT: u32 = 2_063_592;

/// Number of 22 bit hashes.
pub const HASH22_COUNT: u32 = 4_194_304;

// ---------------------------------------------------------------------------
// Models
// ---------------------------------------------------------------------------

/// Calls heard so far, by 10 and 12 bit slot and, newest first, by 22 bit hash.
#[verifier::ext_equal]
pub struct History {
    pub calls10: Seq<Option<Seq<char>>>,
    pub calls12: Seq<Option<Seq<char>>>,
    pub calls22: Seq<(u32, Seq<char>)>,
}

#[verifier::ext_equal]
pub struct HashModel {
    pub width: u8,
    pub value: u32,
    pub resolved: Option<Seq<char>>,
}

#[verifier::ext_equal]
pub struct StationModel {
    pub call: Option<Seq<char>>,
    pub hash: Option<HashModel>,
}

#[verifier::ext_equal]
pub struct FieldsModel {
    pub exchange_type: Option<ExchangeType>,
    pub sender: Option<StationModel>,
    pub recipient: Option<StationModel>,
    pub cq_modifier: Option<Seq<char>>,
    pub report_db: Option<i32>,
}

#[verifier::ext_equal]
pub struct MessageModel {
    pub text: Seq<char>,
    pub kind: MessageKind,
    pub grid: Option<Seq<char>>,
    pub hashes: Seq<HashModel>,
    pub fields: FieldsModel,
}

/// A message and the call that it teaches.
#[verifier::ext_equal]
pub struct Parsed {
    pub message: MessageModel,
    pub learned: Option<Seq<char>>,
}

/// A 28 bit call field: its text, and its hash where it is one.
#[verifier::ext_equal]
pub struct CallModel {
    pub text: Seq<char>,
    pub hash: Option<HashModel>,
}

// ---------------------------------------------------------------------------
// Numbers
// ---------------------------------------------------------------------------

/// The number that bits spell, most significant first.
pub open spec fn number(bits: Seq<bool>) -> nat
    decreases bits.len(),
{
    if bits.len() == 0 {
        0
    } else {
        2 * number(bits.drop_last()) + (if bits.last() { 1nat } else { 0nat })
    }
}

/// The `width` bit number that starts at bit `start`.
pub open spec fn field_of(bits: Seq<bool>, start: int, width: int) -> nat {
    number(bits.subrange(start, start + width))
}

/// A sign and two digits.
pub open spec fn signed_two(n: int) -> Seq<char> {
    if n < 0 {
        "-"@ + digits((-n) as nat, 2)
    } else {
        "+"@ + digits(n as nat, 2)
    }
}

/// A locator of two letters and two digits.
pub open spec fn grid_of(n: int) -> Seq<char> {
    seq![letter(n / 1800), letter(n / 100 % 18), digit(n / 10 % 10), digit(n % 10)]
}

/// A locator of two letters, two digits and two letters.
pub open spec fn grid_six_of(n: int) -> Seq<char> {
    grid_of(n / 576).push(letter(n / 24 % 24)).push(letter(n % 24))
}

// ---------------------------------------------------------------------------
// Calls
// ---------------------------------------------------------------------------

/// The call of the first entry with the given hash.
pub open spec fn lookup(entries: Seq<(u32, Seq<char>)>, hash: nat) -> Option<Seq<char>>
    decreases entries.len(),
{
    if entries.len() == 0 {
        None
    } else if entries[0].0 == hash {
        Some(entries[0].1)
    } else {
        lookup(entries.skip(1), hash)
    }
}

/// What a hash of 10, 12 or 22 bits stands for.
pub open spec fn resolve(history: History, value: nat, width: int) -> HashModel {
    HashModel {
        width: width as u8,
        value: value as u32,
        resolved: if width == 10 {
            history.calls10[value as int]
        } else if width == 12 {
            history.calls12[value as int]
        } else {
            lookup(history.calls22, value)
        },
    }
}

/// A hash as it is displayed.
pub open spec fn shown(hash: HashModel) -> Seq<char> {
    "<"@ + (match hash.resolved {
        Some(call) => call,
        None => "..."@,
    }) + ">"@
}

/// Place of the last digit among the first `n` characters, -1 without one.
pub open spec fn last_digit(s: Seq<char>, n: nat) -> int
    decreases n,
{
    if n == 0 {
        -1
    } else if is_digit(s[n - 1]) {
        n - 1
    } else {
        last_digit(s, (n - 1) as nat)
    }
}

/// A call with its last digit in second or third place, a letter before it and
/// only letters behind it.
pub open spec fn is_standard_call(call: Seq<char>) -> bool {
    let area = last_digit(call, call.len());
    &&& area == 1 || area == 2
    &&& exists|i: int| 0 <= i < area && is_upper(#[trigger] call[i])
    &&& forall|i: int| area < i < call.len() ==> is_upper(#[trigger] call[i])
    &&& call[0] != 'Q'
    &&& !call.contains(' ')
    &&& call.len() >= 3
}

/// The six characters of a packed standard call.
pub open spec fn call_digits(n: int) -> Seq<char> {
    seq![
        CALL_ALPHABET@[n / 7085880 % 37],
        ALPHANUMERIC@[n / 196830 % 36],
        ALPHANUMERIC@[n / 19683 % 10],
        LETTERS@[n / 729 % 27],
        LETTERS@[n / 27 % 27],
        LETTERS@[n % 27],
    ]
}

/// The token of a value below the token count.
pub open spec fn token_text(value: int) -> Result<Seq<char>, MessageError> {
    if value == 0 {
        Ok("DE"@)
    } else if value == 1 {
        Ok("QRZ"@)
    } else if value == 2 {
        Ok("CQ"@)
    } else if value <= 1002 {
        Ok("CQ_"@ + digits((value - 3) as nat, 3))
    } else if value <= 532443 {
        let text = trim_end(
            "CQ_"@ + trim_start(base_digits((value - 1003) as nat, 4, LETTERS@)),
        );
        if text.contains(' ') {
            Err(MessageError::InvalidField)
        } else {
            Ok(text)
        }
    } else {
        Err(MessageError::InvalidField)
    }
}

/// A 28 bit call field: a token, a 22 bit hash or a standard call.
#[verifier::opaque]
pub open spec fn call28(history: History, value: int) -> Result<CallModel, MessageError> {
    if value < TOKEN_COUNT {
        match token_text(value) {
            Ok(text) => Ok(CallModel { text, hash: None }),
            Err(error) => Err(error),
        }
    } else if value < TOKEN_COUNT + HASH22_COUNT {
        let hash = resolve(history, (value - TOKEN_COUNT) as nat, 22);
        Ok(CallModel { text: shown(hash), hash: Some(hash) })
    } else {
        let text = trim(call_digits(value - TOKEN_COUNT - HASH22_COUNT));
        if is_standard_call(text) {
            Ok(CallModel { text, hash: None })
        } else {
            Err(MessageError::InvalidCallsign)
        }
    }
}

/// The station of a call field; tokens are no stations.
pub open spec fn station(call: Seq<char>, hash: Option<HashModel>) -> Option<StationModel> {
    if call.len() == 0 || call == "CQ"@ || call == "QRZ"@ || call == "DE"@ || starts_with(
        call,
        "CQ "@,
    ) || starts_with(call, "CQ_"@) {
        None
    } else if call[0] == '<' {
        Some(StationModel { call: hash->0.resolved, hash: Some(hash->0) })
    } else {
        Some(StationModel { call: Some(call), hash: None })
    }
}

pub open spec fn no_fields() -> FieldsModel {
    FieldsModel {
        exchange_type: None,
        sender: None,
        recipient: None,
        cq_modifier: None,
        report_db: None,
    }
}

/// The hashes of call fields, in order.
pub open spec fn with_hash(hashes: Seq<HashModel>, call: CallModel) -> Seq<HashModel> {
    match call.hash {
        Some(hash) => hashes.push(hash),
        None => hashes,
    }
}

// ---------------------------------------------------------------------------
// Message types
// ---------------------------------------------------------------------------

/// Up to 13 characters of free text.
pub open spec fn free_text(bits: Seq<bool>) -> Result<Parsed, MessageError> {
    let value = field_of(bits, 0, 71);
    let text = trim(base_digits(value, 13, TEXT_ALPHABET@));
    if excess(value, 13, 42) != 0 || text.len() == 0 {
        Err(MessageError::InvalidField)
    } else {
        Ok(
            Parsed {
                message: MessageModel {
                    text,
                    kind: MessageKind::FreeText,
                    grid: None,
                    hashes: Seq::empty(),
                    fields: no_fields(),
                },
                learned: None,
            },
        )
    }
}

/// A DXpedition's double answer.
pub open spec fn dxpedition(history: History, bits: Seq<bool>) -> Result<Parsed, MessageError> {
    if field_of(bits, 0, 28) <= 2 || field_of(bits, 28, 28) <= 2 {
        Err(MessageError::InvalidField)
    } else {
        match call28(history, field_of(bits, 0, 28) as int) {
            Err(error) => Err(error),
            Ok(a) => match call28(history, field_of(bits, 28, 28) as int) {
                Err(error) => Err(error),
                Ok(b) => {
                    let c = resolve(history, field_of(bits, 56, 10), 10);
                    Ok(
                        Parsed {
                            message: MessageModel {
                                text: a.text + " RR73; "@ + b.text + " "@ + shown(c) + " "@
                                    + signed_two(2 * field_of(bits, 66, 5) - 30),
                                kind: MessageKind::Dxpedition,
                                grid: None,
                                hashes: with_hash(with_hash(Seq::empty(), a), b).push(c),
                                fields: no_fields(),
                            },
                            learned: None,
                        },
                    )
                },
            },
        }
    }
}

pub open spec fn roger(flag: bool) -> Seq<char> {
    if flag {
        "R "@
    } else {
        ""@
    }
}

/// A Field Day exchange; the second subtype counts from 17.
pub open spec fn field_day(history: History, bits: Seq<bool>) -> Result<Parsed, MessageError> {
    if field_of(bits, 0, 28) <= 2 || field_of(bits, 28, 28) <= 2 {
        Err(MessageError::InvalidField)
    } else {
        match call28(history, field_of(bits, 0, 28) as int) {
            Err(error) => Err(error),
            Ok(a) => match call28(history, field_of(bits, 28, 28) as int) {
                Err(error) => Err(error),
                Ok(b) => {
                    let count = field_of(bits, 57, 4) + 1 + (if field_of(bits, 71, 3) == 4 {
                        16nat
                    } else {
                        0nat
                    });
                    let section = field_of(bits, 64, 7);
                    if section == 0 || section > 86 {
                        Err(MessageError::InvalidField)
                    } else {
                        Ok(
                            Parsed {
                                message: MessageModel {
                                    text: a.text + " "@ + b.text + " "@ + roger(bits[56])
                                        + decimal(count) + seq![
                                        letter(field_of(bits, 61, 3) as int),
                                    ] + " "@ + section_name(section - 1),
                                    kind: MessageKind::FieldDay,
                                    grid: None,
                                    hashes: with_hash(with_hash(Seq::empty(), a), b),
                                    fields: FieldsModel {
                                        recipient: station(a.text, a.hash),
                                        sender: station(b.text, b.hash),
                                        ..no_fields()
                                    },
                                },
                                learned: None,
                            },
                        )
                    }
                },
            },
        }
    }
}

/// A 71 bit number in hexadecimal.
pub open spec fn telemetry(bits: Seq<bool>) -> Result<Parsed, MessageError> {
    Ok(
        Parsed {
            message: MessageModel {
                text: hexadecimal(field_of(bits, 0, 71)),
                kind: MessageKind::Telemetry,
                grid: None,
                hashes: Seq::empty(),
                fields: no_fields(),
            },
            learned: None,
        },
    )
}

/// A power level in dBm.
pub open spec fn power_of(n: nat) -> nat {
    (n * 10 + 1) / 3
}

/// `s` without its leading zeros.
pub open spec fn trim_zeros(s: Seq<char>) -> Seq<char>
    decreases s.len(),
{
    if s.len() > 0 && s[0] == '0' {
        trim_zeros(s.skip(1))
    } else {
        s
    }
}

/// A compound call: the base call with the prefix or suffix of number `p`.
pub open spec fn compound(base: Seq<char>, p: nat) -> Option<Seq<char>> {
    if p < 46656 {
        let prefix = trim_zeros(base_digits(p, 3, ALPHANUMERIC@));
        Some((if prefix.len() == 0 { "0"@ } else { prefix }) + "/"@ + base)
    } else {
        let s = (p - 46656) as nat;
        if s < 36 {
            Some(base + "/"@ + base_digits(s, 1, ALPHANUMERIC@))
        } else if s < 1296 {
            Some(base + "/"@ + base_digits(s, 2, ALPHANUMERIC@))
        } else if s < 12960 {
            Some(
                base + "/"@ + seq![
                    CALL_ALPHABET@[(s / 360 + 1) as int],
                    CALL_ALPHABET@[(s / 10 % 36 + 1) as int],
                    digit((s % 10) as int),
                ],
            )
        } else {
            None
        }
    }
}

/// The WSPR beacon with a compound call and a power level.
pub open spec fn wspr_compound(history: History, bits: Seq<bool>) -> Result<Parsed, MessageError> {
    let power = power_of(field_of(bits, 44, 5));
    match call28(history, field_of(bits, 0, 28) as int) {
        Err(error) => Err(error),
        Ok(base) => if power > 60 {
            Err(MessageError::InvalidField)
        } else {
            match compound(base.text, field_of(bits, 28, 16)) {
                None => Err(MessageError::InvalidField),
                Some(call) => Ok(
                    Parsed {
                        message: MessageModel {
                            text: call + " "@ + decimal(power),
                            kind: MessageKind::Wspr,
                            grid: None,
                            hashes: with_hash(Seq::empty(), base),
                            fields: FieldsModel {
                                sender: station(call, base.hash),
                                ..no_fields()
                            },
                        },
                        learned: Some(call),
                    },
                ),
            }
        },
    }
}

/// The WSPR beacon with a call, a locator and a power level.
pub open spec fn wspr_plain(history: History, bits: Seq<bool>) -> Result<Parsed, MessageError> {
    let power = power_of(field_of(bits, 43, 5));
    let place = field_of(bits, 28, 15);
    match call28(history, field_of(bits, 0, 28) as int) {
        Err(error) => Err(error),
        Ok(call) => if place >= 32400 || power > 60 {
            Err(MessageError::InvalidField)
        } else {
            Ok(
                Parsed {
                    message: MessageModel {
                        text: call.text + " "@ + grid_of(place as int) + " "@ + decimal(power),
                        kind: MessageKind::Wspr,
                        grid: Some(grid_of(place as int)),
                        hashes: with_hash(Seq::empty(), call),
                        fields: FieldsModel {
                            sender: station(call.text, call.hash),
                            ..no_fields()
                        },
                    },
                    learned: Some(call.text),
                },
            )
        },
    }
}

/// The locator of a hashed WSPR beacon: 25 by 25 subsquares, the last unused.
pub open spec fn wspr_grid(n: nat) -> Seq<char> {
    let sub = n % 625;
    if sub == 624 {
        grid_of((n / 625) as int)
    } else {
        grid_of((n / 625) as int) + seq![letter((sub / 25) as int), letter((sub % 25) as int)]
    }
}

/// The WSPR beacon with a hashed call and a locator.
pub open spec fn wspr_hashed(history: History, bits: Seq<bool>) -> Result<Parsed, MessageError> {
    let n = field_of(bits, 22, 25);
    let hash = resolve(history, field_of(bits, 0, 22), 22);
    if n / 625 >= 32400 {
        Err(MessageError::InvalidField)
    } else {
        Ok(
            Parsed {
                message: MessageModel {
                    text: shown(hash) + " "@ + wspr_grid(n),
                    kind: MessageKind::Wspr,
                    grid: Some(wspr_grid(n)),
                    hashes: seq![hash],
                    fields: FieldsModel {
                        sender: station(shown(hash), Some(hash)),
                        ..no_fields()
                    },
                },
                learned: None,
            },
        )
    }
}

pub open spec fn wspr(history: History, bits: Seq<bool>) -> Result<Parsed, MessageError> {
    if bits[49] {
        wspr_compound(history, bits)
    } else if !bits[48] {
        wspr_plain(history, bits)
    } else if !bits[47] {
        wspr_hashed(history, bits)
    } else {
        Err(MessageError::InvalidField)
    }
}

/// A directed CQ shows a space where its token has an underscore.
pub open spec fn addressed(a: Seq<char>) -> Seq<char> {
    if starts_with(a, "CQ_"@) {
        a.update(2, ' ')
    } else {
        a
    }
}

/// The portable or rover suffix, on anything but a hash or a short token.
pub open spec fn suffixed(call: Seq<char>, flag: bool, primary: nat) -> Seq<char> {
    if !(call.len() > 0 && call[0] == '<') && call.len() >= 3 && flag {
        call + (if primary == 1 { "/R"@ } else { "/P"@ })
    } else {
        call
    }
}

/// The report carried by an exchange number above 32404.
pub open spec fn report_of(exchange: nat) -> int {
    let snr = exchange - 32435;
    if snr > 50 {
        snr - 101
    } else {
        snr
    }
}

pub open spec fn report_text(snr: int) -> Seq<char> {
    if snr >= 100 {
        decimal(snr as nat)
    } else {
        signed_two(snr)
    }
}

/// What follows the two calls of a standard message without a locator.
pub open spec fn closing(exchange: nat, rogered: bool) -> Seq<char> {
    if exchange == 32401 {
        ""@
    } else if exchange == 32402 {
        " RRR"@
    } else if exchange == 32403 {
        " RR73"@
    } else if exchange == 32404 {
        " 73"@
    } else {
        " "@ + (if rogered { "R"@ } else { ""@ }) + report_text(report_of(exchange))
    }
}

/// What kind of exchange a standard message carries behind its calls.
pub open spec fn carried(exchange: nat, rogered: bool) -> Option<ExchangeType> {
    if exchange < 32400 {
        if grid_of(exchange as int) == "RR73"@ {
            if rogered {
                None
            } else {
                Some(ExchangeType::Rr73)
            }
        } else if rogered {
            Some(ExchangeType::RogerGrid)
        } else {
            Some(ExchangeType::Grid)
        }
    } else if exchange == 32401 {
        Some(ExchangeType::Calls)
    } else if exchange == 32402 {
        Some(ExchangeType::Rrr)
    } else if exchange == 32403 {
        Some(ExchangeType::Rr73)
    } else if exchange == 32404 {
        Some(ExchangeType::Signoff)
    } else if rogered {
        Some(ExchangeType::RogerReport)
    } else {
        Some(ExchangeType::Report)
    }
}

/// Address tokens decide the exchange, whatever the message carries.
pub open spec fn exchange_kind(address: nat, exchange: nat, rogered: bool) -> Option<ExchangeType> {
    if address == 0 {
        Some(ExchangeType::De)
    } else if address == 1 {
        Some(ExchangeType::Qrz)
    } else if address <= 532443 {
        Some(ExchangeType::Cq)
    } else {
        carried(exchange, rogered)
    }
}

/// The text of a standard message whose calls are given.
pub open spec fn standard_text(a: Seq<char>, b: Seq<char>, exchange: nat, rogered: bool) -> Seq<
    char,
> {
    if exchange < 32400 {
        a + " "@ + b + " "@ + roger(rogered) + grid_of(exchange as int)
    } else {
        a + " "@ + b + closing(exchange, rogered)
    }
}

/// A CQ carries a locator or nothing.
pub open spec fn cq_refused(text: Seq<char>, exchange: nat, rogered: bool) -> bool {
    starts_with(text, "CQ "@) && (if exchange < 32400 {
        rogered
    } else {
        exchange >= 32402
    })
}

/// The parts of a standard message, its two call fields decoded.
pub open spec fn standard_from(a: CallModel, b: CallModel, bits: Seq<bool>) -> Result<
    Parsed,
    MessageError,
> {
    let primary = field_of(bits, 74, 3);
    let address = field_of(bits, 0, 28);
    let exchange = field_of(bits, 59, 15);
    let rogered = bits[58];
    let recipient = suffixed(addressed(a.text), bits[28], primary);
    let sender = suffixed(b.text, bits[57], primary);
    let text = standard_text(recipient, sender, exchange, rogered);
    if exchange == 32400 || cq_refused(text, exchange, rogered) {
        Err(MessageError::InvalidField)
    } else {
        Ok(
            Parsed {
                message: MessageModel {
                    text,
                    kind: MessageKind::Standard,
                    grid: if exchange < 32400 && grid_of(exchange as int) != "RR73"@ {
                        Some(grid_of(exchange as int))
                    } else {
                        None
                    },
                    hashes: with_hash(with_hash(Seq::empty(), a), b),
                    fields: FieldsModel {
                        exchange_type: exchange_kind(address, exchange, rogered),
                        recipient: if address >= TOKEN_COUNT {
                            station(recipient, a.hash)
                        } else {
                            None
                        },
                        sender: if field_of(bits, 29, 28) >= TOKEN_COUNT {
                            station(sender, b.hash)
                        } else {
                            None
                        },
                        cq_modifier: if starts_with(a.text, "CQ_"@) {
                            Some(a.text.skip(3))
                        } else {
                            None
                        },
                        report_db: if exchange > 32404 {
                            Some(report_of(exchange) as i32)
                        } else {
                            None
                        },
                    },
                },
                learned: if !(sender.len() > 0 && sender[0] == '<') && sender.len() >= 3 {
                    Some(sender)
                } else {
                    None
                },
            },
        )
    }
}

/// Two calls and a locator, a report or an acknowledgement.
pub open spec fn standard(history: History, bits: Seq<bool>) -> Result<Parsed, MessageError> {
    match call28(history, field_of(bits, 0, 28) as int) {
        Err(error) => Err(error),
        Ok(a) => match call28(history, field_of(bits, 29, 28) as int) {
            Err(error) => Err(error),
            Ok(b) => standard_from(a, b, bits),
        },
    }
}

/// The serial number or multiplier of an RTTY exchange.
pub open spec fn rtty_exchange(n: nat) -> Option<Seq<char>> {
    if 1 <= n <= 7999 {
        Some(digits(n, 4))
    } else if 8001 <= n <= 8171 {
        Some(multiplier_name(n - 8001))
    } else {
        None
    }
}

/// An RTTY contest exchange.
pub open spec fn rtty(history: History, bits: Seq<bool>) -> Result<Parsed, MessageError> {
    match call28(history, field_of(bits, 1, 28) as int) {
        Err(error) => Err(error),
        Ok(a) => match call28(history, field_of(bits, 29, 28) as int) {
            Err(error) => Err(error),
            Ok(b) => match rtty_exchange(field_of(bits, 61, 13)) {
                None => Err(MessageError::InvalidField),
                Some(exchange) => Ok(
                    Parsed {
                        message: MessageModel {
                            text: (if bits[0] { "TU; "@ } else { ""@ }) + a.text + " "@ + b.text
                                + " "@ + roger(bits[57]) + "5"@ + seq![
                                digit(field_of(bits, 58, 3) as int + 2),
                            ] + "9 "@ + exchange,
                            kind: MessageKind::Rtty,
                            grid: None,
                            hashes: with_hash(with_hash(Seq::empty(), a), b),
                            fields: FieldsModel {
                                recipient: station(a.text, a.hash),
                                sender: station(b.text, b.hash),
                                ..no_fields()
                            },
                        },
                        learned: None,
                    },
                ),
            },
        },
    }
}

/// The acknowledgement of a nonstandard call exchange.
pub open spec fn acknowledgement(n: nat) -> (ExchangeType, Seq<char>) {
    if n == 0 {
        (ExchangeType::Calls, ""@)
    } else if n == 1 {
        (ExchangeType::Rrr, " RRR"@)
    } else if n == 2 {
        (ExchangeType::Rr73, " RR73"@)
    } else {
        (ExchangeType::Signoff, " 73"@)
    }
}

/// A call of up to 11 characters with a hashed one, or a CQ.
pub open spec fn nonstandard(history: History, bits: Seq<bool>) -> Result<Parsed, MessageError> {
    let cq = bits[73];
    let flip = bits[70];
    let hash = resolve(history, field_of(bits, 0, 12), 12);
    let bare_cq = cq && !flip;
    let hashed = if bare_cq {
        ""@
    } else {
        shown(hash)
    };
    let own_hash: Option<HashModel> = if bare_cq {
        None
    } else {
        Some(hash)
    };
    let value = field_of(bits, 12, 58);
    let call = trim(base_digits(value, 11, CALL_ALPHABET@));
    let a = if flip {
        call
    } else {
        hashed
    };
    let b = if flip {
        hashed
    } else {
        call
    };
    let (kind, tail) = acknowledgement(field_of(bits, 71, 2));
    if excess(value, 11, 38) != 0 {
        Err(MessageError::InvalidField)
    } else if normal_call(call) is None {
        Err(MessageError::InvalidCallsign)
    } else {
        Ok(
            Parsed {
                message: MessageModel {
                    text: if cq {
                        "CQ "@ + b
                    } else {
                        a + " "@ + b + tail
                    },
                    kind: MessageKind::Nonstandard,
                    grid: None,
                    hashes: if bare_cq {
                        Seq::empty()
                    } else {
                        seq![hash]
                    },
                    fields: FieldsModel {
                        exchange_type: Some(
                            if cq {
                                ExchangeType::Cq
                            } else {
                                kind
                            },
                        ),
                        recipient: if cq {
                            None
                        } else {
                            station(a, own_hash)
                        },
                        sender: station(b, own_hash),
                        ..no_fields()
                    },
                },
                learned: if flip {
                    None
                } else {
                    Some(call)
                },
            },
        )
    }
}

/// Two hashed calls, a report with a serial number and a six character locator.
pub open spec fn vhf(history: History, bits: Seq<bool>) -> Result<Parsed, MessageError> {
    let a = resolve(history, field_of(bits, 0, 12), 12);
    let b = resolve(history, field_of(bits, 12, 22), 22);
    let place = field_of(bits, 49, 25);
    if place / 576 >= 32400 {
        Err(MessageError::InvalidField)
    } else {
        Ok(
            Parsed {
                message: MessageModel {
                    text: shown(a) + " "@ + shown(b) + " "@ + roger(bits[34]) + digits(
                        52 + field_of(bits, 35, 3),
                        2,
                    ) + digits(field_of(bits, 38, 11), 4) + " "@ + grid_six_of(place as int),
                    kind: MessageKind::Vhf,
                    grid: Some(grid_six_of(place as int)),
                    hashes: seq![a, b],
                    fields: FieldsModel {
                        recipient: station(shown(a), Some(a)),
                        sender: station(shown(b), Some(b)),
                        ..no_fields()
                    },
                },
                learned: None,
            },
        )
    }
}

/// The message of a payload by its type, before the call it teaches is checked.
#[verifier::opaque]
pub open spec fn parsed_by_type(history: History, bits: Seq<bool>) -> Result<
    Parsed,
    MessageError,
> {
    let primary = field_of(bits, 74, 3);
    let subtype = field_of(bits, 71, 3);
    if primary == 0 && subtype == 0 {
        free_text(bits)
    } else if primary == 0 && subtype == 1 {
        dxpedition(history, bits)
    } else if primary == 0 && (subtype == 3 || subtype == 4) {
        field_day(history, bits)
    } else if primary == 0 && subtype == 5 {
        telemetry(bits)
    } else if primary == 0 && subtype == 6 {
        wspr(history, bits)
    } else if primary == 1 || primary == 2 {
        standard(history, bits)
    } else if primary == 3 {
        rtty(history, bits)
    } else if primary == 4 {
        nonstandard(history, bits)
    } else if primary == 5 {
        vhf(history, bits)
    } else {
        Err(MessageError::UnsupportedType)
    }
}

/// An unresolved call teaches nothing; any other must be a valid call.
pub open spec fn parsed(history: History, bits: Seq<bool>) -> Result<Parsed, MessageError> {
    match parsed_by_type(history, bits) {
        Err(error) => Err(error),
        Ok(result) => match result.learned {
            None => Ok(result),
            Some(call) => if call == "<...>"@ {
                Ok(Parsed { learned: None, ..result })
            } else if normal_call(call) is None {
                Err(MessageError::InvalidCallsign)
            } else {
                Ok(result)
            },
        },
    }
}

/// Message text is cut to 37 characters.
pub open spec fn enveloped(text: Seq<char>) -> Seq<char> {
    if text.len() > 37 {
        text.take(37)
    } else {
        text
    }
}

/// The message that a payload unpacks to. A CQ to a hashed call is refused.
pub open spec fn unpacked(history: History, bits: Seq<bool>) -> Result<
    MessageModel,
    MessageError,
> {
    match parsed(history, bits) {
        Err(error) => Err(error),
        Ok(result) => if starts_with(result.message.text, "CQ <"@) {
            Err(MessageError::InvalidField)
        } else {
            Ok(MessageModel { text: enveloped(result.message.text), ..result.message })
        },
    }
}

// ---------------------------------------------------------------------------
// History
// ---------------------------------------------------------------------------

/// Place of the first entry with the given hash, or the length without one.
pub open spec fn place_of(entries: Seq<(u32, Seq<char>)>, hash: nat) -> int
    decreases entries.len(),
{
    if entries.len() == 0 || entries[0].0 == hash {
        0
    } else {
        1 + place_of(entries.skip(1), hash)
    }
}

/// Entries after hearing a call: a known hash gets the new call, a new one goes
/// to the front, and at most 1000 are kept.
pub open spec fn entered(entries: Seq<(u32, Seq<char>)>, hash: nat, call: Seq<char>) -> Seq<
    (u32, Seq<char>),
> {
    let place = place_of(entries, hash);
    let entry = (hash as u32, call);
    if place < entries.len() {
        entries.update(place, entry)
    } else {
        let all = seq![entry] + entries;
        if all.len() > 1000 {
            all.take(1000)
        } else {
            all
        }
    }
}

/// History after hearing a call in normal form.
pub open spec fn remembered(history: History, call: Seq<char>) -> History {
    History {
        calls10: history.calls10.update(hash10(call) as int, Some(call)),
        calls12: history.calls12.update(hash12(call) as int, Some(call)),
        calls22: entered(history.calls22, hash22(call), call),
    }
}

/// History after unpacking a payload: only a valid message teaches a call.
pub open spec fn taught(history: History, bits: Seq<bool>) -> History {
    match parsed(history, bits) {
        Err(_) => history,
        Ok(result) => match result.learned {
            Some(call) if !starts_with(result.message.text, "CQ <"@) => remembered(
                history,
                normal_call(call)->0,
            ),
            _ => history,
        },
    }
}

/// Nothing heard.
pub open spec fn silence() -> History {
    History {
        calls10: Seq::new(1024, |i: int| None),
        calls12: Seq::new(4096, |i: int| None),
        calls22: Seq::empty(),
    }
}

} // verus!
