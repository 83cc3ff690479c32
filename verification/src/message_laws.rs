//! What holds of every received message.
use vstd::arithmetic::power2::{lemma2_to64, pow2};
use vstd::prelude::*;
use crate::callsign::{
    all_call_chars, base_digits, hash10, hash12, hash22, hashes_nest, is_call_char, normal_call,
    without_brackets, ALPHANUMERIC, CALL_ALPHABET, LETTERS, TEXT_ALPHABET,
};
use crate::message::{
    consistent, lemma_base_digits, lemma_number_bound, lemma_place, lemma_place_unique,
    lemma_trim_end_keeps_start, lemma_trim_end_part, lemma_trim_parts, lemma_trim_start_part,
    lemma_zeros_part, resolutions_carry_their_hash, MessageKind,
};
use crate::message_tables::{multiplier_name, section_name, CMULT, CSEC};
use crate::text::{
    decimal, digit, digits, hexadecimal, letter, starts_with, trim, trim_end, trim_start, uppercase,
};
use crate::wire::{
    acknowledgement, addressed, call28, call_digits, closing, compound, dxpedition, field_day,
    field_of, free_text, grid_of, grid_six_of, no_fields, nonstandard, parsed, parsed_by_type,
    place_of, power_of, remembered, report_of, report_text, resolve, roger, rtty, rtty_exchange,
    shown, signed_two, silence, standard, standard_text, station, suffixed, telemetry, token_text,
    trim_zeros, unpacked, vhf, with_hash, wspr_compound, wspr_grid, wspr_hashed, wspr_plain,
    HashModel, History, MessageModel, StationModel, HASH22_COUNT, TOKEN_COUNT,
};

verus! {

// ---------------------------------------------------------------------------
// Fields by kind
// ---------------------------------------------------------------------------

/// Which fields a message of each kind may fill: only standard and nonstandard messages
/// are exchanges, only standard ones carry reports and directions, and free text and
/// telemetry fill nothing and teach nothing.
pub proof fn fields_belong_to_kinds(history: History, bits: Seq<bool>)
    ensures
        parsed(history, bits) matches Ok(result) ==> {
            let m = result.message;
            &&& m.fields.exchange_type is Some ==> m.kind == MessageKind::Standard || m.kind
                == MessageKind::Nonstandard
            &&& m.fields.report_db is Some ==> m.kind == MessageKind::Standard
            &&& m.fields.cq_modifier is Some ==> m.kind == MessageKind::Standard
            &&& m.kind == MessageKind::FreeText || m.kind == MessageKind::Telemetry ==> {
                &&& m.fields == no_fields()
                &&& m.grid is None
                &&& m.hashes.len() == 0
                &&& result.learned is None
            }
        },
        unpacked(history, bits) matches Ok(m) ==> parsed(history, bits) matches Ok(result)
            && m.kind == result.message.kind && m.fields == result.message.fields && m.grid
            == result.message.grid && m.hashes == result.message.hashes,
{
    reveal(parsed_by_type);
}

// ---------------------------------------------------------------------------
// Characters
// ---------------------------------------------------------------------------

/// A printable ASCII character.
pub open spec fn is_ascii_char(c: char) -> bool {
    ' ' <= c <= '~'
}

/// A printable ASCII character other than an angle bracket.
pub open spec fn is_clean_char(c: char) -> bool {
    is_ascii_char(c) && c != '<' && c != '>'
}

pub open spec fn all_ascii(s: Seq<char>) -> bool {
    forall|i: int| 0 <= i < s.len() ==> is_ascii_char(#[trigger] s[i])
}

pub open spec fn all_clean(s: Seq<char>) -> bool {
    forall|i: int| 0 <= i < s.len() ==> is_clean_char(#[trigger] s[i])
}

proof fn lemma_contained_clean(part: Seq<char>, whole: Seq<char>)
    requires
        all_clean(whole),
        forall|i: int| 0 <= i < part.len() ==> whole.contains(#[trigger] part[i]),
    ensures
        all_clean(part),
{
    assert forall|i: int| 0 <= i < part.len() implies is_clean_char(#[trigger] part[i]) by {
        let k = choose|k: int| 0 <= k < whole.len() && whole[k] == part[i];
        assert(is_clean_char(whole[k]));
    }
}

proof fn lemma_alphabets_clean()
    ensures
        all_clean(CALL_ALPHABET@),
        all_clean(TEXT_ALPHABET@),
        all_clean(LETTERS@),
        all_clean(ALPHANUMERIC@),
{
}

proof fn lemma_spelled_clean(value: nat, width: nat, alphabet: Seq<char>)
    requires
        alphabet.len() > 0,
        all_clean(alphabet),
    ensures
        all_clean(base_digits(value, width, alphabet)),
        all_clean(trim(base_digits(value, width, alphabet))),
        all_clean(trim_start(base_digits(value, width, alphabet))),
        all_clean(trim_zeros(base_digits(value, width, alphabet))),
{
    let s = base_digits(value, width, alphabet);
    lemma_base_digits(value, width, alphabet);
    lemma_contained_clean(s, alphabet);
    lemma_trim_parts(s);
    lemma_contained_clean(trim(s), s);
    lemma_trim_start_part(s);
    lemma_contained_clean(trim_start(s), s);
    lemma_zeros_part(s);
    lemma_contained_clean(trim_zeros(s), s);
}

proof fn lemma_decimal_clean(n: nat)
    ensures
        all_clean(decimal(n)),
    decreases n,
{
    if n >= 10 {
        lemma_decimal_clean(n / 10);
    }
}

proof fn lemma_digits_clean(n: nat, width: nat)
    ensures
        all_clean(digits(n, width)),
    decreases width,
{
    if width > 0 {
        lemma_digits_clean(n / 10, (width - 1) as nat);
    }
}

proof fn lemma_hexadecimal_clean(n: nat)
    ensures
        all_clean(hexadecimal(n)),
    decreases n,
{
    if n > 0 {
        lemma_hexadecimal_clean(n / 16);
    }
}

proof fn lemma_grid_clean(n: int)
    requires
        0 <= n < 32400,
    ensures
        all_clean(grid_of(n)),
{
}

proof fn lemma_sections_0(i: int)
    requires
        0 <= i < 30,
    ensures
        all_clean(CSEC@[i]@),
{
    reveal_strlit("AB");
    reveal_strlit("AK");
    reveal_strlit("AL");
    reveal_strlit("AR");
    reveal_strlit("AZ");
    reveal_strlit("BC");
    reveal_strlit("CO");
    reveal_strlit("CT");
    reveal_strlit("DE");
    reveal_strlit("EB");
    reveal_strlit("EMA");
    reveal_strlit("ENY");
    reveal_strlit("EPA");
    reveal_strlit("EWA");
    reveal_strlit("GA");
    reveal_strlit("GH");
    reveal_strlit("IA");
    reveal_strlit("ID");
    reveal_strlit("IL");
    reveal_strlit("IN");
    reveal_strlit("KS");
    reveal_strlit("KY");
    reveal_strlit("LA");
    reveal_strlit("LAX");
    reveal_strlit("NS");
    reveal_strlit("MB");
    reveal_strlit("MDC");
    reveal_strlit("ME");
    reveal_strlit("MI");
    reveal_strlit("MN");
}

proof fn lemma_sections_1(i: int)
    requires
        30 <= i < 60,
    ensures
        all_clean(CSEC@[i]@),
{
    reveal_strlit("MO");
    reveal_strlit("MS");
    reveal_strlit("MT");
    reveal_strlit("NC");
    reveal_strlit("ND");
    reveal_strlit("NE");
    reveal_strlit("NFL");
    reveal_strlit("NH");
    reveal_strlit("NL");
    reveal_strlit("NLI");
    reveal_strlit("NM");
    reveal_strlit("NNJ");
    reveal_strlit("NNY");
    reveal_strlit("TER");
    reveal_strlit("NTX");
    reveal_strlit("NV");
    reveal_strlit("OH");
    reveal_strlit("OK");
    reveal_strlit("ONE");
    reveal_strlit("ONN");
    reveal_strlit("ONS");
    reveal_strlit("OR");
    reveal_strlit("ORG");
    reveal_strlit("PAC");
    reveal_strlit("PR");
    reveal_strlit("QC");
    reveal_strlit("RI");
    reveal_strlit("SB");
    reveal_strlit("SC");
    reveal_strlit("SCV");
}

proof fn lemma_sections_2(i: int)
    requires
        60 <= i < 86,
    ensures
        all_clean(CSEC@[i]@),
{
    reveal_strlit("SD");
    reveal_strlit("SDG");
    reveal_strlit("SF");
    reveal_strlit("SFL");
    reveal_strlit("SJV");
    reveal_strlit("SK");
    reveal_strlit("SNJ");
    reveal_strlit("STX");
    reveal_strlit("SV");
    reveal_strlit("TN");
    reveal_strlit("UT");
    reveal_strlit("VA");
    reveal_strlit("VI");
    reveal_strlit("VT");
    reveal_strlit("WCF");
    reveal_strlit("WI");
    reveal_strlit("WMA");
    reveal_strlit("WNY");
    reveal_strlit("WPA");
    reveal_strlit("WTX");
    reveal_strlit("WV");
    reveal_strlit("WWA");
    reveal_strlit("WY");
    reveal_strlit("DX");
    reveal_strlit("PE");
    reveal_strlit("NB");
}

proof fn lemma_multipliers_0(i: int)
    requires
        0 <= i < 30,
    ensures
        all_clean(CMULT@[i]@),
{
    reveal_strlit("AL");
    reveal_strlit("AK");
    reveal_strlit("AZ");
    reveal_strlit("AR");
    reveal_strlit("CA");
    reveal_strlit("CO");
    reveal_strlit("CT");
    reveal_strlit("DE");
    reveal_strlit("FL");
    reveal_strlit("GA");
    reveal_strlit("HI");
    reveal_strlit("ID");
    reveal_strlit("IL");
    reveal_strlit("IN");
    reveal_strlit("IA");
    reveal_strlit("KS");
    reveal_strlit("KY");
    reveal_strlit("LA");
    reveal_strlit("ME");
    reveal_strlit("MD");
    reveal_strlit("MA");
    reveal_strlit("MI");
    reveal_strlit("MN");
    reveal_strlit("MS");
    reveal_strlit("MO");
    reveal_strlit("MT");
    reveal_strlit("NE");
    reveal_strlit("NV");
    reveal_strlit("NH");
    reveal_strlit("NJ");
}

proof fn lemma_multipliers_1(i: int)
    requires
        30 <= i < 60,
    ensures
        all_clean(CMULT@[i]@),
{
    reveal_strlit("NM");
    reveal_strlit("NY");
    reveal_strlit("NC");
    reveal_strlit("ND");
    reveal_strlit("OH");
    reveal_strlit("OK");
    reveal_strlit("OR");
    reveal_strlit("PA");
    reveal_strlit("RI");
    reveal_strlit("SC");
    reveal_strlit("SD");
    reveal_strlit("TN");
    reveal_strlit("TX");
    reveal_strlit("UT");
    reveal_strlit("VT");
    reveal_strlit("VA");
    reveal_strlit("WA");
    reveal_strlit("WV");
    reveal_strlit("WI");
    reveal_strlit("WY");
    reveal_strlit("NB");
    reveal_strlit("NS");
    reveal_strlit("QC");
    reveal_strlit("ON");
    reveal_strlit("MB");
    reveal_strlit("SK");
    reveal_strlit("AB");
    reveal_strlit("BC");
    reveal_strlit("NWT");
    reveal_strlit("NF");
}

proof fn lemma_multipliers_2(i: int)
    requires
        60 <= i < 90,
    ensures
        all_clean(CMULT@[i]@),
{
    reveal_strlit("LB");
    reveal_strlit("NU");
    reveal_strlit("YT");
    reveal_strlit("PEI");
    reveal_strlit("DC");
    reveal_strlit("DR");
    reveal_strlit("FR");
    reveal_strlit("GD");
    reveal_strlit("GR");
    reveal_strlit("OV");
    reveal_strlit("ZH");
    reveal_strlit("ZL");
    reveal_strlit("X01");
    reveal_strlit("X02");
    reveal_strlit("X03");
    reveal_strlit("X04");
    reveal_strlit("X05");
    reveal_strlit("X06");
    reveal_strlit("X07");
    reveal_strlit("X08");
    reveal_strlit("X09");
    reveal_strlit("X10");
    reveal_strlit("X11");
    reveal_strlit("X12");
    reveal_strlit("X13");
    reveal_strlit("X14");
    reveal_strlit("X15");
    reveal_strlit("X16");
    reveal_strlit("X17");
    reveal_strlit("X18");
}

proof fn lemma_multipliers_3(i: int)
    requires
        90 <= i < 120,
    ensures
        all_clean(CMULT@[i]@),
{
    reveal_strlit("X19");
    reveal_strlit("X20");
    reveal_strlit("X21");
    reveal_strlit("X22");
    reveal_strlit("X23");
    reveal_strlit("X24");
    reveal_strlit("X25");
    reveal_strlit("X26");
    reveal_strlit("X27");
    reveal_strlit("X28");
    reveal_strlit("X29");
    reveal_strlit("X30");
    reveal_strlit("X31");
    reveal_strlit("X32");
    reveal_strlit("X33");
    reveal_strlit("X34");
    reveal_strlit("X35");
    reveal_strlit("X36");
    reveal_strlit("X37");
    reveal_strlit("X38");
    reveal_strlit("X39");
    reveal_strlit("X40");
    reveal_strlit("X41");
    reveal_strlit("X42");
    reveal_strlit("X43");
    reveal_strlit("X44");
    reveal_strlit("X45");
    reveal_strlit("X46");
    reveal_strlit("X47");
    reveal_strlit("X48");
}

proof fn lemma_multipliers_4(i: int)
    requires
        120 <= i < 150,
    ensures
        all_clean(CMULT@[i]@),
{
    reveal_strlit("X49");
    reveal_strlit("X50");
    reveal_strlit("X51");
    reveal_strlit("X52");
    reveal_strlit("X53");
    reveal_strlit("X54");
    reveal_strlit("X55");
    reveal_strlit("X56");
    reveal_strlit("X57");
    reveal_strlit("X58");
    reveal_strlit("X59");
    reveal_strlit("X60");
    reveal_strlit("X61");
    reveal_strlit("X62");
    reveal_strlit("X63");
    reveal_strlit("X64");
    reveal_strlit("X65");
    reveal_strlit("X66");
    reveal_strlit("X67");
    reveal_strlit("X68");
    reveal_strlit("X69");
    reveal_strlit("X70");
    reveal_strlit("X71");
    reveal_strlit("X72");
    reveal_strlit("X73");
    reveal_strlit("X74");
    reveal_strlit("X75");
    reveal_strlit("X76");
    reveal_strlit("X77");
    reveal_strlit("X78");
}

proof fn lemma_multipliers_5(i: int)
    requires
        150 <= i < 171,
    ensures
        all_clean(CMULT@[i]@),
{
    reveal_strlit("X79");
    reveal_strlit("X80");
    reveal_strlit("X81");
    reveal_strlit("X82");
    reveal_strlit("X83");
    reveal_strlit("X84");
    reveal_strlit("X85");
    reveal_strlit("X86");
    reveal_strlit("X87");
    reveal_strlit("X88");
    reveal_strlit("X89");
    reveal_strlit("X90");
    reveal_strlit("X91");
    reveal_strlit("X92");
    reveal_strlit("X93");
    reveal_strlit("X94");
    reveal_strlit("X95");
    reveal_strlit("X96");
    reveal_strlit("X97");
    reveal_strlit("X98");
    reveal_strlit("X99");
}

proof fn lemma_section_clean(i: int)
    requires
        0 <= i < 86,
    ensures
        all_clean(section_name(i)),
{
    reveal(section_name);
    if i < 30 {
        lemma_sections_0(i);
    } else if i < 60 {
        lemma_sections_1(i);
    } else {
        lemma_sections_2(i);
    }
}

proof fn lemma_multiplier_clean(i: int)
    requires
        0 <= i < 171,
    ensures
        all_clean(multiplier_name(i)),
{
    reveal(multiplier_name);
    if i < 30 {
        lemma_multipliers_0(i);
    } else if i < 60 {
        lemma_multipliers_1(i);
    } else if i < 90 {
        lemma_multipliers_2(i);
    } else if i < 120 {
        lemma_multipliers_3(i);
    } else if i < 150 {
        lemma_multipliers_4(i);
    } else {
        lemma_multipliers_5(i);
    }
}

// ---------------------------------------------------------------------------
// Stations, hashes and text
// ---------------------------------------------------------------------------

/// A hash of 10, 12 or 22 bits within its width.
pub open spec fn is_sound_hash(hash: HashModel) -> bool {
    (hash.width == 10 && hash.value < 1024) || (hash.width == 12 && hash.value < 4096) || (
    hash.width == 22 && hash.value < HASH22_COUNT)
}

/// A hashed station is what its hash resolves to, and its hash is among the message's;
/// any other names its call. No call is in brackets.
pub open spec fn is_known_station(station: StationModel, hashes: Seq<HashModel>) -> bool {
    &&& match station.hash {
        Some(hash) => station.call == hash.resolved && hashes.contains(hash),
        None => station.call is Some,
    }
    &&& station.call matches Some(call) ==> all_clean(call)
}

/// Sound text, hashes and stations.
pub open spec fn is_sound(message: MessageModel) -> bool {
    &&& all_ascii(message.text)
    &&& forall|i: int| 0 <= i < message.hashes.len() ==> is_sound_hash(#[trigger] message.hashes[i])
    &&& message.fields.sender matches Some(station) ==> is_known_station(station, message.hashes)
    &&& message.fields.recipient matches Some(station) ==> is_known_station(station, message.hashes)
}

/// A call field and its text: bracketed where it is a hash, clean where it is none.
spec fn is_sound_call(text: Seq<char>, hash: Option<HashModel>) -> bool {
    match hash {
        Some(hash) => {
            &&& text == shown(hash)
            &&& is_sound_hash(hash)
            &&& hash.resolved matches Some(call) ==> all_clean(call) && all_call_chars(call)
        },
        None => text.len() > 0 && all_clean(text),
    }
}

proof fn lemma_field_bound(bits: Seq<bool>, start: int, width: int)
    requires
        0 <= start,
        0 <= width,
        start + width <= bits.len(),
    ensures
        field_of(bits, start, width) < pow2(width as nat),
{
    lemma_number_bound(bits.subrange(start, start + width));
}

proof fn lemma_normal_call_clean(call: Seq<char>)
    requires
        normal_call(call) == Some(call),
    ensures
        all_clean(call),
        all_call_chars(call),
{
    assert forall|i: int| 0 <= i < call.len() implies is_clean_char(#[trigger] call[i]) by {
        assert(is_call_char(call[i]));
    }
}

proof fn lemma_resolution(history: History, value: nat, width: int)
    requires
        consistent(history),
        (width == 10 && value < 1024) || (width == 12 && value < 4096) || (width == 22 && value
            < HASH22_COUNT),
    ensures
        is_sound_call(shown(resolve(history, value, width)), Some(resolve(history, value, width))),
{
    resolutions_carry_their_hash(history, value, width);
    if let Some(call) = resolve(history, value, width).resolved {
        lemma_normal_call_clean(call);
    }
}

proof fn lemma_shown(text: Seq<char>, hash: Option<HashModel>)
    requires
        is_sound_call(text, hash),
    ensures
        all_ascii(text),
        text.len() > 0,
        hash is Some <==> text[0] == '<',
        hash is Some ==> text.last() == '>' && text.len() >= 2,
{
    reveal_strlit("<");
    reveal_strlit(">");
    reveal_strlit("...");
    if let Some(h) = hash {
        let inner = match h.resolved {
            Some(call) => call,
            None => "..."@,
        };
        assert(text =~= "<"@ + inner + ">"@);
        assert(all_clean(inner));
        assert forall|i: int| 0 <= i < text.len() implies is_ascii_char(#[trigger] text[i]) by {
            if 0 < i < text.len() - 1 {
                assert(text[i] == inner[i - 1]);
            }
        }
    } else {
        assert(is_clean_char(text[0]));
    }
}

proof fn lemma_station_known(text: Seq<char>, hash: Option<HashModel>, hashes: Seq<HashModel>)
    requires
        is_sound_call(text, hash),
        hash matches Some(h) ==> hashes.contains(h),
    ensures
        station(text, hash) matches Some(s) ==> is_known_station(s, hashes),
{
    lemma_shown(text, hash);
}

proof fn lemma_token_clean(value: int)
    requires
        0 <= value,
    ensures
        token_text(value) matches Ok(text) ==> text.len() > 0 && all_clean(text),
{
    reveal_strlit("DE");
    reveal_strlit("QRZ");
    reveal_strlit("CQ");
    reveal_strlit("CQ_");
    if 3 <= value <= 1002 {
        lemma_digits_clean((value - 3) as nat, 3);
        let tail = digits((value - 3) as nat, 3);
        assert(all_clean("CQ_"@ + tail));
    } else if 1002 < value <= 532443 {
        lemma_alphabets_clean();
        let tail = trim_start(base_digits((value - 1003) as nat, 4, LETTERS@));
        lemma_spelled_clean((value - 1003) as nat, 4, LETTERS@);
        let whole = "CQ_"@ + tail;
        assert(all_clean(whole));
        lemma_trim_end_part(whole);
        lemma_contained_clean(trim_end(whole), whole);
        lemma_trim_end_keeps_start(whole);
    }
}

proof fn lemma_call_clean(history: History, value: int)
    requires
        consistent(history),
        0 <= value < 268435456,
    ensures
        call28(history, value) matches Ok(call) ==> is_sound_call(call.text, call.hash),
{
    reveal(call28);
    if value < TOKEN_COUNT {
        lemma_token_clean(value);
    } else if value < TOKEN_COUNT + HASH22_COUNT {
        lemma_resolution(history, (value - TOKEN_COUNT) as nat, 22);
    } else {
        lemma_alphabets_clean();
        let s = call_digits(value - TOKEN_COUNT - HASH22_COUNT);
        assert(all_clean(s));
        lemma_trim_parts(s);
        lemma_contained_clean(trim(s), s);
    }
}

/// The two call fields of a message with two calls, decoded.
proof fn lemma_two_calls(history: History, first: int, second: int)
    requires
        consistent(history),
        0 <= first < 268435456,
        0 <= second < 268435456,
    ensures
        call28(history, first) matches Ok(a) ==> (call28(history, second) matches Ok(b) ==> {
            let hashes = with_hash(with_hash(Seq::empty(), a), b);
            &&& is_sound_call(a.text, a.hash)
            &&& is_sound_call(b.text, b.hash)
            &&& all_ascii(a.text)
            &&& all_ascii(b.text)
            &&& a.hash matches Some(h) ==> hashes.contains(h)
            &&& b.hash matches Some(h) ==> hashes.contains(h)
            &&& forall|i: int| 0 <= i < hashes.len() ==> is_sound_hash(#[trigger] hashes[i])
            &&& station(a.text, a.hash) matches Some(s) ==> is_known_station(s, hashes)
            &&& station(b.text, b.hash) matches Some(s) ==> is_known_station(s, hashes)
        }),
{
    lemma_call_clean(history, first);
    lemma_call_clean(history, second);
    if let Ok(a) = call28(history, first) {
        if let Ok(b) = call28(history, second) {
            let hashes = with_hash(with_hash(Seq::empty(), a), b);
            if let Some(h) = b.hash {
                assert(hashes.last() == h);
            }
            if let Some(h) = a.hash {
                assert(hashes[0] == h);
            }
            lemma_shown(a.text, a.hash);
            lemma_shown(b.text, b.hash);
            lemma_station_known(a.text, a.hash, hashes);
            lemma_station_known(b.text, b.hash, hashes);
        }
    }
}

proof fn lemma_fields_bounded(bits: Seq<bool>)
    requires
        bits.len() == 77,
    ensures
        field_of(bits, 0, 28) < 268435456,
        field_of(bits, 1, 28) < 268435456,
        field_of(bits, 28, 28) < 268435456,
        field_of(bits, 29, 28) < 268435456,
        field_of(bits, 0, 12) < 4096,
        field_of(bits, 0, 22) < HASH22_COUNT,
        field_of(bits, 12, 22) < HASH22_COUNT,
        field_of(bits, 56, 10) < 1024,
        field_of(bits, 28, 16) < 65536,
        field_of(bits, 58, 3) < 8,
        field_of(bits, 61, 3) < 8,
        field_of(bits, 66, 5) < 32,
{
    lemma2_to64();
    lemma_field_bound(bits, 0, 28);
    lemma_field_bound(bits, 1, 28);
    lemma_field_bound(bits, 28, 28);
    lemma_field_bound(bits, 29, 28);
    lemma_field_bound(bits, 0, 12);
    lemma_field_bound(bits, 0, 22);
    lemma_field_bound(bits, 12, 22);
    lemma_field_bound(bits, 56, 10);
    lemma_field_bound(bits, 28, 16);
    lemma_field_bound(bits, 58, 3);
    lemma_field_bound(bits, 61, 3);
    lemma_field_bound(bits, 66, 5);
}

proof fn lemma_joined_ascii(a: Seq<char>, b: Seq<char>)
    requires
        all_ascii(a),
        all_ascii(b),
    ensures
        all_ascii(a + b),
{
}

proof fn lemma_signed_clean(n: int)
    ensures
        all_clean(signed_two(n)),
{
    reveal_strlit("-");
    reveal_strlit("+");
    if n < 0 {
        lemma_digits_clean((-n) as nat, 2);
    } else {
        lemma_digits_clean(n as nat, 2);
    }
}

proof fn lemma_roger_ascii(flag: bool)
    ensures
        all_ascii(roger(flag)),
{
    reveal_strlit("R ");
    reveal_strlit("");
}

proof fn lemma_space()
    ensures
        all_ascii(" "@),
        " "@.len() == 1,
{
    reveal_strlit(" ");
}

proof fn lemma_free_text_sound(bits: Seq<bool>)
    ensures
        free_text(bits) matches Ok(r) ==> is_sound(r.message),
{
    lemma_alphabets_clean();
    lemma_spelled_clean(field_of(bits, 0, 71), 13, TEXT_ALPHABET@);
}

proof fn lemma_telemetry_sound(bits: Seq<bool>)
    ensures
        telemetry(bits) matches Ok(r) ==> is_sound(r.message),
{
    lemma_hexadecimal_clean(field_of(bits, 0, 71));
}

proof fn lemma_dxpedition_sound(history: History, bits: Seq<bool>)
    requires
        consistent(history),
        bits.len() == 77,
    ensures
        dxpedition(history, bits) matches Ok(r) ==> is_sound(r.message),
{
    lemma_fields_bounded(bits);
    let first = field_of(bits, 0, 28) as int;
    let second = field_of(bits, 28, 28) as int;
    lemma_two_calls(history, first, second);
    if let Ok(r) = dxpedition(history, bits) {
        let a = call28(history, first)->Ok_0;
        let b = call28(history, second)->Ok_0;
        let c = resolve(history, field_of(bits, 56, 10), 10);
        lemma_resolution(history, field_of(bits, 56, 10), 10);
        lemma_shown(shown(c), Some(c));
        lemma_space();
        reveal_strlit(" RR73; ");
        let report = signed_two(2 * field_of(bits, 66, 5) - 30);
        lemma_signed_clean(2 * field_of(bits, 66, 5) - 30);
        assert(all_ascii(a.text + " RR73; "@));
        lemma_joined_ascii(a.text + " RR73; "@, b.text);
        lemma_joined_ascii(a.text + " RR73; "@ + b.text, " "@);
        lemma_joined_ascii(a.text + " RR73; "@ + b.text + " "@, shown(c));
        lemma_joined_ascii(a.text + " RR73; "@ + b.text + " "@ + shown(c), " "@);
        assert(all_ascii(report));
        lemma_joined_ascii(a.text + " RR73; "@ + b.text + " "@ + shown(c) + " "@, report);
    }
}

proof fn lemma_field_day_sound(history: History, bits: Seq<bool>)
    requires
        consistent(history),
        bits.len() == 77,
    ensures
        field_day(history, bits) matches Ok(r) ==> is_sound(r.message),
{
    lemma_fields_bounded(bits);
    let first = field_of(bits, 0, 28) as int;
    let second = field_of(bits, 28, 28) as int;
    lemma_two_calls(history, first, second);
    if let Ok(r) = field_day(history, bits) {
        let a = call28(history, first)->Ok_0;
        let b = call28(history, second)->Ok_0;
        let count = field_of(bits, 57, 4) + 1 + (if field_of(bits, 71, 3) == 4 {
            16nat
        } else {
            0nat
        });
        let section = field_of(bits, 64, 7);
        let class = seq![letter(field_of(bits, 61, 3) as int)];
        lemma_space();
        lemma_section_clean(section - 1);
        lemma_decimal_clean(count);
        lemma_roger_ascii(bits[56]);
        let t1 = a.text + " "@;
        let t2 = t1 + b.text;
        let t3 = t2 + " "@;
        let t4 = t3 + roger(bits[56]);
        let t5 = t4 + decimal(count);
        let t6 = t5 + class;
        let t7 = t6 + " "@;
        lemma_joined_ascii(a.text, " "@);
        lemma_joined_ascii(t1, b.text);
        lemma_joined_ascii(t2, " "@);
        lemma_joined_ascii(t3, roger(bits[56]));
        lemma_joined_ascii(t4, decimal(count));
        assert(all_ascii(class));
        lemma_joined_ascii(t5, class);
        lemma_joined_ascii(t6, " "@);
        lemma_joined_ascii(t7, section_name(section - 1));
    }
}

proof fn lemma_compound_clean(base: Seq<char>, p: nat)
    requires
        p < 65536,
        base.len() > 0,
    ensures
        compound(base, p) matches Some(call) ==> {
            &&& all_clean(base) ==> all_clean(call)
            &&& call.len() > base.len()
            &&& base[0] == '<' && base.last() == '>' ==> call.contains('<') && call[0] != ' '
                && call.last() != ' ' && !(call[0] == '<' && call.last() == '>')
            &&& base[0] != '<' ==> call[0] != '<'
        },
{
    lemma_alphabets_clean();
    reveal_strlit("/");
    reveal_strlit("0");
    if let Some(call) = compound(base, p) {
        if p < 46656 {
            let all = base_digits(p, 3, ALPHANUMERIC@);
            lemma_base_digits(p, 3, ALPHANUMERIC@);
            lemma_spelled_clean(p, 3, ALPHANUMERIC@);
            lemma_zeros_part(all);
            let digits3 = trim_zeros(all);
            let prefix = if digits3.len() == 0 {
                "0"@
            } else {
                digits3
            };
            assert(all_clean(prefix));
            assert(call =~= prefix + "/"@ + base);
            assert(call[(prefix.len() + 1) as int] == base[0]);
            if digits3.len() > 0 {
                assert(all.contains(digits3[0]));
                let k = choose|k: int| 0 <= k < all.len() && all[k] == digits3[0];
                assert(ALPHANUMERIC@.contains(all[k]));
                let j = choose|j: int| 0 <= j < ALPHANUMERIC@.len() && ALPHANUMERIC@[j] == all[k];
                assert(ALPHANUMERIC@[j] != ' ' && ALPHANUMERIC@[j] != '<');
            }
        } else {
            let s = (p - 46656) as nat;
            let tail = call.skip((base.len() + 1) as int);
            if s < 36 {
                lemma_tail_clean(s, 1);
                assert(tail =~= base_digits(s, 1, ALPHANUMERIC@));
            } else if s < 1296 {
                lemma_tail_clean(s, 2);
                assert(tail =~= base_digits(s, 2, ALPHANUMERIC@));
            } else {
                assert(tail =~= seq![
                    CALL_ALPHABET@[(s / 360 + 1) as int],
                    CALL_ALPHABET@[(s / 10 % 36 + 1) as int],
                    digit((s % 10) as int),
                ]);
                assert(all_clean(tail));
                assert(tail.last() == digit((s % 10) as int));
            }
            assert(call =~= base + "/"@ + tail);
            assert(call[0] == base[0]);
            assert(call.last() == tail.last());
        }
    }
}

proof fn lemma_tail_clean(s: nat, width: nat)
    requires
        width > 0,
    ensures
        all_clean(base_digits(s, width, ALPHANUMERIC@)),
        base_digits(s, width, ALPHANUMERIC@).len() == width,
        base_digits(s, width, ALPHANUMERIC@).last() != ' ',
        base_digits(s, width, ALPHANUMERIC@).last() != '>',
{
    lemma_alphabets_clean();
    lemma_base_digits(s, width, ALPHANUMERIC@);
    lemma_spelled_clean(s, width, ALPHANUMERIC@);
    let all = base_digits(s, width, ALPHANUMERIC@);
    assert(ALPHANUMERIC@.contains(all[width - 1]));
    let j = choose|j: int| 0 <= j < ALPHANUMERIC@.len() && ALPHANUMERIC@[j] == all[width - 1];
    assert(ALPHANUMERIC@[j] != ' ');
}

/// A call with a bracket inside is no valid call.
proof fn lemma_brackets_refused(call: Seq<char>)
    requires
        call.len() > 0,
        call.contains('<'),
        call[0] != ' ',
        call.last() != ' ',
        all_ascii(call),
        !(call[0] == '<' && call.last() == '>'),
    ensures
        normal_call(call) is None,
{
    assert(is_ascii_char(call[0]) && is_ascii_char(call[call.len() - 1]));
    assert(trim(call) == call);
    assert(without_brackets(call) == call);
    let k = choose|k: int| 0 <= k < call.len() && call[k] == '<';
    let bare = uppercase(call);
    assert(bare[k] == '<');
    assert(!is_call_char(bare[k]));
}

proof fn lemma_wspr_compound_sound(history: History, bits: Seq<bool>)
    requires
        consistent(history),
        bits.len() == 77,
    ensures
        wspr_compound(history, bits) matches Ok(r) ==> (r.learned matches Some(call) ==> call
            != "<...>"@ && (normal_call(call) is Some ==> is_sound(r.message))),
{
    lemma_fields_bounded(bits);
    let value = field_of(bits, 0, 28) as int;
    let p = field_of(bits, 28, 16);
    lemma_call_clean(history, value);
    if let Ok(r) = wspr_compound(history, bits) {
        let base = call28(history, value)->Ok_0;
        lemma_shown(base.text, base.hash);
        lemma_compound_clean(base.text, p);
        let call = compound(base.text, p)->0;
        let power = power_of(field_of(bits, 44, 5));
        assert(base.text.last() == base.text[base.text.len() - 1]);
        reveal_strlit("<...>");
        if call == "<...>"@ {
            assert(call[0] == '<' && call.last() == '>');
            assert(base.hash is Some);
            assert(false);
        }
        if normal_call(call) is Some {
            if base.hash is Some {
                lemma_compound_ascii(base.text, p);
                lemma_brackets_refused(call);
            } else {
                lemma_space();
                lemma_decimal_clean(power);
                assert(all_ascii(call));
                lemma_joined_ascii(call, " "@);
                lemma_joined_ascii(call + " "@, decimal(power));
                lemma_station_known(call, base.hash, r.message.hashes);
            }
        }
    }
}

proof fn lemma_compound_ascii(base: Seq<char>, p: nat)
    requires
        p < 65536,
        base.len() > 0,
        all_ascii(base),
    ensures
        compound(base, p) matches Some(call) ==> all_ascii(call),
{
    let bare = seq!['A'];
    lemma_compound_clean(bare, p);
    reveal_strlit("/");
    reveal_strlit("0");
    if let Some(call) = compound(base, p) {
        let other = compound(bare, p)->0;
        if p < 46656 {
            let n = call.len() - base.len();
            assert(call =~= other.take(n) + base);
            assert forall|i: int| 0 <= i < n implies is_ascii_char(#[trigger] call[i]) by {
                assert(call[i] == other[i]);
                assert(is_clean_char(other[i]));
            }
        } else {
            let n = base.len() as int;
            assert(call =~= base + other.skip(1));
            assert forall|i: int| n <= i < call.len() implies is_ascii_char(#[trigger] call[i]) by {
                assert(call[i] == other[i - n + 1]);
                assert(is_clean_char(other[i - n + 1]));
            }
        }
    }
}

proof fn lemma_wspr_plain_sound(history: History, bits: Seq<bool>)
    requires
        consistent(history),
        bits.len() == 77,
    ensures
        wspr_plain(history, bits) matches Ok(r) ==> is_sound(r.message),
{
    lemma_fields_bounded(bits);
    let value = field_of(bits, 0, 28) as int;
    lemma_call_clean(history, value);
    if let Ok(r) = wspr_plain(history, bits) {
        let call = call28(history, value)->Ok_0;
        let place = field_of(bits, 28, 15) as int;
        let power = power_of(field_of(bits, 43, 5));
        lemma_shown(call.text, call.hash);
        lemma_space();
        lemma_grid_clean(place);
        lemma_decimal_clean(power);
        let t1 = call.text + " "@;
        let t2 = t1 + grid_of(place);
        let t3 = t2 + " "@;
        lemma_joined_ascii(call.text, " "@);
        lemma_joined_ascii(t1, grid_of(place));
        lemma_joined_ascii(t2, " "@);
        lemma_joined_ascii(t3, decimal(power));
        if let Some(h) = call.hash {
            assert(r.message.hashes.last() == h);
        }
        lemma_station_known(call.text, call.hash, r.message.hashes);
    }
}

proof fn lemma_wspr_hashed_sound(history: History, bits: Seq<bool>)
    requires
        consistent(history),
        bits.len() == 77,
    ensures
        wspr_hashed(history, bits) matches Ok(r) ==> is_sound(r.message),
{
    lemma_fields_bounded(bits);
    if let Ok(r) = wspr_hashed(history, bits) {
        let hash = resolve(history, field_of(bits, 0, 22), 22);
        let n = field_of(bits, 22, 25);
        lemma_resolution(history, field_of(bits, 0, 22), 22);
        lemma_shown(shown(hash), Some(hash));
        lemma_space();
        lemma_grid_clean((n / 625) as int);
        assert(all_ascii(wspr_grid(n)));
        lemma_joined_ascii(shown(hash), " "@);
        lemma_joined_ascii(shown(hash) + " "@, wspr_grid(n));
        assert(r.message.hashes[0] == hash);
        lemma_station_known(shown(hash), Some(hash), r.message.hashes);
    }
}

/// A suffix or an address leaves a hash as it is and any other call clean.
proof fn lemma_suffixed_sound(text: Seq<char>, hash: Option<HashModel>, flag: bool, primary: nat)
    requires
        is_sound_call(text, hash),
    ensures
        is_sound_call(suffixed(addressed(text), flag, primary), hash),
        is_sound_call(suffixed(text, flag, primary), hash),
{
    lemma_shown(text, hash);
    reveal_strlit("/R");
    reveal_strlit("/P");
    reveal_strlit("CQ_");
    if hash is Some {
        if starts_with(text, "CQ_"@) {
            assert(text.take(3)[0] == "CQ_"@[0]);
        }
    } else {
        let a = addressed(text);
        assert(all_clean(a));
        assert(is_clean_char(a[0]));
        assert(all_clean(suffixed(a, flag, primary)));
        assert(all_clean(suffixed(text, flag, primary)));
    }
}

proof fn lemma_exchange_ascii(a: Seq<char>, b: Seq<char>, exchange: nat, rogered: bool)
    requires
        all_ascii(a),
        all_ascii(b),
    ensures
        all_ascii(standard_text(a, b, exchange, rogered)),
{
    lemma_space();
    let t1 = a + " "@;
    let t2 = t1 + b;
    lemma_joined_ascii(a, " "@);
    lemma_joined_ascii(t1, b);
    if exchange < 32400 {
        lemma_roger_ascii(rogered);
        lemma_grid_clean(exchange as int);
        let t3 = t2 + " "@;
        let t4 = t3 + roger(rogered);
        lemma_joined_ascii(t2, " "@);
        lemma_joined_ascii(t3, roger(rogered));
        lemma_joined_ascii(t4, grid_of(exchange as int));
    } else {
        lemma_closing_ascii(exchange, rogered);
        lemma_joined_ascii(t2, closing(exchange, rogered));
    }
}

proof fn lemma_closing_ascii(exchange: nat, rogered: bool)
    ensures
        all_ascii(closing(exchange, rogered)),
{
    reveal_strlit("");
    reveal_strlit(" ");
    reveal_strlit("R");
    reveal_strlit(" RRR");
    reveal_strlit(" RR73");
    reveal_strlit(" 73");
    let snr = report_of(exchange);
    if snr >= 100 {
        lemma_decimal_clean(snr as nat);
    } else {
        lemma_signed_clean(snr);
    }
    let letter = if rogered {
        "R"@
    } else {
        ""@
    };
    lemma_joined_ascii(" "@, letter);
    lemma_joined_ascii(" "@ + letter, report_text(snr));
}

proof fn lemma_standard_sound(history: History, bits: Seq<bool>)
    requires
        consistent(history),
        bits.len() == 77,
    ensures
        standard(history, bits) matches Ok(r) ==> is_sound(r.message),
{
    lemma_fields_bounded(bits);
    let first = field_of(bits, 0, 28) as int;
    let second = field_of(bits, 29, 28) as int;
    lemma_two_calls(history, first, second);
    if let Ok(r) = standard(history, bits) {
        let a = call28(history, first)->Ok_0;
        let b = call28(history, second)->Ok_0;
        let primary = field_of(bits, 74, 3);
        let recipient = suffixed(addressed(a.text), bits[28], primary);
        let sender = suffixed(b.text, bits[57], primary);
        lemma_suffixed_sound(a.text, a.hash, bits[28], primary);
        lemma_suffixed_sound(b.text, b.hash, bits[57], primary);
        lemma_shown(recipient, a.hash);
        lemma_shown(sender, b.hash);
        lemma_exchange_ascii(recipient, sender, field_of(bits, 59, 15), bits[58]);
        lemma_station_known(recipient, a.hash, r.message.hashes);
        lemma_station_known(sender, b.hash, r.message.hashes);
    }
}

proof fn lemma_rtty_sound(history: History, bits: Seq<bool>)
    requires
        consistent(history),
        bits.len() == 77,
    ensures
        rtty(history, bits) matches Ok(r) ==> is_sound(r.message),
{
    lemma_fields_bounded(bits);
    let first = field_of(bits, 1, 28) as int;
    let second = field_of(bits, 29, 28) as int;
    lemma_two_calls(history, first, second);
    if let Ok(r) = rtty(history, bits) {
        let a = call28(history, first)->Ok_0;
        let b = call28(history, second)->Ok_0;
        let n = field_of(bits, 61, 13);
        let exchange = rtty_exchange(n)->0;
        if n <= 7999 {
            lemma_digits_clean(n, 4);
        } else {
            lemma_multiplier_clean(n - 8001);
        }
        lemma_space();
        lemma_roger_ascii(bits[57]);
        reveal_strlit("TU; ");
        reveal_strlit("");
        reveal_strlit("5");
        reveal_strlit("9 ");
        let thanks = if bits[0] {
            "TU; "@
        } else {
            ""@
        };
        let strength = seq![digit(field_of(bits, 58, 3) as int + 2)];
        let t1 = thanks + a.text;
        let t2 = t1 + " "@;
        let t3 = t2 + b.text;
        let t4 = t3 + " "@;
        let t5 = t4 + roger(bits[57]);
        let t6 = t5 + "5"@;
        let t7 = t6 + strength;
        let t8 = t7 + "9 "@;
        lemma_joined_ascii(thanks, a.text);
        lemma_joined_ascii(t1, " "@);
        lemma_joined_ascii(t2, b.text);
        lemma_joined_ascii(t3, " "@);
        lemma_joined_ascii(t4, roger(bits[57]));
        lemma_joined_ascii(t5, "5"@);
        assert(all_ascii(strength));
        lemma_joined_ascii(t6, strength);
        lemma_joined_ascii(t7, "9 "@);
        lemma_joined_ascii(t8, exchange);
    }
}

proof fn lemma_nonstandard_sound(history: History, bits: Seq<bool>)
    requires
        consistent(history),
        bits.len() == 77,
    ensures
        nonstandard(history, bits) matches Ok(r) ==> (r.learned matches Some(call) ==> normal_call(
            call,
        ) is Some) && is_sound(r.message),
{
    lemma_fields_bounded(bits);
    if let Ok(r) = nonstandard(history, bits) {
        let cq = bits[73];
        let flip = bits[70];
        let bare_cq = cq && !flip;
        let hash = resolve(history, field_of(bits, 0, 12), 12);
        lemma_resolution(history, field_of(bits, 0, 12), 12);
        lemma_shown(shown(hash), Some(hash));
        let value = field_of(bits, 12, 58);
        let call = trim(base_digits(value, 11, CALL_ALPHABET@));
        lemma_alphabets_clean();
        lemma_spelled_clean(value, 11, CALL_ALPHABET@);
        assert(call.len() > 0) by {
            if call.len() == 0 {
                assert(uppercase(without_brackets(trim(call))).len() == 0);
            }
        }
        let hashed = if bare_cq {
            ""@
        } else {
            shown(hash)
        };
        let own_hash: Option<HashModel> = if bare_cq {
            None
        } else {
            Some(hash)
        };
        reveal_strlit("");
        reveal_strlit("CQ ");
        reveal_strlit(" RRR");
        reveal_strlit(" RR73");
        reveal_strlit(" 73");
        lemma_space();
        let tail = acknowledgement(field_of(bits, 71, 2)).1;
        let a = if flip {
            call
        } else {
            hashed
        };
        let b = if flip {
            hashed
        } else {
            call
        };
        assert(all_ascii(call));
        lemma_joined_ascii("CQ "@, b);
        lemma_joined_ascii(a, " "@);
        lemma_joined_ascii(a + " "@, b);
        lemma_joined_ascii(a + " "@ + b, tail);
        let hashes = r.message.hashes;
        assert(is_clean_char(call[0]));
        if !bare_cq {
            assert(hashes[0] == hash);
            lemma_station_known(shown(hash), Some(hash), hashes);
        }
        assert(station(call, own_hash) matches Some(s) ==> is_known_station(s, hashes));
    }
}

proof fn lemma_vhf_sound(history: History, bits: Seq<bool>)
    requires
        consistent(history),
        bits.len() == 77,
    ensures
        vhf(history, bits) matches Ok(r) ==> is_sound(r.message),
{
    lemma_fields_bounded(bits);
    if let Ok(r) = vhf(history, bits) {
        let a = resolve(history, field_of(bits, 0, 12), 12);
        let b = resolve(history, field_of(bits, 12, 22), 22);
        let place = field_of(bits, 49, 25) as int;
        lemma_resolution(history, field_of(bits, 0, 12), 12);
        lemma_resolution(history, field_of(bits, 12, 22), 22);
        lemma_shown(shown(a), Some(a));
        lemma_shown(shown(b), Some(b));
        lemma_space();
        lemma_roger_ascii(bits[34]);
        let report = digits(52 + field_of(bits, 35, 3), 2);
        let serial = digits(field_of(bits, 38, 11), 4);
        lemma_digits_clean(52 + field_of(bits, 35, 3), 2);
        lemma_digits_clean(field_of(bits, 38, 11), 4);
        lemma_grid_clean(place / 576);
        assert(all_ascii(grid_six_of(place)));
        let t1 = shown(a) + " "@;
        let t2 = t1 + shown(b);
        let t3 = t2 + " "@;
        let t4 = t3 + roger(bits[34]);
        let t5 = t4 + report;
        let t6 = t5 + serial;
        let t7 = t6 + " "@;
        lemma_joined_ascii(shown(a), " "@);
        lemma_joined_ascii(t1, shown(b));
        lemma_joined_ascii(t2, " "@);
        lemma_joined_ascii(t3, roger(bits[34]));
        lemma_joined_ascii(t4, report);
        lemma_joined_ascii(t5, serial);
        lemma_joined_ascii(t6, " "@);
        lemma_joined_ascii(t7, grid_six_of(place));
        assert(r.message.hashes[0] == a && r.message.hashes[1] == b);
        lemma_station_known(shown(a), Some(a), r.message.hashes);
        lemma_station_known(shown(b), Some(b), r.message.hashes);
    }
}

proof fn lemma_sound(history: History, bits: Seq<bool>)
    requires
        consistent(history),
        bits.len() == 77,
    ensures
        parsed(history, bits) matches Ok(r) ==> is_sound(r.message),
{
    reveal(parsed_by_type);
    lemma_free_text_sound(bits);
    lemma_dxpedition_sound(history, bits);
    lemma_field_day_sound(history, bits);
    lemma_telemetry_sound(bits);
    lemma_wspr_compound_sound(history, bits);
    lemma_wspr_plain_sound(history, bits);
    lemma_wspr_hashed_sound(history, bits);
    lemma_standard_sound(history, bits);
    lemma_rtty_sound(history, bits);
    lemma_nonstandard_sound(history, bits);
    lemma_vhf_sound(history, bits);
}

/// A station of a received message that is given by a hash is what that hash resolves
/// to, and the hash is among the message's; any other station names its call. No call
/// is in brackets. Tokens of standard messages are no stations, whatever their suffix.
pub proof fn stations_are_known(history: History, bits: Seq<bool>)
    requires
        consistent(history),
        bits.len() == 77,
    ensures
        parsed(history, bits) matches Ok(result) ==> {
            let m = result.message;
            &&& m.fields.sender matches Some(s) ==> is_known_station(s, m.hashes)
            &&& m.fields.recipient matches Some(s) ==> is_known_station(s, m.hashes)
            &&& m.kind == MessageKind::Standard ==> {
                &&& field_of(bits, 0, 28) < TOKEN_COUNT ==> m.fields.recipient is None
                &&& field_of(bits, 29, 28) < TOKEN_COUNT ==> m.fields.sender is None
            }
        },
        unpacked(history, bits) matches Ok(m) ==> {
            &&& m.fields.sender matches Some(s) ==> is_known_station(s, m.hashes)
            &&& m.fields.recipient matches Some(s) ==> is_known_station(s, m.hashes)
        },
{
    lemma_sound(history, bits);
    reveal(parsed_by_type);
}

/// Whatever is received is at most 37 printable ASCII characters and no CQ to a hash,
/// and every hash has 10, 12 or 22 bits and a value within them.
pub proof fn received_messages_are_plain(history: History, bits: Seq<bool>)
    requires
        consistent(history),
        bits.len() == 77,
    ensures
        unpacked(history, bits) matches Ok(m) ==> {
            &&& all_ascii(m.text)
            &&& m.text.len() <= 37
            &&& !starts_with(m.text, "CQ <"@)
            &&& forall|i: int| 0 <= i < m.hashes.len() ==> is_sound_hash(#[trigger] m.hashes[i])
        },
{
    lemma_sound(history, bits);
    reveal_strlit("CQ <");
    if let Ok(result) = parsed(history, bits) {
        let text = result.message.text;
        if text.len() > 37 {
            assert(text.take(37).take(4) =~= text.take(4));
        }
    }
}

// ---------------------------------------------------------------------------
// What is remembered
// ---------------------------------------------------------------------------

/// History after hearing calls in normal form, one after the other.
pub open spec fn heard(history: History, calls: Seq<Seq<char>>) -> History
    decreases calls.len(),
{
    if calls.len() == 0 {
        history
    } else {
        remembered(heard(history, calls.drop_last()), calls.last())
    }
}

/// Calls in normal form.
pub open spec fn all_normal(calls: Seq<Seq<char>>) -> bool {
    forall|i: int| 0 <= i < calls.len() ==> normal_call(#[trigger] calls[i]) == Some(calls[i])
}

/// No two calls share a 22 bit hash.
pub open spec fn all_distinct(calls: Seq<Seq<char>>) -> bool {
    forall|i: int, j: int|
        0 <= i < j < calls.len() ==> hash22(#[trigger] calls[i]) != hash22(#[trigger] calls[j])
}

/// Up to 1000 new hashes stand newest first behind each other, with the oldest call
/// last while there is room.
proof fn lemma_heard_entries(calls: Seq<Seq<char>>)
    requires
        0 < calls.len() <= 1001,
        all_distinct(calls),
    ensures
        ({
            let entries = heard(silence(), calls).calls22;
            &&& entries.len() == (if calls.len() > 1000 {
                1000
            } else {
                calls.len() as int
            })
            &&& forall|i: int|
                0 <= i < entries.len() ==> #[trigger] entries[i] == (
                    hash22(calls[calls.len() - 1 - i]) as u32,
                    calls[calls.len() - 1 - i],
                )
        }),
    decreases calls.len(),
{
    let front = calls.drop_last();
    let before = heard(silence(), front).calls22;
    let call = calls.last();
    hashes_nest(call);
    if front.len() > 0 {
        assert forall|i: int, j: int| 0 <= i < j < front.len() implies hash22(#[trigger] front[i])
            != hash22(#[trigger] front[j]) by {
            assert(front[i] == calls[i] && front[j] == calls[j]);
        }
        lemma_heard_entries(front);
    } else {
        assert(before =~= Seq::empty());
    }
    assert forall|i: int| 0 <= i < before.len() implies (#[trigger] before[i]).0 != hash22(
        call,
    ) by {
        let k = front.len() - 1 - i;
        assert(front[k] == calls[k]);
        hashes_nest(calls[k]);
        assert(hash22(calls[k]) != hash22(calls[calls.len() - 1]));
    }
    lemma_place_unique(before, hash22(call), before.len() as int);
    let entries = heard(silence(), calls).calls22;
    assert forall|i: int| 0 <= i < entries.len() implies #[trigger] entries[i] == (
        hash22(calls[calls.len() - 1 - i]) as u32,
        calls[calls.len() - 1 - i],
    ) by {
        if i > 0 {
            assert(entries[i] == before[i - 1]);
            assert(front[front.len() - i] == calls[front.len() - i]);
        }
    }
}

/// Of 1001 calls with different 22 bit hashes the oldest no longer resolves, and each of
/// the other 1000 does.
pub proof fn oldest_call_is_forgotten(calls: Seq<Seq<char>>)
    requires
        calls.len() == 1001,
        all_normal(calls),
        all_distinct(calls),
    ensures
        resolve(heard(silence(), calls), hash22(calls[0]), 22).resolved is None,
        forall|i: int|
            1 <= i < 1001 ==> resolve(
                heard(silence(), calls),
                hash22(#[trigger] calls[i]),
                22,
            ).resolved == Some(calls[i]),
{
    let entries = heard(silence(), calls).calls22;
    lemma_heard_entries(calls);
    assert forall|i: int, k: int| 0 <= i < 1001 && 0 <= k < 1000 && 1000 - k != i implies (
    #[trigger] entries[k]).0 != hash22(#[trigger] calls[i]) by {
        hashes_nest(calls[1000 - k]);
        hashes_nest(calls[i]);
    }
    lemma_place(entries, hash22(calls[0]));
    lemma_place_unique(entries, hash22(calls[0]), 1000);
    assert forall|i: int| 1 <= i < 1001 implies resolve(
        heard(silence(), calls),
        hash22(#[trigger] calls[i]),
        22,
    ).resolved == Some(calls[i]) by {
        hashes_nest(calls[i]);
        assert(entries[1000 - i].0 == hash22(calls[i]));
        lemma_place_unique(entries, hash22(calls[i]), 1000 - i);
        lemma_place(entries, hash22(calls[i]));
    }
}

/// Never do more than 1000 different 22 bit hashes resolve.
pub proof fn few_hashes_resolve(history: History, hashes: Seq<nat>)
    requires
        consistent(history),
        forall|i: int|
            0 <= i < hashes.len() ==> hashes[i] < HASH22_COUNT && resolve(
                history,
                #[trigger] hashes[i],
                22,
            ).resolved is Some,
        hashes.no_duplicates(),
    ensures
        hashes.len() <= 1000,
{
    let entries = history.calls22;
    let places = hashes.map_values(|h: nat| place_of(entries, h));
    assert forall|i: int| 0 <= i < places.len() implies 0 <= #[trigger] places[i] < entries.len()
        && entries[places[i]].0 == hashes[i] by {
        lemma_place(entries, hashes[i]);
    }
    assert(places.no_duplicates()) by {
        assert forall|i: int, j: int|
            0 <= i < places.len() && 0 <= j < places.len() && i != j implies places[i]
            != places[j] by {
            assert(hashes[i] != hashes[j]);
        }
    }
    places.unique_seq_to_set();
    let all = vstd::set_lib::set_int_range(0, entries.len() as int);
    vstd::set_lib::lemma_int_range(0, entries.len() as int);
    assert(places.to_set().subset_of(all)) by {
        assert forall|p: int| places.to_set().contains(p) implies all.contains(p) by {
            let i = choose|i: int| 0 <= i < places.len() && places[i] == p;
            assert(0 <= places[i] < entries.len());
        }
    }
    vstd::set_lib::lemma_len_subset(places.to_set(), all);
}

/// A 10 or 12 bit hash resolves to the call that was last heard with it.
pub proof fn slots_hold_the_last_call(history: History, calls: Seq<Seq<char>>, k: int)
    requires
        consistent(history),
        0 <= k < calls.len(),
    ensures
        (forall|j: int| k < j < calls.len() ==> hash10(#[trigger] calls[j]) != hash10(calls[k]))
            ==> resolve(heard(history, calls), hash10(calls[k]), 10).resolved == Some(calls[k]),
        (forall|j: int| k < j < calls.len() ==> hash12(#[trigger] calls[j]) != hash12(calls[k]))
            ==> resolve(heard(history, calls), hash12(calls[k]), 12).resolved == Some(calls[k]),
    decreases calls.len(),
{
    let front = calls.drop_last();
    lemma_slots(history, front);
    hashes_nest(calls.last());
    hashes_nest(calls[k]);
    let last = calls.len() - 1;
    if k < last {
        slots_hold_the_last_call(history, front, k);
        assert(front[k] == calls[k]);
        assert(forall|j: int| 0 <= j < front.len() ==> front[j] == calls[j]);
    }
}

proof fn lemma_slots(history: History, calls: Seq<Seq<char>>)
    requires
        consistent(history),
    ensures
        heard(history, calls).calls10.len() == 1024,
        heard(history, calls).calls12.len() == 4096,
    decreases calls.len(),
{
    if calls.len() > 0 {
        lemma_slots(history, calls.drop_last());
    }
}

} // verus!
