//! What is accepted as input.
use vstd::prelude::*;
use crate::assistance::{is_hint, is_hint_char, is_locator};
use crate::audio_input::granted;
use crate::callsign::without_brackets;
use crate::context_laws::{is_ordinary, lemma_characters};
use crate::downsample::is_allowed;
use crate::engine_laws::lemma_magnitudes;
use crate::fec::InvalidLlr;
use crate::json::{fields_complaint, first_unlisted, listed, Json};
use crate::osd::{first_nonfinite, magnitude, refusal, DecodeError, LARGEST_MAGNITUDE};
use crate::protocol::payload_length;
use crate::single::{finite, signed_units, units};
use crate::stream_settings::SETTING_NAMES;
use crate::text::{is_digit, is_lower, is_upper, uppercase};
use crate::wav::short_at;

verus! {

/// Only audio carries a payload, of 1 to 12000 samples of two bytes each; everything else
/// comes without.
pub proof fn payloads_go_with_audio(kind: Seq<char>, count: u64)
    ensures
        ({
            let r = payload_length(Ok((Some(kind), Some(count))));
            &&& kind == "audio"@ ==> (r is Ok <==> exists|n: int|
                1 <= n <= 12_000 && #[trigger] (2 * n) == count)
            &&& kind != "audio"@ ==> (r is Ok <==> count == 0)
            &&& r matches Ok(length) ==> length == count
        }),
{
    if count % 2 == 0 {
        let n = count as int / 2;
        assert(2 * n == count);
    }
}

/// A sample is allowed exactly where its magnitude is at most the bound.
pub proof fn samples_are_bounded(sample: u32, bound: u32)
    requires
        bound < 0x7f80_0000,
    ensures
        is_allowed(sample, bound) <==> finite(sample) && -units(bound) <= signed_units(sample)
            <= units(bound),
{
    lemma_magnitudes(sample, bound);
}

proof fn lemma_first(llr: Seq<u32>, from: int)
    requires
        0 <= from <= 174,
    ensures
        from <= first_nonfinite(llr, from) <= 174,
        first_nonfinite(llr, from) < 174 ==> !finite(llr[first_nonfinite(llr, from)]),
        forall|i: int| from <= i < first_nonfinite(llr, from) ==> finite(#[trigger] llr[i]),
    decreases 174 - from,
{
    if from < 174 && finite(llr[from]) {
        lemma_first(llr, from + 1);
    }
}

/// Likelihoods are decoded by order statistics to depth 0, 1 and 2, unless one is not finite,
/// of which the first is named, or too large to be summed.
pub proof fn sound_likelihoods_are_decoded(llr: Seq<u32>, depth: u8)
    ensures
        refusal(llr, depth) is None <==> {
            &&& depth == 0 || depth == 1 || depth == 2
            &&& forall|i: int| 0 <= i < 174 ==> finite(#[trigger] llr[i])
            &&& forall|i: int| 0 <= i < 174 ==> magnitude(#[trigger] llr[i]) <= LARGEST_MAGNITUDE
        },
        refusal(llr, depth) matches Some(DecodeError::InvalidLlr(error)) ==> error.index < 174
            && !finite(llr[error.index as int]) && forall|i: int|
            0 <= i < error.index ==> finite(#[trigger] llr[i]),
        refusal(llr, depth) matches Some(DecodeError::UnsupportedDepth(d)) ==> d == depth && d > 2,
{
    lemma_first(llr, 0);
}

proof fn lemma_listed(entries: Seq<(String, Json)>, names: Seq<&'static str>, from: int)
    requires
        0 <= from <= entries.len(),
    ensures
        from <= first_unlisted(entries, names, from) <= entries.len(),
        first_unlisted(entries, names, from) == entries.len() <==> forall|i: int|
            from <= i < entries.len() ==> listed(names, (#[trigger] entries[i]).0@),
    decreases entries.len() - from,
{
    if from < entries.len() && listed(names, entries[from].0@) {
        lemma_listed(entries, names, from + 1);
    }
}

/// A document may have members of the listed names in any order, and no others.
pub proof fn only_listed_members_are_accepted(
    v: Json,
    entries: Seq<(String, Json)>,
    names: Seq<&'static str>,
)
    requires
        v matches Json::Object(all) && all@ == entries,
    ensures
        fields_complaint(v, names) is None <==> forall|i: int|
            0 <= i < entries.len() ==> listed(names, (#[trigger] entries[i]).0@),
{
    lemma_listed(entries, names, 0);
}

/// The names that settings have.
pub proof fn settings_have_names(name: Seq<char>)
    ensures
        listed(SETTING_NAMES@, name) <==> {
            ||| name == "low_hz"@
            ||| name == "high_hz"@
            ||| name == "priority_hz"@
            ||| name == "priority_tolerance_hz"@
            ||| name == "depth"@
            ||| name == "threads"@
            ||| name == "assistance"@
            ||| name == "ap"@
            ||| name == "rx_hz"@
            ||| name == "ap_width_hz"@
            ||| name == "tx_hz"@
            ||| name == "my_call"@
            ||| name == "dx_call"@
            ||| name == "dx_grid"@
            ||| name == "qso_state"@
            ||| name == "activity"@
            ||| name == "known_calls"@
        },
{
    let n = SETTING_NAMES@;
    assert(n[0]@ == "low_hz"@ && n[1]@ == "high_hz"@ && n[2]@ == "priority_hz"@ && n[3]@
        == "priority_tolerance_hz"@ && n[4]@ == "depth"@ && n[5]@ == "threads"@ && n[6]@
        == "assistance"@ && n[7]@ == "ap"@ && n[8]@ == "rx_hz"@);
    assert(n[9]@ == "ap_width_hz"@ && n[10]@ == "tx_hz"@ && n[11]@ == "my_call"@ && n[12]@
        == "dx_call"@ && n[13]@ == "dx_grid"@ && n[14]@ == "qso_state"@ && n[15]@ == "activity"@
        && n[16]@ == "known_calls"@);
    assert(n.len() == 17);
}

/// Samples of 16 bits are in two's complement, low byte first.
pub proof fn short_samples_are_their_bytes(bytes: Seq<u8>, at: int)
    ensures
        (short_at(bytes, at) as int - bytes[at] - 256 * bytes[at + 1]) % 65536 == 0,
        short_at(bytes, at) < 0 <==> bytes[at + 1] >= 128,
{
}

/// A read gives as much as is asked for, as is left, and as makes up a second, whichever is
/// least.
pub proof fn reads_give_what_they_can(sample_count: int, emitted: int, maximum: int)
    requires
        0 <= emitted <= sample_count,
        0 <= maximum,
    ensures
        ({
            let n = granted(sample_count, emitted, maximum);
            &&& 0 <= n <= maximum
            &&& n <= 12_000
            &&& n <= sample_count - emitted
            &&& n == maximum || n == 12_000 || n == sample_count - emitted
        }),
{
}

/// Ordinary calls may be given as hints.
pub proof fn ordinary_calls_are_hints(call: Seq<char>, n: int)
    requires
        is_ordinary(call, n),
    ensures
        is_hint(call, 11),
        is_hint(call, 13),
{
    lemma_characters(call, n);
    assert(without_brackets(call) == call);
    let k = choose|i: int| 0 <= i < n && is_upper(#[trigger] call[i]);
    assert(is_upper(call[k]));
    assert(is_digit(call[n]));
    assert forall|i: int| 0 <= i < call.len() implies is_hint_char(#[trigger] call[i]) && call[i]
        != '/' by {
        assert(is_upper(call[i]) || is_digit(call[i]));
    }
    assert(call.last() == call[call.len() - 1]);
}

/// A letter up to the given one, in either case.
pub open spec fn is_letter_to(c: char, last: char) -> bool {
    ('A' <= c <= last) || (is_lower(c) && (c as int - 32) as char <= last)
}

/// Locators are two letters from A to R and two digits, perhaps with two letters from A to X.
pub proof fn locators_are_known(grid: Seq<char>)
    ensures
        is_locator(grid) <==> {
            &&& grid.len() == 4 || grid.len() == 6
            &&& is_letter_to(grid[0], 'R') && is_letter_to(grid[1], 'R')
            &&& is_digit(grid[2]) && is_digit(grid[3])
            &&& grid.len() == 6 ==> is_letter_to(grid[4], 'X') && is_letter_to(grid[5], 'X')
        },
{
    let g = uppercase(grid);
    assert(g.len() == grid.len());
}

} // verus!
