//! Which windows are decoded, and what the settings teach.
use vstd::arithmetic::power2::{lemma2_to64, lemma_pow2_adds, pow2};
use vstd::prelude::*;
use crate::assistance::ApSettings;
use crate::callsign::{call_index, is_call_char, normal_call};
use crate::engine::{
    is_sample, remembering, remembering_one, seeded, DecodeSettings, Decoder, Mode, FILTERED_SCALE,
    FULL_SCALE,
};
use crate::message_laws::heard;
use crate::single::{exponent, finite, signed_units, significand, units};
use crate::sums::lemma_units_increase;
use crate::wire::History;

verus! {

// ---------------------------------------------------------------------------
// Windows
// ---------------------------------------------------------------------------

/// A finite sample of at most this magnitude.
pub open spec fn is_loud_at_most(bits: u32, most: int) -> bool {
    finite(bits) && -most * pow2(149) <= signed_units(bits) <= most * pow2(149)
}

proof fn lemma_scales()
    ensures
        units(FULL_SCALE) == 32768 * pow2(149),
        units(FILTERED_SCALE) == 131072 * pow2(149),
{
    lemma2_to64();
    lemma_pow2_adds(8, 141);
    lemma_pow2_adds(6, 143);
    let a = pow2(141) as int;
    let b = pow2(143) as int;
    assert(exponent(FULL_SCALE) == 142 && significand(FULL_SCALE) == 0x80_0000);
    assert(exponent(FILTERED_SCALE) == 144 && significand(FILTERED_SCALE) == 0x80_0000);
    assert(0x80_0000 * a == 32768 * (0x100 * a)) by (nonlinear_arith);
    assert(0x80_0000 * b == 131072 * (0x40 * b)) by (nonlinear_arith);
}

/// Patterns are bounded as their values are.
pub proof fn lemma_magnitudes(bits: u32, limit: u32)
    requires
        limit < 0x7f80_0000,
    ensures
        finite(bits) ==> (bits % 0x8000_0000 <= limit <==> -units(limit) <= signed_units(bits)
            <= units(limit)),
        units(limit) >= 0,
{
    let x = bits % 0x8000_0000;
    assert(units(0) == 0) by {
        assert(significand(0) == 0);
        assert(0 * pow2(0) == 0) by (nonlinear_arith);
    }
    if 0 < limit {
        lemma_units_increase(0, limit);
    }
    if finite(bits) {
        if 0 < x {
            lemma_units_increase(0, x);
        }
        if x < limit {
            lemma_units_increase(x, limit);
        } else if limit < x {
            lemma_units_increase(limit, x);
        }
    }
}

proof fn lemma_loudness(bits: u32, limit: u32, most: int)
    requires
        limit < 0x7f80_0000,
        units(limit) == most * pow2(149),
        0 <= most,
    ensures
        is_sample(bits, limit) <==> is_loud_at_most(bits, most),
{
    lemma_magnitudes(bits, limit);
    assert(-most * pow2(149) == -(most * pow2(149))) by (nonlinear_arith);
}

/// A window is decoded exactly where the settings are valid, FT4 is given one thread, there
/// are 15 seconds of samples for FT8 or 6.048 for FT4, and none is louder than full scale, or
/// than four times that where the audio was filtered.
pub proof fn sound_windows_are_decoded(d: Decoder, pcm: Seq<u32>, settings: DecodeSettings)
    ensures
        d.refusal(pcm, settings) is None <==> {
            &&& settings.complaint() is None
            &&& d.mode == Mode::Ft4 ==> settings.threads == 1
            &&& d.mode == Mode::Ft8 ==> pcm.len() == 180_000
            &&& d.mode == Mode::Ft4 ==> pcm.len() == 72_576
            &&& forall|i: int|
                0 <= i < pcm.len() ==> is_loud_at_most(
                    #[trigger] pcm[i],
                    if d.filtered_input {
                        131_072
                    } else {
                        32_768
                    },
                )
        },
{
    lemma_scales();
    let limit = if d.filtered_input {
        FILTERED_SCALE
    } else {
        FULL_SCALE
    };
    let most: int = if d.filtered_input {
        131_072
    } else {
        32_768
    };
    assert forall|i: int| 0 <= i < pcm.len() implies (is_sample(
        #[trigger] pcm[i],
        limit,
    ) <==> is_loud_at_most(pcm[i], most)) by {
        lemma_loudness(pcm[i], limit, most);
    }
}

// ---------------------------------------------------------------------------
// Calls
// ---------------------------------------------------------------------------

/// The calls that settings name, in the form in which calls are remembered.
pub open spec fn named_calls(ap: ApSettings) -> Seq<Seq<char>> {
    Seq::new(ap.known_calls@.len(), |i: int| normal_call(ap.known_calls@[i]@)->0) + (
    match ap.my_call {
        Some(call) => seq![normal_call(call@)->0],
        None => Seq::empty(),
    }) + (match ap.dx_call {
        Some(call) => seq![normal_call(call@)->0],
        None => Seq::empty(),
    })
}

proof fn lemma_heard(history: History, calls: Seq<Seq<char>>, n: nat, all: Seq<Seq<char>>)
    requires
        n <= calls.len(),
        all == Seq::new(n, |i: int| normal_call(calls[i])->0),
    ensures
        remembering(history, calls, n) == heard(history, all),
    decreases n,
{
    if n > 0 {
        let front = Seq::new((n - 1) as nat, |i: int| normal_call(calls[i])->0);
        assert(all.drop_last() =~= front);
        lemma_heard(history, calls, (n - 1) as nat, front);
    }
}

/// The settings teach every call that they name, as if it had been heard: the known ones in
/// order, then one's own, and last the other station's.
pub proof fn settings_teach_their_calls(history: History, ap: ApSettings)
    ensures
        seeded(history, ap) == heard(history, named_calls(ap)),
{
    let known = ap.known_calls.deep_view();
    let first = Seq::new(known.len(), |i: int| normal_call(known[i])->0);
    let n = known.len();
    assert(first =~= Seq::new(
        ap.known_calls@.len(),
        |i: int| normal_call(ap.known_calls@[i]@)->0,
    ));
    lemma_heard(history, known, n, first);
    let own = match ap.my_call {
        Some(call) => seq![normal_call(call@)->0],
        None => Seq::empty(),
    };
    let other = match ap.dx_call {
        Some(call) => seq![normal_call(call@)->0],
        None => Seq::empty(),
    };
    assert(first + Seq::<Seq<char>>::empty() =~= first);
    assert((first + own) + Seq::<Seq<char>>::empty() =~= first + own);
    let begun = remembering(history, known, n);
    let middle = remembering_one(begun, ap.my_call.deep_view());
    if own.len() > 0 {
        assert((first + own).drop_last() =~= first);
        assert((first + own).last() == own[0]);
    }
    assert(heard(history, first + own) == middle);
    if other.len() > 0 {
        assert((first + own + other).drop_last() =~= first + own);
        assert((first + own + other).last() == other[0]);
    }
    assert(heard(history, first + own + other) == remembering_one(middle, ap.dx_call.deep_view()));
    assert(named_calls(ap) =~= first + own + other);
}

/// The characters of calls have the numbers of their places behind the blank: digits, then
/// letters, then the stroke.
pub proof fn characters_have_their_places(c: char)
    requires
        is_call_char(c),
    ensures
        1 <= call_index(c) <= 37,
        c == (seq![
            ' ', '0', '1', '2', '3', '4', '5', '6', '7', '8', '9', 'A', 'B', 'C', 'D', 'E', 'F',
            'G', 'H', 'I', 'J', 'K', 'L', 'M', 'N', 'O', 'P', 'Q', 'R', 'S', 'T', 'U', 'V', 'W',
            'X', 'Y', 'Z', '/',
        ])[call_index(c) as int],
{
}

} // verus!
