//! What follows belief propagation: its own result, or a search by order statistics
//! on what it has left. Likelihoods are bit patterns of single precision values.
use vstd::prelude::*;
use crate::fec::{
    accepted, encoded, hybrid_from_bp, hybrid_from_osd, osd_attempts, Decoded, DecodeMethod,
    HybridDecoded,
};
use crate::osd::{
    are_light, decisions, decode_ap, decode_result, magnitude, mismatches, refusal, validate,
    DecodeError, LARGEST_MAGNITUDE,
};
use crate::parity_law::accepted_words_are_encodings;
use crate::single::{at_least_zero, is_at_least_zero};
use crate::sums::{
    added, is_within_parts, light_values_are_within_a_part, parts_only_grow, plus,
    sums_stay_within_parts, zero_is_within_no_part,
};

verus! {

/// What belief propagation leaves: its result, the last iteration, and the inputs it
/// has saved for attempts by order statistics.
#[derive(Debug, Clone, PartialEq, Eq)]
pub struct Propagation {
    pub decoded: Option<Decoded>,
    pub last_iteration: u8,
    pub saved: [[u32; 174]; 3],
}

/// What belief propagation may leave: at most 30 iterations, and an accepted word with its
/// payload where it has succeeded.
pub open spec fn is_sound_propagation(propagation: Propagation) -> bool {
    &&& propagation.last_iteration <= 30
    &&& propagation.decoded matches Some(decoded) ==> accepted(decoded.codeword@)
        && decoded.message@ == decoded.codeword@.take(77) && decoded.iterations <= 30
}

/// What holds of every hybrid result: it is what propagation returned, where that was
/// anything, and else the result of one of the attempts by order statistics, with at least
/// one mismatch. Either way its codeword encodes its message.
pub open spec fn is_sound_result(
    found: HybridDecoded,
    propagation: Propagation,
    max_osd: u8,
) -> bool {
    &&& found.method == DecodeMethod::Bp <==> propagation.decoded is Some
    &&& propagation.decoded matches Some(decoded) ==> found.decoded == decoded && found.osd_pass
        is None
    &&& propagation.decoded is None ==> {
        &&& found.method == DecodeMethod::Osd
        &&& found.osd_pass matches Some(pass) && 1 <= pass <= attempt_count(max_osd)
        &&& found.decoded.hard_errors >= 1
    }
    &&& found.decoded.iterations <= 30
    &&& found.decoded.codeword@ == encoded(found.decoded.message@)
}

/// The channel likelihood magnitudes of the bits that a word contradicts, the first
/// `n` of them summed in order.
pub open spec fn channel_distance(llr: Seq<u32>, word: Seq<bool>, n: nat) -> u32
    decreases n,
{
    if n == 0 {
        0
    } else {
        let rest = channel_distance(llr, word, (n - 1) as nat);
        if word[n - 1] != at_least_zero(llr[n - 1]) {
            added(rest, magnitude(llr[n - 1]))
        } else {
            rest
        }
    }
}

/// Distances are finite: at most as many parts as bits.
pub proof fn distances_are_bounded(llr: Seq<u32>, word: Seq<bool>, n: nat)
    requires
        are_light(llr),
        n <= 174,
    ensures
        is_within_parts(channel_distance(llr, word, n), n),
    decreases n,
{
    if n == 0 {
        zero_is_within_no_part();
    } else {
        distances_are_bounded(llr, word, (n - 1) as nat);
        let rest = channel_distance(llr, word, (n - 1) as nat);
        assert(magnitude(llr[n - 1]) <= LARGEST_MAGNITUDE);
        light_values_are_within_a_part(magnitude(llr[n - 1]));
        sums_stay_within_parts(rest, (n - 1) as nat, magnitude(llr[n - 1]), 1);
        parts_only_grow(rest, (n - 1) as nat, n);
    }
}

/// The distance of a word to the channel likelihoods.
pub fn distance_to(llr: &[u32; 174], word: &[bool; 174]) -> (r: u32)
    requires
        are_light(llr@),
    ensures
        r == channel_distance(llr@, word@, 174),
{
    let mut sum: u32 = 0;
    let mut i: usize = 0;
    proof {
        zero_is_within_no_part();
    }
    while i < 174
        invariant
            i <= 174,
            are_light(llr@),
            sum == channel_distance(llr@, word@, i as nat),
            is_within_parts(sum, i as nat),
        decreases 174 - i,
    {
        let weight: u32 = llr[i] % 0x8000_0000;
        assert(magnitude(llr@[i as int]) <= LARGEST_MAGNITUDE);
        proof {
            light_values_are_within_a_part(weight);
            sums_stay_within_parts(sum, i as nat, weight, 1);
            parts_only_grow(sum, i as nat, (i + 1) as nat);
        }
        if word[i] != is_at_least_zero(llr[i]) {
            sum = plus(sum, weight);
        }
        i = i + 1;
    }
    sum
}

/// The input of attempt `pass`: what was saved, or the channel likelihoods where no
/// posteriors are summed.
pub open spec fn attempt_input(
    llr: Seq<u32>,
    saved: Seq<[u32; 174]>,
    max_osd: u8,
    pass: int,
) -> Seq<u32> {
    if max_osd == 0 {
        llr
    } else {
        saved[pass]@
    }
}

/// A result by order statistics.
#[verifier::ext_equal]
pub struct FallbackModel {
    pub codeword: Seq<bool>,
    pub hard_errors: nat,
    pub distance: u32,
    pub pass: int,
}

/// What the attempts from `pass` on lead to. A candidate without a mismatch against
/// its input is passed over.
pub open spec fn fallback(
    llr: Seq<u32>,
    saved: Seq<[u32; 174]>,
    mask: Seq<bool>,
    max_osd: u8,
    depth: u8,
    attempts: int,
    pass: int,
) -> Result<Option<FallbackModel>, DecodeError>
    decreases attempts - pass,
{
    if pass >= attempts {
        Ok(None)
    } else {
        let input = attempt_input(llr, saved, max_osd, pass);
        match refusal(input, depth) {
            Some(error) => Err(error),
            None => match decode_result(input, mask, depth) {
                Some(choice) if mismatches(choice.codeword, decisions(input), 174) != 0 => Ok(
                    Some(
                        FallbackModel {
                            codeword: choice.codeword,
                            hard_errors: mismatches(choice.codeword, decisions(input), 174),
                            distance: channel_distance(llr, choice.codeword, 174),
                            pass,
                        },
                    ),
                ),
                _ => fallback(llr, saved, mask, max_osd, depth, attempts, pass + 1),
            },
        }
    }
}

pub open spec fn attempt_count(max_osd: u8) -> int {
    if max_osd == 0 {
        1
    } else {
        max_osd as int
    }
}

/// Checks the inputs of a hybrid decode: depth and likelihoods first, then the number
/// of attempts.
pub fn check_hybrid(llr: &[u32; 174], max_osd: u8, depth: u8) -> (r: Result<(), DecodeError>)
    ensures
        match r {
            Ok(_) => refusal(llr@, depth) is None && are_light(llr@) && max_osd <= 3,
            Err(error) => refusal(llr@, depth) == Some(error) || (refusal(llr@, depth) is None
                && max_osd > 3 && error == DecodeError::UnsupportedMaxOsd(max_osd)),
        },
{
    match validate(llr, depth) {
        Err(error) => {
            return Err(error);
        },
        Ok(_) => {},
    }
    match osd_attempts(max_osd) {
        Err(error) => Err(error),
        Ok(_) => Ok(()),
    }
}

/// The result of a hybrid decode. Where propagation has failed, `max_osd` zero tries
/// order statistics once on the channel likelihoods, and 1 to 3 tries the saved inputs
/// in turn, stopping at the first success.
pub fn conclude_hybrid(
    llr: &[u32; 174],
    mask: &[bool; 174],
    max_osd: u8,
    depth: u8,
    propagation: Propagation,
) -> (r: Result<Option<HybridDecoded>, DecodeError>)
    requires
        are_light(llr@),
        max_osd <= 3,
    ensures
        match propagation.decoded {
            Some(decoded) => r == Ok::<Option<HybridDecoded>, DecodeError>(
                Some(
                    HybridDecoded {
                        decoded,
                        method: DecodeMethod::Bp,
                        distance: channel_distance(llr@, decoded.codeword@, 174),
                        osd_pass: None,
                    },
                ),
            ),
            None => match (
                r,
                fallback(
                    llr@,
                    propagation.saved@,
                    mask@,
                    max_osd,
                    depth,
                    attempt_count(max_osd),
                    0,
                ),
            ) {
                (Err(error), Err(expected)) => error == expected,
                (Ok(None), Ok(None)) => true,
                (Ok(Some(found)), Ok(Some(model))) => {
                    &&& found.decoded.codeword@ == model.codeword
                    &&& found.decoded.message@ == model.codeword.take(77)
                    &&& found.decoded.iterations == propagation.last_iteration
                    &&& found.decoded.hard_errors == model.hard_errors
                    &&& found.method == DecodeMethod::Osd
                    &&& found.distance == model.distance
                    &&& found.osd_pass == Some((model.pass + 1) as u8)
                },
                _ => false,
            },
        },
        is_sound_propagation(propagation) ==> (r matches Ok(Some(found)) ==> is_sound_result(
            found,
            propagation,
            max_osd,
        )),
{
    match propagation.decoded {
        Some(decoded) => {
            proof {
                if is_sound_propagation(propagation) {
                    accepted_words_are_encodings(decoded.codeword@);
                }
            }
            let distance: u32 = distance_to(llr, &decoded.codeword);
            return Ok(Some(hybrid_from_bp(decoded, distance)));
        },
        None => {},
    }
    let attempts: u8 = if max_osd == 0 { 1 } else { max_osd };
    let ghost whole = fallback(
        llr@,
        propagation.saved@,
        mask@,
        max_osd,
        depth,
        attempt_count(max_osd),
        0,
    );
    let mut pass: u8 = 0;
    while pass < attempts
        invariant
            pass <= attempts <= 3,
            attempts == attempt_count(max_osd),
            max_osd <= 3,
            are_light(llr@),
            propagation.decoded is None,
            whole == fallback(
                llr@,
                propagation.saved@,
                mask@,
                max_osd,
                depth,
                attempt_count(max_osd),
                0,
            ),
            whole == fallback(
                llr@,
                propagation.saved@,
                mask@,
                max_osd,
                depth,
                attempt_count(max_osd),
                pass as int,
            ),
        decreases attempts - pass,
    {
        let tried = if max_osd == 0 {
            decode_ap(llr, mask, depth)
        } else {
            decode_ap(&propagation.saved[pass as usize], mask, depth)
        };
        match tried {
            Err(error) => {
                return Err(error);
            },
            Ok(None) => {},
            Ok(Some(candidate)) => {
                let distance: u32 = distance_to(llr, &candidate.codeword);
                match hybrid_from_osd(candidate, propagation.last_iteration, pass, distance) {
                    Some(found) => {
                        return Ok(Some(found));
                    },
                    None => {},
                }
            },
        }
        pass = pass + 1;
    }
    Ok(None)
}

} // verus!
