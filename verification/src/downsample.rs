//! Checks and bin arithmetic of candidate-frequency downsampling. Samples and
//! frequencies are bit patterns of single precision values.
use vstd::prelude::*;
use vstd::string::*;
use crate::fft::{lengths, FftError};
use crate::quantities::HZ_6000;
use crate::single::{finite, from_zero_to, is_finite, is_from_zero_to};
use crate::text::{append_decimal, decimal};

verus! {

pub const FT8_INPUT_LEN: usize = 180_000;

pub const FT8_FFT_LEN: usize = 192_000;

pub const FT8_OUTPUT_LEN: usize = 3_200;

pub const FT4_INPUT_LEN: usize = 72_576;

pub const FT4_OUTPUT_LEN: usize = 4_032;

/// An invalid buffer, sample, candidate frequency, or preparation state.
#[derive(Clone, Copy, Debug, Eq, PartialEq, Structural)]
pub enum DownsampleError {
    InvalidInputLength { expected: usize, actual: usize },
    InvalidOutputLength { expected: usize, actual: usize },
    InvalidSample { index: usize },
    InvalidFrequency,
    NotPrepared,
    Fft(FftError),
}

impl DownsampleError {
    pub open spec fn spec_text(self) -> Seq<char> {
        match self {
            DownsampleError::InvalidInputLength { expected, actual } => "expected "@ + decimal(
                expected as nat,
            ) + " input samples, got "@ + decimal(actual as nat),
            DownsampleError::InvalidOutputLength { expected, actual } => "expected "@ + decimal(
                expected as nat,
            ) + " output samples, got "@ + decimal(actual as nat),
            DownsampleError::InvalidSample { index } => "invalid PCM sample at index "@ + decimal(
                index as nat,
            ),
            DownsampleError::InvalidFrequency =>
                "frequency must be finite and between 0 and 6000 Hz"@,
            DownsampleError::NotPrepared => "audio has not been prepared"@,
            DownsampleError::Fft(error) => "FFT failed: "@ + error.spec_text(),
        }
    }

    /// The error as a sentence.
    pub fn text(&self) -> (r: String)
        ensures
            r@ == self.spec_text(),
    {
        match self {
            DownsampleError::InvalidInputLength { expected, actual } => lengths(
                "expected ",
                *expected,
                " input samples, got ",
                *actual,
            ),
            DownsampleError::InvalidOutputLength { expected, actual } => lengths(
                "expected ",
                *expected,
                " output samples, got ",
                *actual,
            ),
            DownsampleError::InvalidSample { index } => {
                let mut out: String = "invalid PCM sample at index ".to_owned();
                append_decimal(&mut out, *index as u64);
                out
            },
            DownsampleError::InvalidFrequency => "frequency must be finite and between 0 and 6000 Hz".to_owned(),
            DownsampleError::NotPrepared => "audio has not been prepared".to_owned(),
            DownsampleError::Fft(error) => {
                let mut out: String = "FFT failed: ".to_owned();
                out.append(error.text().as_str());
                out
            },
        }
    }
}

/// Bit pattern of 32768, the largest magnitude of a PCM sample.
pub const PCM_BOUND: u32 = 0x4700_0000;

/// Bit pattern of 1.0e12, the largest magnitude of a residual sample: cancellation may take
/// it beyond the PCM range.
pub const RESIDUAL_BOUND: u32 = 0x5368_d4a5;

/// A finite sample whose magnitude is at most that of the nonnegative bound.
pub open spec fn is_allowed(sample: u32, bound: u32) -> bool {
    finite(sample) && sample % 0x8000_0000 <= bound
}

/// Checks the number of samples first, then each sample in order.
pub fn validate_input(input: &[u32], expected: usize, bound: u32) -> (r: Result<
    (),
    DownsampleError,
>)
    ensures
        match r {
            Ok(_) => input@.len() == expected && forall|i: int|
                0 <= i < input@.len() ==> is_allowed(#[trigger] input@[i], bound),
            Err(DownsampleError::InvalidInputLength { expected: wanted, actual }) => input@.len()
                != expected && wanted == expected && actual == input@.len(),
            Err(DownsampleError::InvalidSample { index }) => input@.len() == expected && index
                < input@.len() && !is_allowed(input@[index as int], bound) && forall|i: int|
                0 <= i < index ==> is_allowed(#[trigger] input@[i], bound),
            Err(_) => false,
        },
{
    if input.len() != expected {
        return Err(
            DownsampleError::InvalidInputLength { expected, actual: input.len() },
        );
    }
    let mut i: usize = 0;
    while i < input.len()
        invariant
            i <= input@.len(),
            input@.len() == expected,
            forall|k: int| 0 <= k < i ==> is_allowed(#[trigger] input@[k], bound),
        decreases input@.len() - i,
    {
        if !is_finite(input[i]) || input[i] % 0x8000_0000 > bound {
            return Err(DownsampleError::InvalidSample { index: i });
        }
        i = i + 1;
    }
    Ok(())
}

/// Checks the frequency of a candidate, the output length, and that audio was
/// prepared, in this order.
pub fn validate_extract(frequency: u32, output_len: usize, expected: usize, prepared: bool) -> (r:
    Result<(), DownsampleError>)
    ensures
        match r {
            Ok(_) => finite(frequency) && from_zero_to(frequency, HZ_6000) && output_len
                == expected && prepared,
            Err(error) => error == (if !(finite(frequency) && from_zero_to(frequency, HZ_6000)) {
                DownsampleError::InvalidFrequency
            } else if output_len != expected {
                DownsampleError::InvalidOutputLength { expected, actual: output_len }
            } else {
                DownsampleError::NotPrepared
            }) && !(finite(frequency) && from_zero_to(frequency, HZ_6000) && output_len == expected
                && prepared),
        },
{
    if !is_finite(frequency) || !is_from_zero_to(frequency, HZ_6000) {
        return Err(DownsampleError::InvalidFrequency);
    }
    if output_len != expected {
        return Err(DownsampleError::InvalidOutputLength { expected, actual: output_len });
    }
    if !prepared {
        return Err(DownsampleError::NotPrepared);
    }
    Ok(())
}

/// Whether a spectrum is there to extract from: only behind input that was accepted, and
/// until the next input or a reset.
#[derive(Clone, Copy, Debug, PartialEq, Eq, Structural)]
pub struct Preparation {
    pub prepared: bool,
}

impl Preparation {
    pub fn new() -> (r: Self)
        ensures
            !r.prepared,
    {
        Preparation { prepared: false }
    }

    /// Judges new input. What was there before is gone, even where it is refused.
    pub fn begin(&mut self, input: &[u32], expected: usize, bound: u32) -> (r: Result<
        (),
        DownsampleError,
    >)
        ensures
            !final(self).prepared,
            match r {
                Ok(_) => input@.len() == expected && forall|i: int|
                    0 <= i < input@.len() ==> is_allowed(#[trigger] input@[i], bound),
                Err(DownsampleError::InvalidInputLength { expected: wanted, actual }) => {
                    &&& input@.len() != expected
                    &&& wanted == expected
                    &&& actual == input@.len()
                },
                Err(DownsampleError::InvalidSample { index }) => {
                    &&& input@.len() == expected
                    &&& index < input@.len()
                    &&& !is_allowed(input@[index as int], bound)
                    &&& forall|i: int|
                        0 <= i < index ==> is_allowed(#[trigger] input@[i], bound)
                },
                Err(_) => false,
            },
    {
        self.prepared = false;
        validate_input(input, expected, bound)
    }

    /// The spectrum of the accepted input is there.
    pub fn complete(&mut self)
        ensures
            final(self).prepared,
    {
        self.prepared = true;
    }

    pub fn reset(&mut self)
        ensures
            !final(self).prepared,
    {
        self.prepared = false;
    }

    /// Checks an extraction: the frequency, the output length, and that a spectrum is there,
    /// in this order.
    pub fn check(&self, frequency: u32, output_len: usize, expected: usize) -> (r: Result<
        (),
        DownsampleError,
    >)
        ensures
            match r {
                Ok(_) => finite(frequency) && from_zero_to(frequency, HZ_6000) && output_len
                    == expected && self.prepared,
                Err(error) => error == (if !(finite(frequency) && from_zero_to(
                    frequency,
                    HZ_6000,
                )) {
                    DownsampleError::InvalidFrequency
                } else if output_len != expected {
                    DownsampleError::InvalidOutputLength { expected, actual: output_len }
                } else {
                    DownsampleError::NotPrepared
                }) && !(finite(frequency) && from_zero_to(frequency, HZ_6000) && output_len
                    == expected && self.prepared),
            },
    {
        validate_extract(frequency, output_len, expected, self.prepared)
    }
}

/// Bins of an FT4 spectrum.
pub const FT4_BINS: i64 = 36_289;

pub open spec fn is_bin(bin: int) -> bool {
    0 <= bin < 36_289
}

/// The spectrum bin that goes to a place of the FT4 working buffer: bins above
/// the center come first, those below it last. The middle place takes the lower
/// one where there are two.
pub fn ft4_bin(center: i64, place: usize) -> (r: Option<usize>)
    requires
        0 <= center <= 36_288,
        place < FT4_OUTPUT_LEN,
    ensures
        ({
            let above = center + place;
            let below = center - (4032 - place);
            let wanted = if place > 2016 || (place == 2016 && is_bin(below)) {
                below
            } else {
                above
            };
            match r {
                Some(bin) => bin == wanted && is_bin(wanted),
                None => !is_bin(wanted),
            }
        }),
{
    let above: i64 = center + place as i64;
    let below: i64 = center - (4032 - place as i64);
    let wanted: i64 = if place > 2016 || (place == 2016 && 0 <= below && below < FT4_BINS) {
        below
    } else {
        above
    };
    if 0 <= wanted && wanted < FT4_BINS {
        Some(wanted as usize)
    } else {
        None
    }
}

/// How far the FT8 working buffer is rotated so that the center comes first.
pub fn ft8_shift(center: i64, lower: i64) -> (r: usize)
    requires
        0 <= center <= 96_000,
        0 <= lower <= 96_000,
    ensures
        r == (center - lower) % 3_200,
        r < FT8_OUTPUT_LEN,
{
    let difference: i64 = center - lower + 96_000;
    (difference % 3_200) as usize
}

} // verus!
