//! The shapes of transforms.
use vstd::prelude::*;
use vstd::string::*;
use crate::text::{append_decimal, decimal};

verus! {

/// Direction of a complex transform.
#[derive(Clone, Copy, Debug, Eq, PartialEq, Structural)]
pub enum Direction {
    Forward,
    Inverse,
}

/// An invalid FFT length or execution buffer shape.
#[derive(Clone, Copy, Debug, Eq, PartialEq, Structural)]
pub enum FftError {
    ZeroLength,
    InputLength { expected: usize, actual: usize },
    OutputLength { expected: usize, actual: usize },
}

impl FftError {
    pub open spec fn spec_text(self) -> Seq<char> {
        match self {
            FftError::ZeroLength => "FFT length must be nonzero"@,
            FftError::InputLength { expected, actual } => "expected input length "@ + decimal(
                expected as nat,
            ) + ", got "@ + decimal(actual as nat),
            FftError::OutputLength { expected, actual } => "expected output length "@ + decimal(
                expected as nat,
            ) + ", got "@ + decimal(actual as nat),
        }
    }

    /// The error as a sentence.
    pub fn text(&self) -> (r: String)
        ensures
            r@ == self.spec_text(),
    {
        match self {
            FftError::ZeroLength => "FFT length must be nonzero".to_owned(),
            FftError::InputLength { expected, actual } => lengths(
                "expected input length ",
                *expected,
                ", got ",
                *actual,
            ),
            FftError::OutputLength { expected, actual } => lengths(
                "expected output length ",
                *expected,
                ", got ",
                *actual,
            ),
        }
    }
}

pub(crate) fn lengths(before: &str, expected: usize, between: &str, actual: usize) -> (r: String)
    ensures
        r@ == before@ + decimal(expected as nat) + between@ + decimal(actual as nat),
{
    let mut out: String = before.to_owned();
    append_decimal(&mut out, expected as u64);
    out.append(between);
    append_decimal(&mut out, actual as u64);
    out
}

/// A transform has at least one point.
pub fn check_plan(len: usize) -> (r: Result<(), FftError>)
    ensures
        match r {
            Ok(_) => len > 0,
            Err(error) => len == 0 && error == FftError::ZeroLength,
        },
{
    if len == 0 {
        Err(FftError::ZeroLength)
    } else {
        Ok(())
    }
}

/// A complex transform works on as many values as it has points.
pub fn check_complex(points: usize, values: usize) -> (r: Result<(), FftError>)
    ensures
        match r {
            Ok(_) => values == points,
            Err(error) => values != points && error == (FftError::InputLength {
                expected: points,
                actual: values,
            }),
        },
{
    if values != points {
        Err(FftError::InputLength { expected: points, actual: values })
    } else {
        Ok(())
    }
}

/// A real transform has half as many outputs as inputs, and one more.
pub fn check_real(points: usize, input: usize, output: usize) -> (r: Result<(), FftError>)
    ensures
        match r {
            Ok(_) => input == points && output == points / 2 + 1,
            Err(error) => if input != points {
                error == (FftError::InputLength { expected: points, actual: input })
            } else {
                output != points / 2 + 1 && error == (FftError::OutputLength {
                    expected: (points / 2 + 1) as usize,
                    actual: output,
                })
            },
        },
{
    if input != points {
        return Err(FftError::InputLength { expected: points, actual: input });
    }
    if output != points / 2 + 1 {
        return Err(FftError::OutputLength { expected: points / 2 + 1, actual: output });
    }
    Ok(())
}

/// Points of the complex transform behind a real one: half of an even number,
/// whose samples are packed in pairs.
pub fn complex_points(points: usize) -> (r: usize)
    ensures
        r == (if points % 2 == 0 {
            points as int / 2
        } else {
            points as int
        }),
{
    if points % 2 == 0 {
        points / 2
    } else {
        points
    }
}

} // verus!
