//! The error taxonomy of the transform, and the text of each error.

use vstd::prelude::*;
use vstd::string::*;

verus! {

/// Why a transform was refused or did not complete.
#[derive(Debug, Clone, Copy, PartialEq, Eq, Structural)]
pub enum FhtError {
    /// The length is zero, is not a power of two, or differs between the
    /// source and the destination; the field is the offending length.
    InvalidSize(usize),
    /// The length is a power of two above `2^30`; the field is the length.
    SizeTooLarge(usize),
    /// A kernel reported a failure that the size does not explain; the
    /// field is its status code.
    InternalError(i32),
}

/// The character that writes the digit `d` in base ten.
pub open spec fn digit_char(d: nat) -> char {
    if d == 0 {
        '0'
    } else if d == 1 {
        '1'
    } else if d == 2 {
        '2'
    } else if d == 3 {
        '3'
    } else if d == 4 {
        '4'
    } else if d == 5 {
        '5'
    } else if d == 6 {
        '6'
    } else if d == 7 {
        '7'
    } else if d == 8 {
        '8'
    } else {
        '9'
    }
}

/// The base-ten numeral of `n`, most significant digit first, without
/// leading zeros.
pub open spec fn decimal(n: nat) -> Seq<char>
    decreases n,
{
    if n < 10 {
        seq![digit_char(n)]
    } else {
        decimal(n / 10).push(digit_char(n % 10))
    }
}

/// The base-ten numeral of a signed number: a minus sign before the
/// numeral of its magnitude when it is negative.
pub open spec fn signed_decimal(v: int) -> Seq<char> {
    if v < 0 {
        seq!['-'] + decimal((-v) as nat)
    } else {
        decimal(v as nat)
    }
}

/// The text that describes `e`.
pub open spec fn message_text(e: FhtError) -> Seq<char> {
    match e {
        FhtError::InvalidSize(size) => "Input size "@ + decimal(size as nat)
            + " is not a power of 2"@,
        FhtError::SizeTooLarge(size) => "Input size "@ + decimal(size as nat)
            + " is too large (max 2^30)"@,
        FhtError::InternalError(code) => "FFHT internal error: "@ + signed_decimal(code as int),
    }
}

/// The outcome that a kernel's status code stands for.
pub open spec fn status_outcome(code: i32) -> Result<(), FhtError> {
    if code == 0 {
        Ok(())
    } else {
        Err(FhtError::InternalError(code))
    }
}

fn digit_str(d: u64) -> (s: &'static str)
    requires
        d < 10,
    ensures
        s@ == seq![digit_char(d as nat)],
{
    proof {
        reveal_strlit("0");
        reveal_strlit("1");
        reveal_strlit("2");
        reveal_strlit("3");
        reveal_strlit("4");
        reveal_strlit("5");
        reveal_strlit("6");
        reveal_strlit("7");
        reveal_strlit("8");
        reveal_strlit("9");
    }
    let s = if d == 0 {
        "0"
    } else if d == 1 {
        "1"
    } else if d == 2 {
        "2"
    } else if d == 3 {
        "3"
    } else if d == 4 {
        "4"
    } else if d == 5 {
        "5"
    } else if d == 6 {
        "6"
    } else if d == 7 {
        "7"
    } else if d == 8 {
        "8"
    } else {
        "9"
    };
    s
}

fn append_decimal(text: &mut String, n: u64)
    ensures
        final(text)@ == old(text)@ + decimal(n as nat),
    decreases n,
{
    if n >= 10 {
        append_decimal(text, n / 10);
    }
    text.append(digit_str(n % 10));
}

impl FhtError {
    /// Describes the error in one sentence that names the offending size or
    /// status code.
    pub fn message(&self) -> (text: String)
        ensures
            text@ == message_text(*self),
    {
        match self {
            FhtError::InvalidSize(size) => {
                let mut text = String::from_str("Input size ");
                append_decimal(&mut text, *size as u64);
                text.append(" is not a power of 2");
                text
            },
            FhtError::SizeTooLarge(size) => {
                let mut text = String::from_str("Input size ");
                append_decimal(&mut text, *size as u64);
                text.append(" is too large (max 2^30)");
                text
            },
            FhtError::InternalError(code) => {
                let mut text = String::from_str("FFHT internal error: ");
                let wide: i64 = *code as i64;
                if wide < 0 {
                    proof {
                        reveal_strlit("-");
                    }
                    text.append("-");
                    append_decimal(&mut text, (-wide) as u64);
                } else {
                    append_decimal(&mut text, wide as u64);
                }
                text
            },
        }
    }

    /// Translates a kernel's status code: zero is success, and any other
    /// code is an internal error that carries the code.
    pub fn check_status(code: i32) -> (r: Result<(), FhtError>)
        ensures
            r == status_outcome(code),
    {
        if code != 0 {
            Err(FhtError::InternalError(code))
        } else {
            Ok(())
        }
    }
}

} // verus!
