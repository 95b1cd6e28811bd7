//! The closed set of decode failures.
use vstd::prelude::*;
use vstd::string::StringExecFns;

verus! {

/// A decode failure.  Every fallible operation of the decoder reports one
/// of these; errors are terminal for the call that produced them.  Where a
/// byte offset is known it is carried along, so that a failure can be
/// located in the input.
#[derive(Clone, Copy, Debug)]
pub enum Error {
    /// The buffer ended in the middle of a value.
    Eof,
    /// The shape found in the input is not one the target type accepts.
    Type { reason: &'static str },
    /// A fixed-arity container found fewer elements than it needs.
    Length { expected: usize, actual: usize },
    /// The tag byte at `pos` does not open the expected shape.
    Parse { reason: &'static str, pos: usize },
    /// A malformed digit run, missing separator, or wrong terminator.
    Unexpected { pos: usize },
    /// A digit run exceeded the representable range; `pos` is the offset
    /// of the first digit that pushed the accumulated value over it.
    Overflow { pos: usize },
}

/// The decimal digit character denoting `d`.
pub open spec fn digit_char(d: nat) -> char
    recommends
        d < 10,
{
    if d == 0 {
        '0'
    } else if d == 1 {
        '1'
    } else if d == 2 {
        '2'
    } else if d == 3 {
        '3'
    } else if d == 4 {
        '4'
    } else if d == 5 {
        '5'
    } else if d == 6 {
        '6'
    } else if d == 7 {
        '7'
    } else if d == 8 {
        '8'
    } else {
        '9'
    }
}

/// The decimal rendering of `n`, most significant digit first, without
/// leading zeroes.
pub open spec fn dec_chars(n: nat) -> Seq<char>
    decreases n,
{
    if n < 10 {
        seq![digit_char(n)]
    } else {
        dec_chars(n / 10).push(digit_char(n % 10))
    }
}

/// The one-character text for a single decimal digit.
fn digit_str(d: u64) -> (r: &'static str)
    requires
        d < 10,
    ensures
        r@ == seq![digit_char(d as nat)],
{
    proof {
        reveal_strlit("0");
        reveal_strlit("1");
        reveal_strlit("2");
        reveal_strlit("3");
        reveal_strlit("4");
        reveal_strlit("5");
        reveal_strlit("6");
        reveal_strlit("7");
        reveal_strlit("8");
        reveal_strlit("9");
    }
    if d == 0 {
        "0"
    } else if d == 1 {
        "1"
    } else if d == 2 {
        "2"
    } else if d == 3 {
        "3"
    } else if d == 4 {
        "4"
    } else if d == 5 {
        "5"
    } else if d == 6 {
        "6"
    } else if d == 7 {
        "7"
    } else if d == 8 {
        "8"
    } else {
        "9"
    }
}

/// Render `n` in decimal.
fn decimal(n: u64) -> (r: String)
    ensures
        r@ == dec_chars(n as nat),
    decreases n,
{
    if n < 10 {
        String::from_str(digit_str(n))
    } else {
        let mut s = decimal(n / 10);
        s.append(digit_str(n % 10));
        proof {
            assert(s@ =~= dec_chars(n as nat));
        }
        s
    }
}

impl Error {
    /// The rendering of this failure, with the failing byte offset
    /// wherever one is known.
    pub open spec fn message_chars(self) -> Seq<char> {
        match self {
            Error::Eof => "Unexpected end of file"@,
            Error::Type { reason } => "Type Mismatch: "@ + reason@,
            Error::Length { expected, actual } => "Length Mismatch: Expected: "@ + dec_chars(
                expected as nat,
            ) + ", Actual: "@ + dec_chars(actual as nat),
            Error::Parse { reason, pos } => "Parse Error at "@ + dec_chars(pos as nat) + ": "@
                + reason@,
            Error::Unexpected { pos } => "Unexpected character at "@ + dec_chars(pos as nat),
            Error::Overflow { pos } => "Numeric overflow occurred at "@ + dec_chars(pos as nat),
        }
    }

    /// A human-readable account of this failure, including the failing
    /// byte offset where one is known.
    pub fn message(&self) -> (r: String)
        ensures
            r@ == self.message_chars(),
    {
        match self {
            Error::Eof => String::from_str("Unexpected end of file"),
            Error::Type { reason } => {
                let mut s = String::from_str("Type Mismatch: ");
                s.append(reason);
                s
            },
            Error::Length { expected, actual } => {
                let mut s = String::from_str("Length Mismatch: Expected: ");
                let e = decimal(*expected as u64);
                s.append(e.as_str());
                s.append(", Actual: ");
                let a = decimal(*actual as u64);
                s.append(a.as_str());
                proof {
                    assert(s@ =~= self.message_chars());
                }
                s
            },
            Error::Parse { reason, pos } => {
                let mut s = String::from_str("Parse Error at ");
                let p = decimal(*pos as u64);
                s.append(p.as_str());
                s.append(": ");
                s.append(reason);
                proof {
                    assert(s@ =~= self.message_chars());
                }
                s
            },
            Error::Unexpected { pos } => {
                let mut s = String::from_str("Unexpected character at ");
                let p = decimal(*pos as u64);
                s.append(p.as_str());
                s
            },
            Error::Overflow { pos } => {
                let mut s = String::from_str("Numeric overflow occurred at ");
                let p = decimal(*pos as u64);
                s.append(p.as_str());
                s
            },
        }
    }
}

} // verus!
