//! Errors a log array operation can report.

use vstd::prelude::*;
use vstd::string::StringExecFns;

verus! {

/// An error that occurred during a log array operation.
///
/// The first three variants are data-shape errors that parsing reports.
/// `ValueExceedsWidth` and `LengthExceedsLimit` mark violated builder
/// preconditions, for callers that check them at run time.
#[derive(Debug, Clone, Copy, PartialEq, Eq, Structural)]
pub enum LogArrayError {
    /// Fewer than 8 bytes were handed to a parser; holds the buffer size.
    InputBufferTooSmall(usize),
    /// The control word holds a width over 64; holds that width.
    WidthTooLarge(u8),
    /// The buffer size does not match the control word; holds the actual
    /// size, the expected size, the length, and the width.
    UnexpectedInputBufferSize(u64, u64, u64, u8),
    /// A pushed value does not fit in the builder's bit width; holds the
    /// value and the width.
    ValueExceedsWidth(u64, u8),
    /// A length too large for the control word; holds the length.
    LengthExceedsLimit(u64),
}

/// The decimal digit character for `d`.
pub open spec fn dec_digit(d: int) -> char {
    if d == 0 {
        '0'
    } else if d == 1 {
        '1'
    } else if d == 2 {
        '2'
    } else if d == 3 {
        '3'
    } else if d == 4 {
        '4'
    } else if d == 5 {
        '5'
    } else if d == 6 {
        '6'
    } else if d == 7 {
        '7'
    } else if d == 8 {
        '8'
    } else {
        '9'
    }
}

/// The decimal rendering of `n`, most significant digit first, without
/// leading zeros (a single zero for 0).
pub open spec fn dec_str(n: nat) -> Seq<char>
    decreases n,
{
    if n < 10 {
        seq![dec_digit(n as int)]
    } else {
        dec_str(n / 10).push(dec_digit((n % 10) as int))
    }
}

impl LogArrayError {
    /// The diagnostic text of the error.
    pub open spec fn message_spec(self) -> Seq<char> {
        match self {
            LogArrayError::InputBufferTooSmall(size) => "expected input buffer size ("@ + dec_str(
                size as nat,
            ) + ") >= 8"@,
            LogArrayError::WidthTooLarge(width) => "expected width ("@ + dec_str(width as nat)
                + ") <= 64"@,
            LogArrayError::UnexpectedInputBufferSize(size, expected, len, width) =>
                "expected input buffer size ("@ + dec_str(size as nat) + ") to be "@ + dec_str(
                expected as nat,
            ) + " for "@ + dec_str(len as nat) + " elements and width "@ + dec_str(width as nat),
            LogArrayError::ValueExceedsWidth(value, width) => "expected value ("@ + dec_str(
                value as nat,
            ) + ") to fit in "@ + dec_str(width as nat) + " bits"@,
            LogArrayError::LengthExceedsLimit(len) => "expected length ("@ + dec_str(len as nat)
                + ") <= 72057594037927935"@,
        }
    }

    /// Renders the diagnostic text of the error.
    pub fn message(&self) -> (r: String)
        ensures
            r@ == self.message_spec(),
    {
        let mut s = String::new();
        match *self {
            LogArrayError::InputBufferTooSmall(size) => {
                s.append("expected input buffer size (");
                append_dec(&mut s, size as u64);
                s.append(") >= 8");
            },
            LogArrayError::WidthTooLarge(width) => {
                s.append("expected width (");
                append_dec(&mut s, width as u64);
                s.append(") <= 64");
            },
            LogArrayError::UnexpectedInputBufferSize(size, expected, len, width) => {
                s.append("expected input buffer size (");
                append_dec(&mut s, size);
                s.append(") to be ");
                append_dec(&mut s, expected);
                s.append(" for ");
                append_dec(&mut s, len);
                s.append(" elements and width ");
                append_dec(&mut s, width as u64);
            },
            LogArrayError::ValueExceedsWidth(value, width) => {
                s.append("expected value (");
                append_dec(&mut s, value);
                s.append(") to fit in ");
                append_dec(&mut s, width as u64);
                s.append(" bits");
            },
            LogArrayError::LengthExceedsLimit(len) => {
                s.append("expected length (");
                append_dec(&mut s, len);
                s.append(") <= 72057594037927935");
            },
        }
        proof {
            assert(s@ =~= self.message_spec());
        }
        s
    }
}

/// Appends the decimal rendering of `n`.
fn append_dec(s: &mut String, n: u64)
    ensures
        final(s)@ == old(s)@ + dec_str(n as nat),
    decreases n,
{
    if n >= 10 {
        append_dec(s, n / 10);
    }
    let ghost mid = s@;
    match n % 10 {
        0 => s.append("0"),
        1 => s.append("1"),
        2 => s.append("2"),
        3 => s.append("3"),
        4 => s.append("4"),
        5 => s.append("5"),
        6 => s.append("6"),
        7 => s.append("7"),
        8 => s.append("8"),
        _ => s.append("9"),
    }
    proof {
        reveal_strlit("0");
        reveal_strlit("1");
        reveal_strlit("2");
        reveal_strlit("3");
        reveal_strlit("4");
        reveal_strlit("5");
        reveal_strlit("6");
        reveal_strlit("7");
        reveal_strlit("8");
        reveal_strlit("9");
        if n < 10 {
            assert(s@ =~= old(s)@ + dec_str(n as nat));
        } else {
            assert(s@ =~= old(s)@ + dec_str(n as nat));
        }
    }
}

} // verus!
