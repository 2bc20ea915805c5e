//! The error type shared by the scanner, the parser and the driver, and the
//! text that each error is reported as.

use vstd::prelude::*;

verus! {

/// `std::io::Error`, which the library carries through as it is: nothing
/// is known of what one holds.
#[verifier::external_type_specification]
#[verifier::external_body]
pub struct ExIoError(std::io::Error);

/// What can go wrong while running a program text.
#[derive(Debug)]
pub enum LoxError {
    /// The driver was started with arguments it does not understand.
    InvalidParameter,
    /// A lexical or syntactic error, located in the source.
    ParseError { line: usize, where_: String, message: String },
    /// The program text was accepted but failed while it ran.
    RuntimeError,
    /// Reading the input or writing the output failed.
    IOError(std::io::Error),
}

/// A consumer of errors: it either absorbs an error, or hands it back.
pub trait ErrorReporter {
    fn report(&mut self, err: LoxError) -> Result<(), LoxError>;
}

/// The character that denotes the digit `d`.
pub open spec fn digit_char(d: nat) -> char
    recommends
        d < 10,
{
    ('0' as u8 + d as u8) as char
}

/// The decimal numeral of `n`, without leading zeros.
pub open spec fn decimal(n: nat) -> Seq<char>
    decreases n,
{
    if n < 10 {
        seq![digit_char(n)]
    } else {
        decimal(n / 10).push(digit_char(n % 10))
    }
}

/// `[line L] Error W: M`, the report of a located error.
pub open spec fn parse_error_text(line: nat, where_: Seq<char>, message: Seq<char>) -> Seq<char> {
    "[line "@ + decimal(line) + "] Error "@ + where_ + ": "@ + message
}

/// Whether `err` is the located error with these three parts.
pub open spec fn is_parse_error(
    err: LoxError,
    line: nat,
    where_: Seq<char>,
    message: Seq<char>,
) -> bool {
    &&& err matches LoxError::ParseError { line: l, where_: w, message: m }
    &&& l == line
    &&& w@ == where_
    &&& m@ == message
}

/// The text that a `std::io::Error` displays itself as, by `format!`. It
/// depends on the platform, so nothing is claimed of it.
#[verifier::external_body]
fn io_error_text(err: &std::io::Error) -> (out: String) {
    format!("{}", err)
}

/// The character of one decimal digit.
fn digit_of(d: usize) -> (c: char)
    requires
        d < 10,
    ensures
        c == digit_char(d as nat),
{
    if d == 0 {
        '0'
    } else if d == 1 {
        '1'
    } else if d == 2 {
        '2'
    } else if d == 3 {
        '3'
    } else if d == 4 {
        '4'
    } else if d == 5 {
        '5'
    } else if d == 6 {
        '6'
    } else if d == 7 {
        '7'
    } else if d == 8 {
        '8'
    } else {
        '9'
    }
}

/// Appends the decimal numeral of `n` to `out`.
pub fn push_decimal(out: &mut String, n: usize)
    ensures
        final(out)@ == old(out)@ + decimal(n as nat),
    decreases n,
{
    if n < 10 {
        out.push(digit_of(n));
        assert(old(out)@.push(digit_char(n as nat)) =~= old(out)@ + decimal(n as nat));
    } else {
        push_decimal(out, n / 10);
        out.push(digit_of(n % 10));
        assert((old(out)@ + decimal((n / 10) as nat)).push(digit_char((n % 10) as nat)) =~= old(
            out,
        )@ + decimal(n as nat));
    }
}

impl LoxError {
    /// The text that the error is reported as.
    pub fn to_string(&self) -> (out: String)
        ensures
            match *self {
                LoxError::InvalidParameter => out@ == "Invalid parameter"@,
                LoxError::ParseError { line, where_, message } => out@ == parse_error_text(
                    line as nat,
                    where_@,
                    message@,
                ),
                LoxError::RuntimeError => out@ == "Runtime error"@,
                LoxError::IOError(_) => "IO error: "@.is_prefix_of(out@),
            },
    {
        match self {
            LoxError::InvalidParameter => "Invalid parameter".to_owned(),
            LoxError::ParseError { line, where_, message } => {
                let mut out = "[line ".to_owned();
                push_decimal(&mut out, *line);
                out.append("] Error ");
                out.append(where_.as_str());
                out.append(": ");
                out.append(message.as_str());
                out
            },
            LoxError::RuntimeError => "Runtime error".to_owned(),
            LoxError::IOError(err) => {
                let mut out = "IO error: ".to_owned();
                let detail = io_error_text(err);
                out.append(detail.as_str());
                out
            },
        }
    }
}

} // verus!
