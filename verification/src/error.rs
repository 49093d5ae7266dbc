//! The errors that the library reports, and the wording of their messages.

use vstd::prelude::*;
use vstd::string::*;

verus! {

/// Why an operation did not do what was asked.
///
/// The first three are ordinary outcomes that a caller can act on. A
/// `CounterFailure` is not: the id counter could not be advanced, so ids can
/// no longer be handed out, and the caller is expected to stop serving.
#[derive(Debug)]
pub enum Error {
    /// No record is stored under the key.
    NotFound { msg: String },
    /// The record is larger than a stored record may be. Nothing was written.
    SizeExceeded { msg: String },
    /// The bytes stored under the key are not a record of the expected type.
    CorruptRecord { msg: String },
    /// The id counter is exhausted, or could not be opened.
    CounterFailure { msg: String },
}

impl Error {
    /// The message of the error.
    pub open spec fn message(self) -> Seq<char> {
        match self {
            Error::NotFound { msg } => msg@,
            Error::SizeExceeded { msg } => msg@,
            Error::CorruptRecord { msg } => msg@,
            Error::CounterFailure { msg } => msg@,
        }
    }

    /// The message of the error, as text.
    pub fn to_text(&self) -> (text: String)
        ensures
            text@ == self.message(),
    {
        match self {
            Error::NotFound { msg } => msg.clone(),
            Error::SizeExceeded { msg } => msg.clone(),
            Error::CorruptRecord { msg } => msg.clone(),
            Error::CounterFailure { msg } => msg.clone(),
        }
    }
}

/// The character for a decimal digit.
pub open spec fn digit(d: nat) -> char
    recommends
        d < 10,
{
    if d == 0 {
        '0'
    } else if d == 1 {
        '1'
    } else if d == 2 {
        '2'
    } else if d == 3 {
        '3'
    } else if d == 4 {
        '4'
    } else if d == 5 {
        '5'
    } else if d == 6 {
        '6'
    } else if d == 7 {
        '7'
    } else if d == 8 {
        '8'
    } else {
        '9'
    }
}

/// A number in decimal notation, without leading zeros.
pub open spec fn decimal(n: nat) -> Seq<char>
    decreases n,
{
    if n < 10 {
        seq![digit(n)]
    } else {
        decimal(n / 10).push(digit(n % 10))
    }
}

/// What is said of the record of a kind (`label`) under a key:
/// the label, ` with id=`, the key in decimal, and then `what`.
pub open spec fn wording(label: Seq<char>, key: u64, what: Seq<char>) -> Seq<char> {
    label + " with id="@ + decimal(key as nat) + what
}

/// The message of a `NotFound` error.
pub open spec fn not_found_wording(label: Seq<char>, key: u64) -> Seq<char> {
    wording(label, key, " not found"@)
}

/// The message of a `SizeExceeded` error.
pub open spec fn size_exceeded_wording(label: Seq<char>, key: u64) -> Seq<char> {
    wording(label, key, " is too large to store"@)
}

/// The message of a `CorruptRecord` error.
pub open spec fn corrupt_wording(label: Seq<char>, key: u64) -> Seq<char> {
    wording(label, key, " cannot be decoded"@)
}

fn digit_text(d: u64) -> (text: &'static str)
    requires
        d < 10,
    ensures
        text@ == seq![digit(d as nat)],
{
    proof {
        reveal_strlit("0");
        reveal_strlit("1");
        reveal_strlit("2");
        reveal_strlit("3");
        reveal_strlit("4");
        reveal_strlit("5");
        reveal_strlit("6");
        reveal_strlit("7");
        reveal_strlit("8");
        reveal_strlit("9");
    }
    let text = if d == 0 {
        "0"
    } else if d == 1 {
        "1"
    } else if d == 2 {
        "2"
    } else if d == 3 {
        "3"
    } else if d == 4 {
        "4"
    } else if d == 5 {
        "5"
    } else if d == 6 {
        "6"
    } else if d == 7 {
        "7"
    } else if d == 8 {
        "8"
    } else {
        "9"
    };
    assert(text@ =~= seq![digit(d as nat)]);
    text
}

/// Appends a number in decimal notation to `out`.
pub fn append_decimal(out: &mut String, n: u64)
    ensures
        final(out)@ == old(out)@ + decimal(n as nat),
    decreases n,
{
    if n >= 10 {
        append_decimal(out, n / 10);
    }
    out.append(digit_text(n % 10));
    assert(out@ =~= old(out)@ + decimal(n as nat));
}

/// Puts together what is said of the record of a kind under a key.
pub fn describe(label: &str, key: u64, what: &str) -> (text: String)
    ensures
        text@ == wording(label@, key, what@),
{
    let mut text = String::from_str(label);
    text.append(" with id=");
    append_decimal(&mut text, key);
    text.append(what);
    text
}

/// The error for a key under which nothing is stored.
pub fn not_found(label: &str, key: u64) -> (error: Error)
    ensures
        error is NotFound,
        error.message() == not_found_wording(label@, key),
{
    Error::NotFound { msg: describe(label, key, " not found") }
}

/// The error for a record that is too large to store under the key.
pub fn size_exceeded(label: &str, key: u64) -> (error: Error)
    ensures
        error is SizeExceeded,
        error.message() == size_exceeded_wording(label@, key),
{
    Error::SizeExceeded { msg: describe(label, key, " is too large to store") }
}

/// The error for stored bytes that are not a record.
pub fn corrupt(label: &str, key: u64) -> (error: Error)
    ensures
        error is CorruptRecord,
        error.message() == corrupt_wording(label@, key),
{
    Error::CorruptRecord { msg: describe(label, key, " cannot be decoded") }
}

} // verus!
