//! Contracts for functions of the standard library that the library calls
//! and that come without one. Nothing here is proved: each item states what
//! the standard library documents.

use vstd::prelude::*;
use vstd::string::*;
use vstd::utf8::*;
use crate::search::occurs_in;

verus! {

/// `core::str::Utf8Error`: what `core::str::from_utf8` fails with.
#[verifier::external_type_specification]
#[verifier::external_body]
pub struct ExUtf8Error(core::str::Utf8Error);

/// `core::str::from_utf8` succeeds exactly on the byte strings that are
/// well-formed UTF-8, and the text it returns has the given bytes as its
/// UTF-8 form.
pub assume_specification[ core::str::from_utf8 ](bytes: &[u8]) -> (result: Result<
    &str,
    core::str::Utf8Error,
>)
    ensures
        result is Ok <==> valid_utf8(bytes@),
        result matches Ok(text) ==> text.spec_bytes() == bytes@,
;

/// `str::contains` with a string slice as the pattern: tells whether the
/// pattern stands somewhere in the text, in one piece.
#[verifier::external_body]
pub(crate) fn text_contains(text: &str, pattern: &str) -> (found: bool)
    ensures
        found == occurs_in(pattern@, text@),
{
    text.contains(pattern)
}

} // verus!
