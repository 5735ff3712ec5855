//! Functions of the standard library that the codec calls and that come
//! without a contract. What is stated here of them is taken from their
//! documentation, not proved.

use vstd::prelude::*;
use vstd::string::StringSliceAdditionalSpecFns;
use vstd::utf8::{is_scalar, valid_utf8};

verus! {

/// `core::str::from_utf8`: the bytes as a string slice where they are
/// well-formed UTF-8, and nothing where they are not. The slice holds the
/// very bytes it was given.
#[verifier::external_body]
pub(crate) fn str_from_utf8<'a>(bytes: &'a [u8]) -> (r: Option<&'a str>)
    ensures
        r.is_some() == valid_utf8(bytes@),
        r matches Some(s) ==> s.spec_bytes() == bytes@,
{
    match core::str::from_utf8(bytes) {
        Ok(s) => Some(s),
        Err(_) => None,
    }
}

/// `char::from_u32`: the character with the given code, or nothing where
/// the number is no Unicode scalar value.
#[verifier::external_body]
pub(crate) fn char_from_u32(code: u32) -> (r: Option<char>)
    ensures
        r.is_some() == is_scalar(code),
        r matches Some(c) ==> c as u32 == code,
{
    char::from_u32(code)
}

} // verus!
