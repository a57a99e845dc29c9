//! Decoding bytes as UTF-8 text.
use vstd::prelude::*;
use vstd::string::StringSliceAdditionalSpecFns;
use vstd::utf8::valid_utf8;

verus! {

/// Relies on `core::str::from_utf8`: it succeeds exactly on valid UTF-8, and
/// the text it returns is made of the very bytes it was given.
#[verifier::external_body]
pub(crate) fn decode_utf8<'a>(b: &'a [u8]) -> (r: Option<&'a str>)
    ensures
        r is Some <==> valid_utf8(b@),
        r matches Some(t) ==> t.spec_bytes() == b@,
{
    core::str::from_utf8(b).ok()
}

} // verus!
