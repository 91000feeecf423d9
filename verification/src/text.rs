use vstd::prelude::*;
use vstd::utf8::decode_utf8;
use vstd::utf8::valid_utf8;

verus! {

/// Relies on String::from_utf8: it succeeds exactly on valid UTF-8 and then
/// returns a string holding those bytes decoded.
#[verifier::external_body]
pub(crate) fn utf8_to_string(bytes: Vec<u8>) -> (r: Option<String>)
    ensures
        r is Some <==> valid_utf8(bytes@),
        r matches Some(s) ==> s@ == decode_utf8(bytes@),
{
    String::from_utf8(bytes).ok()
}

/// Relies on String::from_utf8_lossy: bytes below 128 are ASCII, hence valid
/// UTF-8, and render as one character per byte with the byte's code point.
#[verifier::external_body]
pub(crate) fn ascii_to_string(bytes: &[u8]) -> (r: String)
    requires
        forall|i: int| 0 <= i < bytes@.len() ==> bytes@[i] < 128,
    ensures
        r@.len() == bytes@.len(),
        forall|i: int| 0 <= i < bytes@.len() ==> (r@[i] as u32) == bytes@[i] as u32,
{
    String::from_utf8_lossy(bytes).into_owned()
}

} // verus!
