//! Decoding of raw bytes into text, with invalid sequences replaced.

use vstd::prelude::*;

verus! {

/// The characters that lossy UTF-8 decoding yields for `bytes`: every
/// invalid sequence is replaced, none is rejected. The result depends on
/// the bytes alone.
pub uninterp spec fn utf8_lossy_of(bytes: Seq<u8>) -> Seq<char>;

/// Relies on String::from_utf8_lossy: decodes `bytes` as UTF-8,
/// replacing invalid sequences; the result is a function of the bytes
/// alone.
#[verifier::external_body]
pub fn lossy_string(bytes: &[u8]) -> (r: String)
    ensures
        r@ == utf8_lossy_of(bytes@),
{
    String::from_utf8_lossy(bytes).into_owned()
}

} // verus!
