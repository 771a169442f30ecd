//! Trusted adapter around the Base64 encoder.

use vstd::prelude::*;

verus! {

/// The Base64 encoding (standard alphabet, padded) of a text's UTF-8 bytes.
/// The text alone determines the result.
pub uninterp spec fn base64_of(text: Seq<char>) -> Seq<char>;

/// Relies on `base64::encode`: encodes the text's UTF-8 bytes with the
/// standard alphabet, padded, deterministically in the text.
#[verifier::external_body]
pub(crate) fn base64_encode(value: &str) -> (r: String)
    ensures
        r@ == base64_of(value@),
{
    base64::encode(value.as_bytes())
}

} // verus!
