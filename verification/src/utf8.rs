//! The one fact about text the codec needs: whether bytes are valid UTF-8.
use vstd::prelude::*;

verus! {

/// Whether a byte sequence is well-formed UTF-8. The codec never looks at
/// the characters themselves; it only accepts or rejects the bytes.
pub uninterp spec fn utf8_ok(s: Seq<u8>) -> bool;

/// Relies on core::str::from_utf8: it returns Ok exactly on well-formed
/// UTF-8, and that depends on the bytes alone.
#[verifier::external_body]
pub fn check_utf8(b: &[u8]) -> (r: bool)
    ensures
        r == utf8_ok(b@),
{
    core::str::from_utf8(b).is_ok()
}

} // verus!
