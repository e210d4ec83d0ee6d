//! Text decoding shared by the drivers.

use vstd::prelude::*;
use vstd::utf8::{valid_utf8, decode_utf8};

verus! {

/// `core::str::from_utf8`, with the error dropped.
///
/// Trusted: std documents that `from_utf8` succeeds exactly on valid
/// UTF-8, and that the string it returns is those bytes; the contract
/// states this with vstd's model of UTF-8.
#[verifier::external_body]
pub(crate) fn str_from_utf8(bytes: &[u8]) -> (r: Option<&str>)
    ensures
        r is Some <==> valid_utf8(bytes@),
        r matches Some(s) ==> s@ == decode_utf8(bytes@),
{
    core::str::from_utf8(bytes).ok()
}

} // verus!
