//! UTF-8 text on the wire: the encoding comes from vstd's model of `str`,
//! the decoding from std's checked conversion.

use vstd::prelude::*;
use vstd::utf8::*;

verus! {

/// `String::from_utf8`: a string holding exactly `bytes` when they are valid
/// UTF-8, and `None` (the std error, dropped) when they are not. The contract
/// claims that std's notion of valid UTF-8 is vstd's `valid_utf8` and that
/// the resulting characters are vstd's `decode_utf8` of the bytes.
#[verifier::external_body]
pub(crate) fn string_from_utf8(bytes: Vec<u8>) -> (res: Option<String>)
    ensures
        res is Some <==> valid_utf8(bytes@),
        res matches Some(s) ==> s@ == decode_utf8(bytes@),
{
    match String::from_utf8(bytes) {
        Ok(s) => Some(s),
        Err(_) => None,
    }
}

} // verus!
