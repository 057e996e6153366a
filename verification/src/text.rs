//! Atom names are UTF-8 text.

use std::string::FromUtf8Error;
use vstd::prelude::*;
use vstd::utf8::decode_utf8;
use vstd::utf8::valid_utf8;

verus! {

/// `std::string::FromUtf8Error`, which is only ever turned into
/// `InvalidText`.
#[verifier::external_type_specification]
#[verifier::external_body]
pub struct ExFromUtf8Error(std::string::FromUtf8Error);

/// `String::from_utf8`. Trusted: it succeeds exactly on valid UTF-8, and the
/// string then holds the characters that the bytes encode.
pub assume_specification[ std::string::String::from_utf8 ](bytes: Vec<u8>) -> (r: Result<
    std::string::String,
    FromUtf8Error,
>)
    ensures
        r is Ok <==> valid_utf8(bytes@),
        r matches Ok(text) ==> text@ == decode_utf8(bytes@),
;

} // verus!
