//! What is taken on trust of std's conversion from bytes to text.
//!
//! Nothing here is proved: the decoder's text read rests on it.
use vstd::prelude::*;
use vstd::utf8::{encode_utf8, valid_utf8};

verus! {

/// The error of `String::from_utf8`. Nothing is read from it.
#[verifier::external_type_specification]
#[verifier::external_body]
pub struct ExFromUtf8Error(std::string::FromUtf8Error);

/// `String::from_utf8` succeeds on the byte sequences that are well-formed
/// UTF-8 and on no others, and the text that it gives has exactly those bytes
/// as its UTF-8 encoding.
pub assume_specification[ String::from_utf8 ](vec: Vec<u8>) -> (r: Result<
    String,
    std::string::FromUtf8Error,
>)
    ensures
        r is Ok <==> valid_utf8(vec@),
        r matches Ok(text) ==> encode_utf8(text@) == vec@,
;

} // verus!
