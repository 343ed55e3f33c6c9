//! Between bytes and text: UTF-8.

use crate::text::{chars_of, copy_of, string_of};
use std::string::FromUtf8Error;
use vstd::prelude::*;
use vstd::string::StrSliceExecFns;
use vstd::utf8::{decode_utf8, encode_utf8, valid_utf8};

verus! {

/// What `String::from_utf8` returns for bytes that are no UTF-8.
#[verifier::external_type_specification]
#[verifier::external_body]
pub struct ExFromUtf8Error(FromUtf8Error);

/// `String::from_utf8` accepts exactly the byte sequences that are valid
/// UTF-8, and the string it returns is made of the bytes it was given.
pub assume_specification[ String::from_utf8 ](v: Vec<u8>) -> (r: Result<String, FromUtf8Error>)
    ensures
        r is Ok <==> valid_utf8(v@),
        r matches Ok(s) ==> encode_utf8(s@) == v@,
;

/// The text that `bytes` encode, where they are valid UTF-8.
pub open spec fn text_of(bytes: Seq<u8>) -> Option<Seq<char>> {
    if valid_utf8(bytes) {
        Some(decode_utf8(bytes))
    } else {
        None
    }
}

/// Encoding a text and reading it back gives the text.
pub proof fn lemma_text_of_encoded(t: Seq<char>)
    ensures
        text_of(encode_utf8(t)) == Some(t),
{
    vstd::utf8::encode_utf8_valid_utf8(t);
    vstd::utf8::encode_utf8_decode_utf8(t);
}

pub fn decode(bytes: &Vec<u8>) -> (r: Option<Vec<char>>)
    ensures
        match r {
            Some(t) => text_of(bytes@) == Some(t@),
            None => text_of(bytes@) is None,
        },
{
    match String::from_utf8(copy_of(bytes)) {
        Ok(s) => {
            proof {
                vstd::utf8::encode_utf8_decode_utf8(s@);
            }
            Some(chars_of(s.as_str()))
        },
        Err(_) => None,
    }
}

pub fn encode(t: &Vec<char>) -> (r: Vec<u8>)
    ensures
        r@ == encode_utf8(t@),
{
    let s = string_of(t);
    s.as_str().as_bytes_vec()
}

} // verus!
