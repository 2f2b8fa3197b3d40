//! The transport text of a payload: base64 over UTF-8.
//!
//! The base64 codec is that of `rustc_serialize::base64`. The contracts of
//! the functions of this module are taken on trust from its source, and from
//! the documentation of `String::from_utf8`.

use rustc_serialize::base64::{FromBase64, FromBase64Error, ToBase64, URL_SAFE};
use std::string::FromUtf8Error;
use vstd::prelude::*;
use vstd::utf8::{encode_utf8, valid_utf8};

verus! {

/// `rustc_serialize::base64::FromBase64Error`, the error of the base64
/// reader.
#[verifier::external_type_specification]
#[verifier::external_body]
pub struct ExFromBase64Error(rustc_serialize::base64::FromBase64Error);

/// `std::string::FromUtf8Error`, the error of `String::from_utf8`.
#[verifier::external_type_specification]
#[verifier::external_body]
pub struct ExFromUtf8Error(std::string::FromUtf8Error);

/// What `from_base64` makes of a text: the bytes it stands for, or `None`
/// where it reports an error.
pub uninterp spec fn base64_decoded(text: Seq<char>) -> Option<Seq<u8>>;

/// What `to_base64` writes for bytes in the URL-safe alphabet, without
/// padding and without line breaks.
pub uninterp spec fn base64_encoded(bytes: Seq<u8>) -> Seq<char>;

/// A character that base64 text may hold: a digit of either alphabet, the
/// padding sign, or a line break.
pub open spec fn base64_symbol(c: char) -> bool {
    ||| 'A' <= c <= 'Z'
    ||| 'a' <= c <= 'z'
    ||| '0' <= c <= '9'
    ||| c == '+'
    ||| c == '/'
    ||| c == '-'
    ||| c == '_'
    ||| c == '='
    ||| c == '\r'
    ||| c == '\n'
}

/// Every character of the text is one that base64 text may hold.
pub open spec fn base64_symbols(text: Seq<char>) -> bool {
    forall|i: int| 0 <= i < text.len() ==> base64_symbol(#[trigger] text[i])
}

/// Calls `FromBase64::from_base64` on the text. It is taken on trust that
/// the outcome depends on the characters alone: an error where
/// `base64_decoded` has no bytes for them, else the bytes `base64_decoded`
/// has; and that a text with a character that is no base64 symbol is an
/// error.
#[verifier::external_body]
pub(crate) fn decode_base64(text: &str) -> (r: Result<Vec<u8>, FromBase64Error>)
    ensures
        r is Ok <==> base64_decoded(text@) is Some,
        r matches Ok(bytes) ==> base64_decoded(text@) == Some(bytes@),
        r is Ok ==> base64_symbols(text@),
{
    text.from_base64()
}

/// Calls `ToBase64::to_base64` with the configuration `URL_SAFE`. It is
/// taken on trust that the text depends on the bytes alone, as
/// `base64_encoded` names it, and that `from_base64` reads it back as the
/// bytes.
#[verifier::external_body]
pub(crate) fn encode_base64(bytes: &[u8]) -> (r: String)
    ensures
        r@ == base64_encoded(bytes@),
        base64_decoded(r@) == Some(bytes@),
{
    bytes.to_base64(URL_SAFE)
}

/// Calls `String::from_utf8`. It is taken on trust that the result is an
/// error exactly where the bytes are no UTF-8 encoding, and else the string
/// whose UTF-8 encoding they are.
#[verifier::external_body]
pub(crate) fn read_utf8(bytes: Vec<u8>) -> (r: Result<String, FromUtf8Error>)
    ensures
        r is Ok <==> valid_utf8(bytes@),
        r matches Ok(text) ==> encode_utf8(text@) == bytes@,
{
    String::from_utf8(bytes)
}

} // verus!
