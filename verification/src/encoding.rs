//! Text in bytes of unknown origin.

use vstd::prelude::*;
use vstd::utf8::{encode_utf8, valid_utf8};

verus! {

/// The text that `String::from_utf8_lossy` makes of bytes.
pub uninterp spec fn lossy_text(bytes: Seq<u8>) -> Seq<char>;

/// The description that `std::str::Utf8Error` gives of bytes that are not UTF-8.
pub uninterp spec fn utf8_fault(bytes: Seq<u8>) -> Seq<char>;

/// `String::from_utf8_lossy` of the standard library. Bytes that are UTF-8 keep
/// their text; the rest of what the function does, the replacement of invalid
/// sequences, goes by the name `lossy_text`.
#[verifier::external_body]
pub(crate) fn decode_lossy(bytes: &[u8]) -> (result: String)
    ensures
        result@ == lossy_text(bytes@),
        valid_utf8(bytes@) ==> encode_utf8(result@) == bytes@,
{
    String::from_utf8_lossy(bytes).into_owned()
}

/// `std::str::from_utf8` of the standard library. It gives the text of the
/// bytes when they are UTF-8. When they are not, it gives an error, of which
/// only the description is kept; that goes by the name `utf8_fault`.
#[verifier::external_body]
pub(crate) fn decode(bytes: &[u8]) -> (result: Result<String, String>)
    ensures
        match result {
            Ok(text) => valid_utf8(bytes@) && encode_utf8(text@) == bytes@,
            Err(description) => !valid_utf8(bytes@) && description@ == utf8_fault(bytes@),
        },
{
    match std::str::from_utf8(bytes) {
        Ok(text) => Ok(text.to_owned()),
        Err(error) => Err(error.to_string()),
    }
}

/// Bytes that are UTF-8 decode to one text only.
pub proof fn lemma_decoded(text: Seq<char>, bytes: Seq<u8>)
    requires
        encode_utf8(text) == bytes,
    ensures
        text == vstd::utf8::decode_utf8(bytes),
        valid_utf8(bytes),
{
    vstd::utf8::encode_utf8_decode_utf8(text);
    vstd::utf8::encode_utf8_valid_utf8(text);
}

} // verus!
