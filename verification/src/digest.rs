//! SHA-256 digests as text.

use vstd::prelude::*;

use crate::error::{failure, outcome, Outcome, Result};
use crate::pieces::{
    lowercase, lowered, split_words, texts, white_space_separates_words, words,
};
use crate::text::{chars, hex_digit, is_hex_digit, is_white_space};

verus! {

/// The length of a digest in hexadecimal characters.
pub const SHA256_HEX_LENGTH: usize = 64;

/// The text is a digest.
pub open spec fn is_sha256(value: Seq<char>) -> bool {
    value.len() == SHA256_HEX_LENGTH && forall|index: int|
        0 <= index < value.len() ==> is_hex_digit(#[trigger] value[index])
}

/// A digest in lower case.
pub open spec fn sha256_value(value: Seq<char>) -> Outcome<Seq<char>> {
    if is_sha256(value) {
        Ok(lowercase(value))
    } else {
        Err("The SHA-256 value must contain exactly 64 hexadecimal characters."@)
    }
}

/// The digest that `sha256sum` prints.
pub open spec fn printed_sha256(output: Seq<char>) -> Outcome<Seq<char>> {
    if words(output).len() == 0 {
        Err("sha256sum did not return a digest."@)
    } else {
        sha256_value(words(output)[0])
    }
}

/// Test whether a text is a digest.
pub fn sha256_text(value: &[char]) -> (result: bool)
    ensures
        result == is_sha256(value@),
{
    if value.len() != SHA256_HEX_LENGTH {
        return false;
    }
    for index in 0..value.len()
        invariant
            forall|at: int| 0 <= at < index ==> is_hex_digit(#[trigger] value@[at]),
    {
        if !hex_digit(value[index]) {
            assert(!is_hex_digit(value@[index as int]));
            return false;
        }
    }
    true
}

fn normalize(value: &[char]) -> (result: Result<String>)
    ensures
        outcome(result) == sha256_value(value@),
{
    if !sha256_text(value) {
        return Err(
            failure("The SHA-256 value must contain exactly 64 hexadecimal characters."),
        );
    }
    Ok(lowered(value))
}

/// Require a digest and write it in lower case.
pub fn normalize_sha256(value: &str) -> (result: Result<String>)
    ensures
        outcome(result) == sha256_value(value@),
{
    let characters = chars(value);
    normalize(characters.as_slice())
}

/// Read the digest of a file from what `sha256sum` printed about it.
pub fn sha256_file(output: &str) -> (result: Result<String>)
    ensures
        outcome(result) == printed_sha256(output@),
{
    let characters = chars(output);
    let parts = split_words(characters.as_slice());
    let ghost all = texts(parts@);
    assert(all.len() == parts@.len());
    if parts.len() == 0 {
        return Err(failure("sha256sum did not return a digest."));
    }
    assert(all[0] == parts@[0]@);
    normalize(parts[0])
}

/// Read the digest of a file from what a given `sha256sum` printed about it.
pub fn sha256_file_with_tool(output: &str) -> (result: Result<String>)
    ensures
        outcome(result) == printed_sha256(output@),
{
    sha256_file(output)
}

/// A normalized digest is a digest, and normalizing it again changes nothing.
pub proof fn normalized_digests_are_stable(value: Seq<char>)
    requires
        is_sha256(value),
    ensures
        is_sha256(lowercase(value)),
        sha256_value(lowercase(value)) == sha256_value(value),
{
    let lower = lowercase(value);
    assert forall|at: int| 0 <= at < lower.len() implies is_hex_digit(#[trigger] lower[at])
        && crate::pieces::lower_char(lower[at]) == lower[at] by {
        vstd::utf8::char_u32_cast(value[at], value[at] as u32);
        assert(is_hex_digit(value[at]));
    }
    assert(lowercase(lower) =~= lower);
}

/// A digest has 64 hexadecimal digits, and is read in lower case.  Every text of 64
/// such digits is one.
pub proof fn digests_have_their_length(value: Seq<char>)
    ensures
        sha256_value(value) matches Ok(digest) ==> {
            &&& value.len() == 64
            &&& digest.len() == 64
            &&& forall|index: int|
                0 <= index < 64 ==> ('0' <= (#[trigger] digest[index]) <= '9') || ('a'
                    <= digest[index] <= 'f')
        },
        value.len() == 64 && (forall|index: int|
            0 <= index < 64 ==> ('0' <= (#[trigger] value[index]) <= '9') || ('a' <= value[index]
                <= 'f') || ('A' <= value[index] <= 'F')) ==> sha256_value(value) is Ok,
{
    if is_sha256(value) {
        let digest = lowercase(value);
        assert forall|index: int| 0 <= index < 64 implies ('0' <= (#[trigger] digest[index]) <= '9')
            || ('a' <= digest[index] <= 'f') by {
            assert(is_hex_digit(value[index]));
            vstd::utf8::char_u32_cast(value[index], value[index] as u32);
        }
    }
}

/// The tool that hashes a file prints the digest as the first word, and what
/// follows it does not matter.
pub proof fn the_first_word_is_the_digest(digest: Seq<char>, rest: Seq<char>)
    requires
        is_sha256(digest),
    ensures
        printed_sha256(digest.push(' ') + rest) == sha256_value(digest),
{
    white_space_separates_words(digest, ' ', rest);
    assert forall|index: int| 0 <= index < digest.len() implies !is_white_space(
        #[trigger] digest[index],
    ) by {
        assert(is_hex_digit(digest[index]));
    }
    assert(words(digest.push(' ') + rest)[0] == digest);
}

} // verus!
