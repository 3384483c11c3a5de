//! Text as sequences of characters: classes, trimming, splitting and searching.
//!
//! The parsers of this crate take their input apart as slices of characters.
//! Every operation comes as a specification function over `Seq<char>` and an
//! executable function that is proved to compute it.

use vstd::prelude::*;
use vstd::utf8::encode_utf8;

verus! {

/// `String::push` of the standard library: the character goes to the end of
/// the text and nothing else changes.
pub assume_specification[ String::push ](text: &mut String, character: char)
    ensures
        final(text)@ == old(text)@.push(character),
;

/// A set of characters that text can be trimmed of, split at or searched for.
#[derive(Clone, Copy, Debug, PartialEq, Eq)]
pub enum CharClass {
    /// The Unicode `White_Space` property.
    WhiteSpace,
    /// A space or a horizontal tab.
    Blank,
    /// One given character.
    Exactly(char),
    /// The ASCII white space characters.
    AsciiWhiteSpace,
    /// The characters that end the package name of a Debian relation.
    RelationNameEnd,
    /// The characters that end the package qualifier of a Debian relation.
    QualifierEnd,
    /// The characters that end the package name of an Arch dependency.
    NameEnd,
}

/// The Unicode `White_Space` property.
pub open spec fn is_white_space(character: char) -> bool {
    let code = character as u32;
    ||| 0x9 <= code <= 0xd
    ||| code == 0x20
    ||| code == 0x85
    ||| code == 0xa0
    ||| code == 0x1680
    ||| 0x2000 <= code <= 0x200a
    ||| code == 0x2028
    ||| code == 0x2029
    ||| code == 0x202f
    ||| code == 0x205f
    ||| code == 0x3000
}

/// The Unicode general category `Cc`.
pub open spec fn is_control(character: char) -> bool {
    let code = character as u32;
    code < 0x20 || 0x7f <= code <= 0x9f
}

/// The ASCII white space that the WHATWG Infra standard lists.
pub open spec fn is_ascii_white_space(character: char) -> bool {
    character == ' ' || character == '\t' || character == '\n' || character == '\u{c}' || character
        == '\r'
}

pub open spec fn is_lower(character: char) -> bool {
    'a' <= character && character <= 'z'
}

pub open spec fn is_upper(character: char) -> bool {
    'A' <= character && character <= 'Z'
}

pub open spec fn is_digit(character: char) -> bool {
    '0' <= character && character <= '9'
}

pub open spec fn is_alphabetic(character: char) -> bool {
    is_lower(character) || is_upper(character)
}

pub open spec fn is_alphanumeric(character: char) -> bool {
    is_alphabetic(character) || is_digit(character)
}

pub open spec fn is_hex_digit(character: char) -> bool {
    ||| is_digit(character)
    ||| 'a' <= character && character <= 'f'
    ||| 'A' <= character && character <= 'F'
}

impl CharClass {
    /// Membership of a character in the class.
    pub open spec fn has(self, character: char) -> bool {
        match self {
            CharClass::WhiteSpace => is_white_space(character),
            CharClass::Blank => character == ' ' || character == '\t',
            CharClass::Exactly(only) => character == only,
            CharClass::AsciiWhiteSpace => is_ascii_white_space(character),
            CharClass::RelationNameEnd => is_ascii_white_space(character) || character == ':'
                || character == '(' || character == '[' || character == '<',
            CharClass::QualifierEnd => is_ascii_white_space(character) || character == '('
                || character == '[' || character == '<',
            CharClass::NameEnd => character == '<' || character == '>' || character == '='
                || character == ':',
        }
    }

    /// Test the membership of a character.
    pub fn contains(self, character: char) -> (result: bool)
        ensures
            result == self.has(character),
    {
        match self {
            CharClass::WhiteSpace => white_space(character),
            CharClass::Blank => character == ' ' || character == '\t',
            CharClass::Exactly(only) => character == only,
            CharClass::AsciiWhiteSpace => ascii_white_space(character),
            CharClass::RelationNameEnd => ascii_white_space(character) || character == ':'
                || character == '(' || character == '[' || character == '<',
            CharClass::QualifierEnd => ascii_white_space(character) || character == '('
                || character == '[' || character == '<',
            CharClass::NameEnd => character == '<' || character == '>' || character == '='
                || character == ':',
        }
    }
}

/// Test a character for the Unicode `White_Space` property.
pub fn white_space(character: char) -> (result: bool)
    ensures
        result == is_white_space(character),
{
    let code: u32 = character as u32;
    (0x9 <= code && code <= 0xd) || code == 0x20 || code == 0x85 || code == 0xa0 || code == 0x1680
        || (0x2000 <= code && code <= 0x200a) || code == 0x2028 || code == 0x2029 || code == 0x202f
        || code == 0x205f || code == 0x3000
}

/// Test a character for the Unicode general category `Cc`.
pub fn control(character: char) -> (result: bool)
    ensures
        result == is_control(character),
{
    let code: u32 = character as u32;
    code < 0x20 || (0x7f <= code && code <= 0x9f)
}

pub fn ascii_white_space(character: char) -> (result: bool)
    ensures
        result == is_ascii_white_space(character),
{
    character == ' ' || character == '\t' || character == '\n' || character == '\u{c}' || character
        == '\r'
}

pub fn lower(character: char) -> (result: bool)
    ensures
        result == is_lower(character),
{
    'a' <= character && character <= 'z'
}

pub fn digit(character: char) -> (result: bool)
    ensures
        result == is_digit(character),
{
    '0' <= character && character <= '9'
}

pub fn alphabetic(character: char) -> (result: bool)
    ensures
        result == is_alphabetic(character),
{
    ('a' <= character && character <= 'z') || ('A' <= character && character <= 'Z')
}

pub fn alphanumeric(character: char) -> (result: bool)
    ensures
        result == is_alphanumeric(character),
{
    alphabetic(character) || digit(character)
}

pub fn hex_digit(character: char) -> (result: bool)
    ensures
        result == is_hex_digit(character),
{
    digit(character) || ('a' <= character && character <= 'f') || ('A' <= character && character
        <= 'F')
}

// ---------------------------------------------------------------------------
// Conversion and comparison
// ---------------------------------------------------------------------------
/// The characters of a text.
pub fn chars(text: &str) -> (result: Vec<char>)
    ensures
        result@ == text@,
{
    let mut result: Vec<char> = Vec::new();
    for character in iter: text.chars()
        invariant
            result@ == iter.seq().take(iter.index()),
            iter.seq() == text@,
    {
        result.push(character);
        assert(iter.seq().take(iter.index() + 1) == iter.seq().take(iter.index()).push(character));
    }
    assert(text@.take(text@.len() as int) == text@);
    result
}

/// The text that is made of the given characters.
pub fn string(characters: &[char]) -> (result: String)
    ensures
        result@ == characters@,
{
    let mut result = String::new();
    for index in 0..characters.len()
        invariant
            result@ == characters@.take(index as int),
    {
        result.push(characters[index]);
        assert(characters@.take(index + 1) == characters@.take(index as int).push(
            characters@[index as int],
        ));
    }
    assert(characters@.take(characters@.len() as int) == characters@);
    result
}

/// Test two texts for equality.
pub fn equal(left: &str, right: &str) -> (result: bool)
    ensures
        result == (left@ == right@),
{
    let left_bytes: &[u8] = left.as_bytes();
    let right_bytes: &[u8] = right.as_bytes();
    if left_bytes.len() != right_bytes.len() {
        return false;
    }
    for index in 0..left_bytes.len()
        invariant
            left_bytes@ == encode_utf8(left@),
            right_bytes@ == encode_utf8(right@),
            left_bytes@.len() == right_bytes@.len(),
            left_bytes@.take(index as int) == right_bytes@.take(index as int),
    {
        if left_bytes[index] != right_bytes[index] {
            return false;
        }
        assert(left_bytes@.take(index + 1) == left_bytes@.take(index as int).push(
            left_bytes@[index as int],
        ));
        assert(right_bytes@.take(index + 1) == right_bytes@.take(index as int).push(
            right_bytes@[index as int],
        ));
    }
    proof {
        assert(left_bytes@.take(left_bytes@.len() as int) == left_bytes@);
        assert(right_bytes@.take(right_bytes@.len() as int) == right_bytes@);
        vstd::utf8::encode_utf8_decode_utf8(left@);
        vstd::utf8::encode_utf8_decode_utf8(right@);
    }
    true
}

/// Test whether `literal` stands at position `at` of `characters`.
pub fn matches_at(characters: &[char], at: usize, literal: &str) -> (result: bool)
    requires
        at <= characters@.len(),
    ensures
        result == (at + literal@.len() <= characters@.len() && characters@.subrange(
            at as int,
            at + literal@.len(),
        ) == literal@),
{
    let mut index: usize = at;
    for character in iter: literal.chars()
        invariant
            at <= index <= characters@.len(),
            index == at + iter.index(),
            iter.seq() == literal@,
            characters@.subrange(at as int, index as int) == literal@.take(iter.index()),
    {
        if index == characters.len() {
            return false;
        }
        if characters[index] != character {
            assert(at + literal@.len() <= characters@.len() ==> characters@.subrange(
                at as int,
                at + literal@.len(),
            )[index - at] == characters@[index as int]);
            return false;
        }
        index += 1;
        assert(literal@.take(iter.index() + 1) == literal@.take(iter.index()).push(character));
        assert(characters@.subrange(at as int, index as int) == characters@.subrange(
            at as int,
            index - 1,
        ).push(character));
    }
    assert(literal@.take(literal@.len() as int) == literal@);
    true
}

/// Test whether the characters spell the literal.
pub fn is(characters: &[char], literal: &str) -> (result: bool)
    ensures
        result == (characters@ == literal@),
{
    let found = matches_at(characters, 0, literal);
    let same_length = found && literal.unicode_len() == characters.len();
    assert(characters@.subrange(0, characters@.len() as int) == characters@);
    same_length
}

/// `prefix` stands at the start of `characters`.
pub open spec fn has_prefix(characters: Seq<char>, prefix: Seq<char>) -> bool {
    prefix.len() <= characters.len() && characters.take(prefix.len() as int) == prefix
}

/// `suffix` stands at the end of `characters`.
pub open spec fn has_suffix(characters: Seq<char>, suffix: Seq<char>) -> bool {
    suffix.len() <= characters.len() && characters.skip(characters.len() - suffix.len()) == suffix
}

pub fn starts_with(characters: &[char], prefix: &str) -> (result: bool)
    ensures
        result == has_prefix(characters@, prefix@),
{
    assert(prefix@.len() <= characters@.len() ==> characters@.subrange(0, prefix@.len() as int)
        == characters@.take(prefix@.len() as int));
    matches_at(characters, 0, prefix)
}

pub fn ends_with(characters: &[char], suffix: &str) -> (result: bool)
    ensures
        result == has_suffix(characters@, suffix@),
{
    let length = suffix.unicode_len();
    if length > characters.len() {
        return false;
    }
    let at: usize = characters.len() - length;
    assert(characters@.subrange(at as int, at + length) == characters@.skip(at as int));
    matches_at(characters, at, suffix)
}

/// The rest of the characters behind a prefix.
pub fn strip_prefix<'a>(characters: &'a [char], prefix: &str) -> (result: Option<&'a [char]>)
    ensures
        result is Some <==> has_prefix(characters@, prefix@),
        result matches Some(rest) ==> rest@ == characters@.skip(prefix@.len() as int),
{
    if starts_with(characters, prefix) {
        Some(vstd::slice::slice_subrange(characters, prefix.unicode_len(), characters.len()))
    } else {
        None
    }
}

} // verus!
