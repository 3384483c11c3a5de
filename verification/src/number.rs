//! Decimal and hexadecimal numbers as text.

use vstd::prelude::*;

use crate::text::{digit, is_digit, is_hex_digit};

verus! {

/// The reasons why a text is not a number of the wanted range.
#[derive(Clone, Copy, Debug, PartialEq, Eq)]
pub enum NumberError {
    Empty,
    InvalidDigit,
    TooLarge,
}

impl NumberError {
    /// The description of the reason.
    pub open spec fn description(self) -> Seq<char> {
        match self {
            NumberError::Empty => "cannot parse integer from empty string"@,
            NumberError::InvalidDigit => "invalid digit found in string"@,
            NumberError::TooLarge => "number too large to fit in target type"@,
        }
    }

    /// Get the description of the reason.
    pub fn describe(self) -> (result: &'static str)
        ensures
            result@ == self.description(),
    {
        match self {
            NumberError::Empty => "cannot parse integer from empty string",
            NumberError::InvalidDigit => "invalid digit found in string",
            NumberError::TooLarge => "number too large to fit in target type",
        }
    }
}

/// The value of a decimal digit.
pub open spec fn digit_value(character: char) -> int {
    character as int - '0' as int
}

/// The value of a sequence of decimal digits.
pub open spec fn decimal_value(digits: Seq<char>) -> int
    decreases digits.len(),
{
    if digits.len() == 0 {
        0
    } else {
        10 * decimal_value(digits.drop_last()) + digit_value(digits.last())
    }
}

/// The value of decimal digits that must not exceed `maximum`, or the first
/// reason from the left why there is none.
pub open spec fn bounded_value(digits: Seq<char>, maximum: int) -> Result<int, NumberError>
    decreases digits.len(),
{
    if digits.len() == 0 {
        Ok(0)
    } else {
        match bounded_value(digits.drop_last(), maximum) {
            Err(error) => Err(error),
            Ok(value) => if !is_digit(digits.last()) {
                Err(NumberError::InvalidDigit)
            } else if 10 * value + digit_value(digits.last()) > maximum {
                Err(NumberError::TooLarge)
            } else {
                Ok(10 * value + digit_value(digits.last()))
            },
        }
    }
}

/// The digits of a number that can start with a plus sign.
pub open spec fn unsigned_digits(text: Seq<char>) -> Seq<char> {
    if text.len() > 1 && text[0] == '+' {
        text.drop_first()
    } else {
        text
    }
}

/// The number that a text stands for: an optional plus sign and at least one
/// decimal digit.
pub open spec fn number_value(text: Seq<char>, maximum: int) -> Result<int, NumberError> {
    if text.len() == 0 {
        Err(NumberError::Empty)
    } else {
        bounded_value(unsigned_digits(text), maximum)
    }
}

/// Parse a number that must not exceed `maximum`.
pub fn parse_number(text: &[char], maximum: u64) -> (result: Result<u64, NumberError>)
    ensures
        match result {
            Ok(value) => number_value(text@, maximum as int) == Ok::<int, NumberError>(value as int)
                && value <= maximum,
            Err(error) => number_value(text@, maximum as int) == Err::<int, NumberError>(error),
        },
{
    if text.len() == 0 {
        return Err(NumberError::Empty);
    }
    let start: usize = if text.len() > 1 && text[0] == '+' {
        1
    } else {
        0
    };
    let ghost digits = unsigned_digits(text@);
    assert(digits == text@.skip(start as int));
    let mut value: u64 = 0;
    let mut index: usize = start;
    while index < text.len()
        invariant
            start <= index <= text@.len(),
            text@.len() > 0,
            digits == unsigned_digits(text@),
            digits == text@.skip(start as int),
            bounded_value(digits.take(index - start), maximum as int) == Ok::<int, NumberError>(
                value as int,
            ),
            value <= maximum,
        decreases text@.len() - index,
    {
        proof {
            let next = digits.take(index - start + 1);
            assert(next.drop_last() == digits.take(index - start));
            assert(next.last() == text@[index as int]);
            lemma_bounded_prefix(digits, maximum as int, index - start + 1);
        }
        let character = text[index];
        if !digit(character) {
            return Err(NumberError::InvalidDigit);
        }
        let addend: u64 = (character as u64) - ('0' as u64);
        if value > maximum / 10 || addend > maximum - 10 * value {
            return Err(NumberError::TooLarge);
        }
        value = 10 * value + addend;
        index += 1;
    }
    assert(digits.take(text@.len() - start) == digits);
    Ok(value)
}

/// An error in a prefix of the digits is the error of all the digits.
proof fn lemma_bounded_prefix(digits: Seq<char>, maximum: int, length: int)
    requires
        0 <= length <= digits.len(),
    ensures
        bounded_value(digits.take(length), maximum) is Err ==> bounded_value(digits, maximum)
            == bounded_value(digits.take(length), maximum),
    decreases digits.len(),
{
    if length < digits.len() {
        lemma_bounded_prefix(digits.drop_last(), maximum, length);
        assert(digits.drop_last().take(length) == digits.take(length));
    } else {
        assert(digits.take(length) == digits);
    }
}

/// A number that is read lies in the range that is asked for.
pub proof fn numbers_are_in_range(text: Seq<char>, maximum: int)
    requires
        0 <= maximum,
    ensures
        number_value(text, maximum) matches Ok(value) ==> 0 <= value <= maximum,
{
    lemma_bounded_range(unsigned_digits(text), maximum);
}

proof fn lemma_bounded_range(digits: Seq<char>, maximum: int)
    requires
        0 <= maximum,
    ensures
        bounded_value(digits, maximum) matches Ok(value) ==> 0 <= value <= maximum,
    decreases digits.len(),
{
    if digits.len() > 0 {
        lemma_bounded_range(digits.drop_last(), maximum);
    }
}

/// The decimal digit of a value below ten.
pub open spec fn digit_char(value: int) -> char {
    (value + 48) as char
}

/// The decimal text of a number.
pub open spec fn decimal(value: nat) -> Seq<char>
    decreases value,
{
    if value < 10 {
        seq![digit_char(value as int)]
    } else {
        decimal(value / 10).push(digit_char(value as int % 10))
    }
}

/// Write a wide number in decimal.
pub fn wide_decimal_text(value: u128) -> (result: String)
    ensures
        result@ == decimal(value as nat),
    decreases value,
{
    if value < 10 {
        let mut text = String::new();
        text.push((value as u8 + 48) as char);
        assert(text@ == seq![digit_char(value as int)]);
        text
    } else {
        let mut text = wide_decimal_text(value / 10);
        text.push(((value % 10) as u8 + 48) as char);
        text
    }
}

/// Write a number in decimal.
pub fn decimal_text(value: u64) -> (result: String)
    ensures
        result@ == decimal(value as nat),
    decreases value,
{
    if value < 10 {
        let mut text = String::new();
        text.push((value as u8 + 48) as char);
        assert(text@ == seq![digit_char(value as int)]);
        text
    } else {
        let mut text = decimal_text(value / 10);
        text.push(((value % 10) as u8 + 48) as char);
        text
    }
}

/// The decimal text of a number with an optional minus sign.
pub open spec fn signed_decimal(value: int) -> Seq<char> {
    if value < 0 {
        "-"@ + decimal((-value) as nat)
    } else {
        decimal(value as nat)
    }
}

/// Write a signed number in decimal.
pub fn signed_text(value: i64) -> (result: String)
    ensures
        result@ == signed_decimal(value as int),
{
    if value >= 0 {
        decimal_text(value as u64)
    } else if value == i64::MIN {
        let magnitude: u64 = 9223372036854775808;
        String::from_str("-").concat(decimal_text(magnitude).as_str())
    } else {
        String::from_str("-").concat(decimal_text((-value) as u64).as_str())
    }
}

/// A number reads back from its decimal text.
pub proof fn decimal_round_trip(value: nat, maximum: int)
    requires
        value <= maximum,
    ensures
        number_value(decimal(value), maximum) == Ok::<int, NumberError>(value as int),
{
    lemma_decimal_digits(value, maximum);
    let text = decimal(value);
    assert(text[0] != '+');
}

/// The text of a number holds nothing but digits.
pub proof fn decimal_has_only_digits(value: nat)
    ensures
        decimal(value).len() > 0,
        forall|index: int|
            0 <= index < decimal(value).len() ==> is_digit(#[trigger] decimal(value)[index]),
    decreases value,
{
    if value >= 10 {
        decimal_has_only_digits(value / 10);
    }
    lemma_decimal_digits(value, value as int);
    let text = decimal(value);
    assert forall|index: int| 0 <= index < text.len() implies is_digit(#[trigger] text[index]) by {
        if value >= 10 && index < text.len() - 1 {
            assert(text[index] == decimal(value / 10)[index]);
        } else if value >= 10 {
            lemma_decimal_digits((value % 10) as nat, 9);
            assert(text[index] == decimal((value % 10) as nat)[0]);
        }
    }
}

proof fn lemma_decimal_digits(value: nat, maximum: int)
    requires
        value <= maximum,
    ensures
        decimal(value).len() > 0,
        is_digit(decimal(value)[0]),
        bounded_value(decimal(value), maximum) == Ok::<int, NumberError>(value as int),
    decreases value,
{
    let text = decimal(value);
    if value < 10 {
        assert(text.drop_last() == Seq::<char>::empty());
        reveal_with_fuel(bounded_value, 2);
    } else {
        lemma_decimal_digits(value / 10, maximum);
        assert(text.drop_last() == decimal(value / 10));
    }
}

// ---------------------------------------------------------------------------
// Hexadecimal
// ---------------------------------------------------------------------------
/// The lower-case hexadecimal digit of a value below sixteen.
pub open spec fn hex_char(value: int) -> char {
    if value < 10 {
        (0x30 + value) as char
    } else {
        (0x57 + value) as char
    }
}

/// The last hexadecimal digits of a number, with zeros in front.
pub open spec fn hex_digits(value: nat, width: nat) -> Seq<char>
    decreases width,
{
    if width == 0 {
        seq![]
    } else {
        hex_digits(value / 16, (width - 1) as nat).push(hex_char(value as int % 16))
    }
}

/// Write a hexadecimal digit.
fn hex_digit_of(value: u8) -> (result: char)
    requires
        value < 16,
    ensures
        result == hex_char(value as int),
{
    if value < 10 {
        (0x30 + value) as char
    } else {
        (0x57 + value) as char
    }
}

/// Write the last hexadecimal digits of a number, with zeros in front.
pub fn hex_text(value: u128, width: usize) -> (result: String)
    ensures
        result@ == hex_digits(value as nat, width as nat),
    decreases width,
{
    if width == 0 {
        let nothing = String::from_str("");
        assert(nothing@ =~= seq![]) by {
            reveal_strlit("");
        }
        return nothing;
    }
    let mut text = hex_text(value / 16, width - 1);
    text.push(hex_digit_of((value % 16) as u8));
    text
}

/// The hexadecimal text of a number has the asked width and holds nothing but
/// hexadecimal digits.
pub proof fn hex_has_only_hex_digits(value: nat, width: nat)
    ensures
        hex_digits(value, width).len() == width,
        forall|index: int|
            0 <= index < width ==> is_hex_digit(#[trigger] hex_digits(value, width)[index]),
    decreases width,
{
    if width > 0 {
        hex_has_only_hex_digits(value / 16, (width - 1) as nat);
        let text = hex_digits(value, width);
        assert forall|index: int| 0 <= index < width implies is_hex_digit(
            #[trigger] text[index],
        ) by {
            if index < width - 1 {
                assert(text[index] == hex_digits(value / 16, (width - 1) as nat)[index]);
            } else {
                lemma_hex_char(value as int % 16);
            }
        }
    }
}

proof fn lemma_hex_char(value: int)
    requires
        0 <= value < 16,
    ensures
        is_hex_digit(hex_char(value)),
        hex_char(value) != '-',
{
}

} // verus!
