//! The order of Debian versions.
//!
//! A version has an epoch, an upstream part and a revision part. A part is
//! compared through its key: the weights of the characters before a number,
//! a zero, the number, and so on. Keys are compared one element after the
//! other, and a key that ends goes on with zeros.

use std::cmp::Ordering;

use vstd::prelude::*;
use vstd::slice::slice_subrange;
use vstd::utf8::encode_utf8;

use crate::number::{decimal_value, digit_value};
use crate::order::{before, characters_before, lemma_irreflexive, lemma_total, lemma_transitive};
use crate::pieces::{find, lemma_position_is, position, trim_start, without_start};
use crate::text::{alphabetic, chars, digit, is_alphabetic, is_digit, string, CharClass};

verus! {

// ---------------------------------------------------------------------------
// Orders
// ---------------------------------------------------------------------------
/// The order of two integers.
pub open spec fn int_order(left: int, right: int) -> Ordering {
    if left < right {
        Ordering::Less
    } else if left == right {
        Ordering::Equal
    } else {
        Ordering::Greater
    }
}

/// The order of two texts by their characters.
pub open spec fn text_order(left: Seq<char>, right: Seq<char>) -> Ordering {
    if before(left, right) {
        Ordering::Less
    } else if left == right {
        Ordering::Equal
    } else {
        Ordering::Greater
    }
}

/// The order that decides, unless it is equality.
pub open spec fn first_order(first: Ordering, second: Ordering) -> Ordering {
    if first == Ordering::Equal {
        second
    } else {
        first
    }
}

/// The order of two things that are given the other way round.
pub open spec fn reversed(order: Ordering) -> Ordering {
    match order {
        Ordering::Less => Ordering::Greater,
        Ordering::Equal => Ordering::Equal,
        Ordering::Greater => Ordering::Less,
    }
}

/// Three comparisons of three things agree with a total order in which equal
/// things take the same place.
pub open spec fn agree(first_second: Ordering, second_third: Ordering, first_third: Ordering) -> bool {
    &&& first_second == Ordering::Equal ==> first_third == second_third
    &&& second_third == Ordering::Equal ==> first_third == first_second
    &&& first_second == second_third ==> first_third == first_second
}

// ---------------------------------------------------------------------------
// Keys
// ---------------------------------------------------------------------------
/// The weight of a character that is not a digit. A tilde comes before the
/// end of a part, and letters come before other characters.
pub open spec fn character_weight(character: char) -> int {
    if character == '~' {
        -1
    } else if is_alphabetic(character) {
        character as u32 as int
    } else {
        character as u32 as int + 256
    }
}

/// The number of digits at the start of a text.
pub open spec fn digit_run(text: Seq<char>) -> nat
    decreases text.len(),
{
    if text.len() == 0 || !is_digit(text[0]) {
        0
    } else {
        1 + digit_run(text.drop_first())
    }
}

/// A run of digits lies within the text.
pub proof fn lemma_digit_run(text: Seq<char>)
    ensures
        digit_run(text) <= text.len(),
    decreases text.len(),
{
    if text.len() > 0 {
        lemma_digit_run(text.drop_first());
    }
}

/// The key of a version part.
pub open spec fn part_key(part: Seq<char>) -> Seq<int>
    decreases part.len(),
{
    if part.len() == 0 {
        seq![]
    } else if !is_digit(part[0]) {
        seq![character_weight(part[0])] + part_key(part.drop_first())
    } else {
        let digits = digit_run(part);
        proof {
            lemma_digit_run(part);
        }
        seq![0, decimal_value(part.take(digits as int))] + part_key(part.skip(digits as int))
    }
}

/// The first element of a key that goes on with zeros.
pub open spec fn key_head(key: Seq<int>) -> int {
    if key.len() > 0 {
        key[0]
    } else {
        0
    }
}

/// A key without its first element.
pub open spec fn key_tail(key: Seq<int>) -> Seq<int> {
    if key.len() > 0 {
        key.drop_first()
    } else {
        key
    }
}

/// The order of two keys: the first element that differs decides.
pub open spec fn key_order(left: Seq<int>, right: Seq<int>) -> Ordering
    decreases left.len() + right.len(),
{
    if left.len() == 0 && right.len() == 0 {
        Ordering::Equal
    } else {
        first_order(
            int_order(key_head(left), key_head(right)),
            key_order(key_tail(left), key_tail(right)),
        )
    }
}

/// The order of two version parts.
pub open spec fn part_order(left: Seq<char>, right: Seq<char>) -> Ordering {
    key_order(part_key(left), part_key(right))
}

// ---------------------------------------------------------------------------
// Versions
// ---------------------------------------------------------------------------
/// The text before the first colon, or zero.
pub open spec fn epoch_part(version: Seq<char>) -> Seq<char> {
    let at = position(version, CharClass::Exactly(':')) as int;
    if at < version.len() {
        version.take(at)
    } else {
        "0"@
    }
}

/// The text after the first colon, or all of it.
pub open spec fn body_part(version: Seq<char>) -> Seq<char> {
    let at = position(version, CharClass::Exactly(':')) as int;
    if at < version.len() {
        version.skip(at + 1)
    } else {
        version
    }
}

/// The position of the last occurrence of a character, or -1.
pub open spec fn last_position(text: Seq<char>, character: char) -> int
    decreases text.len(),
{
    if text.len() == 0 {
        -1
    } else if text.last() == character {
        text.len() - 1
    } else {
        last_position(text.drop_last(), character)
    }
}

/// The text before the last hyphen, or all of it.
pub open spec fn upstream_part(body: Seq<char>) -> Seq<char> {
    let at = last_position(body, '-');
    if at >= 0 {
        body.take(at)
    } else {
        body
    }
}

/// The text after the last hyphen, or zero.
pub open spec fn revision_part(body: Seq<char>) -> Seq<char> {
    let at = last_position(body, '-');
    if at >= 0 {
        body.skip(at + 1)
    } else {
        "0"@
    }
}

/// The length of a text in bytes.
pub open spec fn byte_length(text: Seq<char>) -> int {
    encode_utf8(text).len() as int
}

/// The order of two texts that stand for decimal numbers: without the zeros
/// at the start, the shorter text comes first.
pub open spec fn decimal_order(left: Seq<char>, right: Seq<char>) -> Ordering {
    let left_digits = trim_start(left, CharClass::Exactly('0'));
    let right_digits = trim_start(right, CharClass::Exactly('0'));
    first_order(
        int_order(byte_length(left_digits), byte_length(right_digits)),
        text_order(left_digits, right_digits),
    )
}

/// The order of two Debian versions.
pub open spec fn version_order(left: Seq<char>, right: Seq<char>) -> Ordering {
    first_order(
        decimal_order(epoch_part(left), epoch_part(right)),
        first_order(
            part_order(upstream_part(body_part(left)), upstream_part(body_part(right))),
            part_order(revision_part(body_part(left)), revision_part(body_part(right))),
        ),
    )
}

// ---------------------------------------------------------------------------
// Laws of the order
// ---------------------------------------------------------------------------
proof fn lemma_key_reflexive(key: Seq<int>)
    ensures
        key_order(key, key) == Ordering::Equal,
    decreases key.len(),
{
    if key.len() > 0 {
        lemma_key_reflexive(key_tail(key));
    }
}

proof fn lemma_key_reversed(left: Seq<int>, right: Seq<int>)
    ensures
        key_order(left, right) == reversed(key_order(right, left)),
    decreases left.len() + right.len(),
{
    if left.len() > 0 || right.len() > 0 {
        lemma_key_reversed(key_tail(left), key_tail(right));
    }
}

proof fn lemma_key_agree(first: Seq<int>, second: Seq<int>, third: Seq<int>)
    ensures
        agree(key_order(first, second), key_order(second, third), key_order(first, third)),
    decreases first.len() + second.len() + third.len(),
{
    if first.len() > 0 || second.len() > 0 || third.len() > 0 {
        lemma_key_agree(key_tail(first), key_tail(second), key_tail(third));
        lemma_key_unfold(first, second);
        lemma_key_unfold(second, third);
        lemma_key_unfold(first, third);
    }
}

/// The comparison of two keys can always be unfolded by one element.
proof fn lemma_key_unfold(left: Seq<int>, right: Seq<int>)
    ensures
        key_order(left, right) == first_order(
            int_order(key_head(left), key_head(right)),
            key_order(key_tail(left), key_tail(right)),
        ),
{
}

proof fn lemma_text_agree(first: Seq<char>, second: Seq<char>, third: Seq<char>)
    ensures
        agree(text_order(first, second), text_order(second, third), text_order(first, third)),
        text_order(first, second) == reversed(text_order(second, first)),
        text_order(first, first) == Ordering::Equal,
{
    lemma_total(first, second);
    lemma_total(second, third);
    lemma_total(first, third);
    lemma_irreflexive(first);
    lemma_irreflexive(second);
    if before(first, second) && before(second, third) {
        lemma_transitive(first, second, third);
    }
    if before(third, second) && before(second, first) {
        lemma_transitive(third, second, first);
    }
}

proof fn lemma_decimal_agree(first: Seq<char>, second: Seq<char>, third: Seq<char>)
    ensures
        agree(
            decimal_order(first, second),
            decimal_order(second, third),
            decimal_order(first, third),
        ),
        decimal_order(first, second) == reversed(decimal_order(second, first)),
        decimal_order(first, first) == Ordering::Equal,
{
    let first_digits = trim_start(first, CharClass::Exactly('0'));
    let second_digits = trim_start(second, CharClass::Exactly('0'));
    let third_digits = trim_start(third, CharClass::Exactly('0'));
    lemma_text_agree(first_digits, second_digits, third_digits);
}

/// Every version is equal to itself.
pub proof fn version_order_is_reflexive(version: Seq<char>)
    ensures
        version_order(version, version) == Ordering::Equal,
{
    lemma_decimal_agree(epoch_part(version), epoch_part(version), epoch_part(version));
    lemma_key_reflexive(part_key(upstream_part(body_part(version))));
    lemma_key_reflexive(part_key(revision_part(body_part(version))));
}

/// The comparison of two versions the other way round gives the reversed order.
pub proof fn version_order_is_antisymmetric(left: Seq<char>, right: Seq<char>)
    ensures
        version_order(left, right) == reversed(version_order(right, left)),
{
    lemma_decimal_agree(epoch_part(left), epoch_part(right), epoch_part(left));
    lemma_key_reversed(
        part_key(upstream_part(body_part(left))),
        part_key(upstream_part(body_part(right))),
    );
    lemma_key_reversed(
        part_key(revision_part(body_part(left))),
        part_key(revision_part(body_part(right))),
    );
}

/// The comparisons of three versions agree with one total order.
pub proof fn version_order_is_transitive(first: Seq<char>, second: Seq<char>, third: Seq<char>)
    ensures
        agree(
            version_order(first, second),
            version_order(second, third),
            version_order(first, third),
        ),
{
    lemma_decimal_agree(epoch_part(first), epoch_part(second), epoch_part(third));
    lemma_key_agree(
        part_key(upstream_part(body_part(first))),
        part_key(upstream_part(body_part(second))),
        part_key(upstream_part(body_part(third))),
    );
    lemma_key_agree(
        part_key(revision_part(body_part(first))),
        part_key(revision_part(body_part(second))),
        part_key(revision_part(body_part(third))),
    );
}

// ---------------------------------------------------------------------------
// Decimal numbers
// ---------------------------------------------------------------------------
/// All characters are decimal digits.
pub open spec fn all_digits(text: Seq<char>) -> bool {
    forall|index: int| 0 <= index < text.len() ==> is_digit(#[trigger] text[index])
}

spec fn power_of_ten(exponent: nat) -> int
    decreases exponent,
{
    if exponent == 0 {
        1
    } else {
        10 * power_of_ten((exponent - 1) as nat)
    }
}

proof fn lemma_power_grows(small: nat, large: nat)
    requires
        small <= large,
    ensures
        1 <= power_of_ten(small) <= power_of_ten(large),
    decreases large,
{
    if small < large {
        lemma_power_grows(small, (large - 1) as nat);
    } else if large > 0 {
        lemma_power_grows((small - 1) as nat, (large - 1) as nat);
    }
}

/// The first digit of a number counts with the power of its place.
proof fn lemma_first_digit(digits: Seq<char>)
    requires
        digits.len() > 0,
    ensures
        decimal_value(digits) == digit_value(digits[0]) * power_of_ten((digits.len() - 1) as nat)
            + decimal_value(digits.drop_first()),
    decreases digits.len(),
{
    if digits.len() == 1 {
        assert(digits.drop_last() == Seq::<char>::empty());
        assert(digits.drop_first() == Seq::<char>::empty());
        reveal_with_fuel(decimal_value, 2);
        assert(digit_value(digits[0]) * power_of_ten(0) == digit_value(digits[0]))
            by (nonlinear_arith)
            requires
                power_of_ten(0) == 1,
        ;
    } else {
        let shorter = digits.drop_last();
        lemma_first_digit(shorter);
        assert(digits.drop_first().drop_last() == shorter.drop_first());
        assert(digits.drop_first().last() == digits.last());
        let first = digit_value(digits[0]);
        let power = power_of_ten((shorter.len() - 1) as nat);
        assert(power_of_ten((digits.len() - 1) as nat) == 10 * power);
        assert(10 * (first * power) == first * (10 * power)) by (nonlinear_arith);
    }
}

proof fn lemma_value_range(digits: Seq<char>)
    requires
        all_digits(digits),
    ensures
        0 <= decimal_value(digits) < power_of_ten(digits.len()),
        digits.len() > 0 && digits[0] != '0' ==> power_of_ten((digits.len() - 1) as nat)
            <= decimal_value(digits),
    decreases digits.len(),
{
    if digits.len() > 0 {
        let rest = digits.drop_first();
        assert forall|index: int| 0 <= index < rest.len() implies is_digit(
            #[trigger] rest[index],
        ) by {
            assert(rest[index] == digits[index + 1]);
        }
        lemma_value_range(rest);
        lemma_first_digit(digits);
        let first = digit_value(digits[0]);
        let power = power_of_ten(rest.len());
        assert(0 <= first <= 9);
        assert(power_of_ten(digits.len()) == 10 * power);
        assert(0 <= first * power <= 9 * power) by (nonlinear_arith)
            requires
                0 <= first <= 9,
                0 <= power,
        ;
        if digits[0] != '0' {
            assert(power <= first * power) by (nonlinear_arith)
                requires
                    1 <= first,
                    0 <= power,
            ;
        }
    }
}

proof fn lemma_value_without_zeros(digits: Seq<char>)
    ensures
        decimal_value(trim_start(digits, CharClass::Exactly('0'))) == decimal_value(digits),
    decreases digits.len(),
{
    if digits.len() > 0 && digits[0] == '0' {
        lemma_first_digit(digits);
        lemma_value_without_zeros(digits.drop_first());
        assert(0 * power_of_ten((digits.len() - 1) as nat) == 0);
    }
}

proof fn lemma_trim_keeps_digits(digits: Seq<char>)
    requires
        all_digits(digits),
    ensures
        all_digits(trim_start(digits, CharClass::Exactly('0'))),
        ({
            let rest = trim_start(digits, CharClass::Exactly('0'));
            rest.len() > 0 ==> rest[0] != '0'
        }),
    decreases digits.len(),
{
    if digits.len() > 0 && digits[0] == '0' {
        let rest = digits.drop_first();
        assert forall|index: int| 0 <= index < rest.len() implies is_digit(
            #[trigger] rest[index],
        ) by {
            assert(rest[index] == digits[index + 1]);
        }
        lemma_trim_keeps_digits(rest);
    }
}

/// Digits of the same number of places are ordered like their values.
proof fn lemma_same_places(left: Seq<char>, right: Seq<char>)
    requires
        all_digits(left),
        all_digits(right),
        left.len() == right.len(),
    ensures
        before(left, right) <==> decimal_value(left) < decimal_value(right),
    decreases left.len(),
{
    if left.len() > 0 {
        let left_rest = left.drop_first();
        let right_rest = right.drop_first();
        assert forall|index: int| 0 <= index < left_rest.len() implies is_digit(
            #[trigger] left_rest[index],
        ) by {
            assert(left_rest[index] == left[index + 1]);
        }
        assert forall|index: int| 0 <= index < right_rest.len() implies is_digit(
            #[trigger] right_rest[index],
        ) by {
            assert(right_rest[index] == right[index + 1]);
        }
        lemma_same_places(left_rest, right_rest);
        lemma_value_range(left_rest);
        lemma_value_range(right_rest);
        lemma_first_digit(left);
        lemma_first_digit(right);
        let power = power_of_ten(left_rest.len());
        let left_first = digit_value(left[0]);
        let right_first = digit_value(right[0]);
        if left_first < right_first {
            assert((left_first + 1) * power <= right_first * power) by (nonlinear_arith)
                requires
                    left_first + 1 <= right_first,
                    0 <= power,
            ;
            assert((left_first + 1) * power == left_first * power + power) by (nonlinear_arith);
        } else if right_first < left_first {
            assert((right_first + 1) * power <= left_first * power) by (nonlinear_arith)
                requires
                    right_first + 1 <= left_first,
                    0 <= power,
            ;
            assert((right_first + 1) * power == right_first * power + power) by (nonlinear_arith);
        }
    }
}

proof fn lemma_digits_are_bytes(digits: Seq<char>)
    requires
        all_digits(digits),
    ensures
        byte_length(digits) == digits.len(),
{
    assert(vstd::utf8::is_ascii_chars(digits)) by {
        assert forall|index: int| 0 <= index < digits.len() implies 0 <= #[trigger] digits[index]
            < 128 by {
            assert(is_digit(digits[index]));
        }
    }
    vstd::utf8::is_ascii_chars_encode_utf8(digits);
}

/// Texts of decimal digits are ordered like the numbers that they stand for.
pub proof fn decimal_order_is_numeric(left: Seq<char>, right: Seq<char>)
    requires
        all_digits(left),
        all_digits(right),
    ensures
        decimal_order(left, right) == int_order(decimal_value(left), decimal_value(right)),
{
    let left_digits = trim_start(left, CharClass::Exactly('0'));
    let right_digits = trim_start(right, CharClass::Exactly('0'));
    lemma_trim_keeps_digits(left);
    lemma_trim_keeps_digits(right);
    lemma_value_without_zeros(left);
    lemma_value_without_zeros(right);
    lemma_digits_are_bytes(left_digits);
    lemma_digits_are_bytes(right_digits);
    lemma_value_range(left_digits);
    lemma_value_range(right_digits);
    if left_digits.len() == right_digits.len() {
        lemma_same_places(left_digits, right_digits);
        lemma_same_places(right_digits, left_digits);
        lemma_total(left_digits, right_digits);
        lemma_irreflexive(left_digits);
    } else {
        lemma_longer_is_larger(left_digits, right_digits);
    }
}

/// Without zeros at the start, more digits make a larger number.
proof fn lemma_longer_is_larger(left: Seq<char>, right: Seq<char>)
    requires
        all_digits(left),
        all_digits(right),
        left.len() > 0 ==> left[0] != '0',
        right.len() > 0 ==> right[0] != '0',
        left.len() != right.len(),
    ensures
        decimal_value(left) < decimal_value(right) <==> left.len() < right.len(),
        decimal_value(left) != decimal_value(right),
{
    lemma_value_range(left);
    lemma_value_range(right);
    if left.len() < right.len() {
        lemma_power_grows(left.len(), (right.len() - 1) as nat);
    } else {
        lemma_power_grows(right.len(), (left.len() - 1) as nat);
    }
}

// ---------------------------------------------------------------------------
// Comparison
// ---------------------------------------------------------------------------
/// The number of digits at the start.
fn count_digits(text: &[char]) -> (result: usize)
    ensures
        result == digit_run(text@),
        result <= text@.len(),
        all_digits(text@.take(result as int)),
        result < text@.len() ==> !is_digit(text@[result as int]),
{
    let mut count: usize = 0;
    assert(text@.skip(0) == text@);
    while count < text.len() && digit(text[count])
        invariant
            count <= text@.len(),
            digit_run(text@) == count + digit_run(text@.skip(count as int)),
            forall|index: int| 0 <= index < count ==> is_digit(#[trigger] text@[index]),
        decreases text@.len() - count,
    {
        assert(text@.skip(count as int).drop_first() == text@.skip(count + 1));
        count += 1;
    }
    count
}

/// The weight of the first character of a part. A digit and the end of the
/// part have the weight zero.
fn first_weight(part: &[char]) -> (result: i32)
    ensures
        result == key_head(part_key(part@)),
        result == 0 <==> part@.len() == 0 || is_digit(part@[0]),
        result != 0 ==> result == character_weight(part@[0]),
{
    proof {
        if part@.len() > 0 {
            vstd::utf8::char_is_scalar(part@[0]);
        }
    }
    if part.len() == 0 || digit(part[0]) {
        0
    } else if part[0] == '~' {
        -1
    } else if alphabetic(part[0]) {
        part[0] as u32 as i32
    } else {
        part[0] as u32 as i32 + 256
    }
}

/// Different characters that are not digits have different weights.
proof fn lemma_weights_differ(left: char, right: char)
    requires
        character_weight(left) == character_weight(right),
    ensures
        left == right,
{
    vstd::utf8::char_is_scalar(left);
    vstd::utf8::char_is_scalar(right);
    vstd::utf8::char_u32_cast(left, left as u32);
    vstd::utf8::char_u32_cast(right, right as u32);
}

/// What a step of the comparison of two parts establishes about their keys.
proof fn lemma_step_over_characters(left: Seq<char>, right: Seq<char>)
    requires
        left.len() > 0,
        right.len() > 0,
        left[0] == right[0],
        !is_digit(left[0]),
    ensures
        part_order(left, right) == part_order(left.drop_first(), right.drop_first()),
{
    let left_key = part_key(left);
    let right_key = part_key(right);
    assert(key_tail(left_key) == part_key(left.drop_first()));
    assert(key_tail(right_key) == part_key(right.drop_first()));
}

/// The number at the start of a part, and zero where there is none.
spec fn first_number(part: Seq<char>) -> int {
    decimal_value(part.take(digit_run(part) as int))
}

/// A part without the number at its start.
spec fn after_number(part: Seq<char>) -> Seq<char> {
    part.skip(digit_run(part) as int)
}

/// The key of a part that is empty or starts with a number.
proof fn lemma_number_key(part: Seq<char>)
    requires
        part.len() == 0 || is_digit(part[0]),
    ensures
        key_head(part_key(part)) == 0,
        key_head(key_tail(part_key(part))) == first_number(part),
        key_tail(key_tail(part_key(part))) == part_key(after_number(part)),
{
    if part.len() == 0 {
        assert(part.take(0) == Seq::<char>::empty());
        assert(part.skip(0) == part);
    } else {
        let rest = part_key(after_number(part));
        assert(part_key(part) == seq![0, first_number(part)] + rest);
        assert(key_tail(part_key(part)) == seq![first_number(part)] + rest);
        assert(key_tail(key_tail(part_key(part))) == rest);
    }
}

/// The comparison of two parts that start with numbers.
proof fn lemma_step_over_numbers(left: Seq<char>, right: Seq<char>)
    requires
        left.len() == 0 || is_digit(left[0]),
        right.len() == 0 || is_digit(right[0]),
    ensures
        part_order(left, right) == first_order(
            int_order(first_number(left), first_number(right)),
            part_order(after_number(left), after_number(right)),
        ),
{
    lemma_number_key(left);
    lemma_number_key(right);
    let left_key = part_key(left);
    let right_key = part_key(right);
    lemma_key_unfold(left_key, right_key);
    lemma_key_unfold(key_tail(left_key), key_tail(right_key));
}

/// Take the number from the start of a part.
fn split_number<'a>(part: &'a [char]) -> (result: (&'a [char], &'a [char]))
    ensures
        all_digits(result.0@),
        decimal_value(result.0@) == first_number(part@),
        result.1@ == after_number(part@),
        part@.len() > 0 && is_digit(part@[0]) ==> result.1@.len() < part@.len(),
        result.1@.len() <= part@.len(),
{
    let count = count_digits(part);
    (slice_subrange(part, 0, count), slice_subrange(part, count, part.len()))
}

/// Compare two texts that stand for decimal numbers.
fn compare_decimal(left: &[char], right: &[char]) -> (result: Ordering)
    ensures
        result == decimal_order(left@, right@),
{
    let left_digits = without_start(left, CharClass::Exactly('0'));
    let right_digits = without_start(right, CharClass::Exactly('0'));
    let left_text = string(left_digits);
    let right_text = string(right_digits);
    let left_length: usize = left_text.as_str().as_bytes().len();
    let right_length: usize = right_text.as_str().as_bytes().len();
    proof {
        lemma_total(left_digits@, right_digits@);
        lemma_irreflexive(left_digits@);
    }
    if left_length < right_length {
        Ordering::Less
    } else if left_length > right_length {
        Ordering::Greater
    } else if characters_before(left_digits, right_digits) {
        Ordering::Less
    } else if characters_before(right_digits, left_digits) {
        Ordering::Greater
    } else {
        Ordering::Equal
    }
}

/// Compare two version parts.
fn compare_version_part(left: &[char], right: &[char]) -> (result: Ordering)
    ensures
        result == part_order(left@, right@),
{
    let mut left_rest: &[char] = left;
    let mut right_rest: &[char] = right;
    while left_rest.len() > 0 || right_rest.len() > 0
        invariant
            part_order(left_rest@, right_rest@) == part_order(left@, right@),
        decreases left_rest@.len() + right_rest@.len(),
    {
        let ghost total = left_rest@.len() + right_rest@.len();
        while (left_rest.len() > 0 && !digit(left_rest[0])) || (right_rest.len() > 0 && !digit(
            right_rest[0],
        ))
            invariant
                part_order(left_rest@, right_rest@) == part_order(left@, right@),
                left_rest@.len() + right_rest@.len() <= total,
                left_rest@.len() + right_rest@.len() == total ==> total > 0,
            decreases left_rest@.len() + right_rest@.len(),
        {
            let left_weight: i32 = first_weight(left_rest);
            let right_weight: i32 = first_weight(right_rest);
            proof {
                lemma_key_unfold(part_key(left_rest@), part_key(right_rest@));
            }
            if left_weight < right_weight {
                return Ordering::Less;
            }
            if left_weight > right_weight {
                return Ordering::Greater;
            }
            proof {
                lemma_weights_differ(left_rest@[0], right_rest@[0]);
                lemma_step_over_characters(left_rest@, right_rest@);
            }
            left_rest = slice_subrange(left_rest, 1, left_rest.len());
            right_rest = slice_subrange(right_rest, 1, right_rest.len());
        }
        proof {
            lemma_step_over_numbers(left_rest@, right_rest@);
        }
        let (left_number, left_after) = split_number(left_rest);
        let (right_number, right_after) = split_number(right_rest);
        proof {
            decimal_order_is_numeric(left_number@, right_number@);
        }
        match compare_decimal(left_number, right_number) {
            Ordering::Equal => {},
            order => {
                return order;
            },
        }
        left_rest = left_after;
        right_rest = right_after;
    }
    Ordering::Equal
}

/// Split a version into its epoch and the rest.
fn split_epoch<'a>(version: &'a [char]) -> (result: (Vec<char>, &'a [char]))
    ensures
        result.0@ == epoch_part(version@),
        result.1@ == body_part(version@),
{
    let at = find(version, CharClass::Exactly(':'));
    if at < version.len() {
        let epoch = vstd::slice::slice_to_vec(slice_subrange(version, 0, at));
        assert(version@.subrange(0, at as int) == version@.take(at as int));
        assert(version@.subrange(at + 1, version@.len() as int) == version@.skip(at + 1));
        (epoch, slice_subrange(version, at + 1, version.len()))
    } else {
        (chars("0"), version)
    }
}

/// Split the rest of a version into its upstream part and its revision.
fn split_revision<'a>(body: &'a [char]) -> (result: (&'a [char], Vec<char>))
    ensures
        result.0@ == upstream_part(body@),
        result.1@ == revision_part(body@),
{
    let mut end: usize = body.len();
    assert(body@.take(end as int) == body@);
    while end > 0
        invariant
            end <= body@.len(),
            last_position(body@, '-') == last_position(body@.take(end as int), '-'),
        decreases end,
    {
        assert(body@.take(end as int).drop_last() == body@.take(end - 1));
        if body[end - 1] == '-' {
            let revision = vstd::slice::slice_to_vec(slice_subrange(body, end, body.len()));
            assert(body@.subrange(end as int, body@.len() as int) == body@.skip(end as int));
            assert(body@.subrange(0, end - 1) == body@.take(end - 1));
            return (slice_subrange(body, 0, end - 1), revision);
        }
        end -= 1;
    }
    (body, chars("0"))
}

/// Compare two versions with Debian's epoch, upstream, and revision ordering.
///
/// This is used only to select the stronger compatible duplicate limit.  It
/// does not imply that a Debian version can be compared with every Arch package
/// version.
pub fn compare_debian_versions(left: &str, right: &str) -> (result: Ordering)
    ensures
        result == version_order(left@, right@),
{
    let left_characters = chars(left);
    let right_characters = chars(right);
    let (left_epoch, left_body) = split_epoch(left_characters.as_slice());
    let (right_epoch, right_body) = split_epoch(right_characters.as_slice());
    match compare_decimal(left_epoch.as_slice(), right_epoch.as_slice()) {
        Ordering::Equal => {},
        order => {
            return order;
        },
    }
    let (left_upstream, left_revision) = split_revision(left_body);
    let (right_upstream, right_revision) = split_revision(right_body);
    match compare_version_part(left_upstream, right_upstream) {
        Ordering::Equal => compare_version_part(left_revision.as_slice(), right_revision.as_slice()),
        order => order,
    }
}

// ---------------------------------------------------------------------------
// What decides
// ---------------------------------------------------------------------------
proof fn lemma_run_is_digits(text: Seq<char>, index: int)
    requires
        0 <= index < digit_run(text),
    ensures
        index < text.len(),
        is_digit(text[index]),
    decreases text.len(),
{
    if index > 0 {
        lemma_run_is_digits(text.drop_first(), index - 1);
    }
}

proof fn lemma_run_stops(start: Seq<char>, rest: Seq<char>)
    requires
        digit_run(start) < start.len() || rest.len() == 0 || !is_digit(rest[0]),
    ensures
        digit_run(start + rest) == digit_run(start),
    decreases start.len(),
{
    if start.len() == 0 {
        assert(start + rest =~= rest);
    } else {
        assert((start + rest).drop_first() =~= start.drop_first() + rest);
        if is_digit(start[0]) {
            lemma_run_stops(start.drop_first(), rest);
        }
    }
}

/// What follows a text does not touch the number at its start, where the number
/// ends before it.
proof fn lemma_number_start(start: Seq<char>, rest: Seq<char>)
    requires
        start.len() > 0,
        is_digit(start[0]),
        !is_digit(start.last()) || rest.len() == 0 || !is_digit(rest[0]),
    ensures
        first_number(start + rest) == first_number(start),
        after_number(start + rest) == after_number(start) + rest,
        after_number(start).len() < start.len(),
        after_number(start).len() > 0 ==> after_number(start).last() == start.last(),
{
    lemma_digit_run(start);
    if digit_run(start) == start.len() {
        lemma_run_is_digits(start, start.len() - 1);
    }
    lemma_run_stops(start, rest);
    let count = digit_run(start) as int;
    assert((start + rest).take(count) =~= start.take(count));
    assert((start + rest).skip(count) =~= start.skip(count) + rest);
}

/// A common start does not decide, unless it cuts a number in two.
proof fn lemma_common_start(start: Seq<char>, left: Seq<char>, right: Seq<char>)
    requires
        start.len() == 0 || !is_digit(start.last()) || ((left.len() == 0 || !is_digit(left[0])) && (
        right.len() == 0 || !is_digit(right[0]))),
    ensures
        part_order(start + left, start + right) == part_order(left, right),
    decreases start.len(),
{
    if start.len() == 0 {
        assert(start + left =~= left);
        assert(start + right =~= right);
    } else if is_digit(start[0]) {
        lemma_number_start(start, left);
        lemma_number_start(start, right);
        lemma_step_over_numbers(start + left, start + right);
        lemma_common_start(after_number(start), left, right);
    } else {
        lemma_step_over_characters(start + left, start + right);
        assert((start + left).drop_first() =~= start.drop_first() + left);
        assert((start + right).drop_first() =~= start.drop_first() + right);
        lemma_common_start(start.drop_first(), left, right);
    }
}

/// The text has no epoch and no revision.
pub open spec fn is_upstream_text(text: Seq<char>) -> bool {
    forall|index: int| 0 <= index < text.len() ==> text[index] != ':' && text[index] != '-'
}

proof fn lemma_no_hyphen(text: Seq<char>)
    requires
        forall|index: int| 0 <= index < text.len() ==> text[index] != '-',
    ensures
        last_position(text, '-') == -1,
    decreases text.len(),
{
    if text.len() > 0 {
        lemma_no_hyphen(text.drop_last());
    }
}

proof fn lemma_upstream_text(text: Seq<char>)
    requires
        is_upstream_text(text),
    ensures
        epoch_part(text) == "0"@,
        body_part(text) == text,
        upstream_part(text) == text,
        revision_part(text) == "0"@,
{
    lemma_position_is(text, CharClass::Exactly(':'), text.len() as int);
    lemma_no_hyphen(text);
}

proof fn lemma_upstream_order(left: Seq<char>, right: Seq<char>)
    requires
        is_upstream_text(left),
        is_upstream_text(right),
    ensures
        version_order(left, right) == part_order(left, right),
{
    lemma_upstream_text(left);
    lemma_upstream_text(right);
    lemma_key_reflexive(part_key("0"@));
    lemma_irreflexive(trim_start("0"@, CharClass::Exactly('0')));
}

/// A version with a tilde behind it comes before the version itself, whatever
/// follows the tilde.
pub proof fn tildes_come_before_the_end(version: Seq<char>, rest: Seq<char>)
    requires
        is_upstream_text(version),
        is_upstream_text(rest),
    ensures
        version_order(version.push('~') + rest, version) == Ordering::Less,
{
    let end = seq!['~'] + rest;
    let nothing = Seq::<char>::empty();
    assert(version.push('~') + rest =~= version + end);
    assert(version + nothing =~= version);
    assert forall|index: int| 0 <= index < (version + end).len() implies (version + end)[index]
        != ':' && (version + end)[index] != '-' by {
        if index > version.len() {
            assert((version + end)[index] == rest[index - version.len() - 1]);
        } else if index < version.len() {
            assert((version + end)[index] == version[index]);
        }
    }
    lemma_upstream_order(version + end, version);
    lemma_common_start(version, end, nothing);
    lemma_key_unfold(part_key(end), part_key(nothing));
}

proof fn lemma_all_digits_run(digits: Seq<char>)
    requires
        all_digits(digits),
    ensures
        first_number(digits) == decimal_value(digits),
        after_number(digits).len() == 0,
    decreases digits.len(),
{
    lemma_whole_run(digits);
    let count = digits.len() as int;
    assert(digits.take(count) =~= digits);
}

proof fn lemma_whole_run(digits: Seq<char>)
    requires
        all_digits(digits),
    ensures
        digit_run(digits) == digits.len(),
    decreases digits.len(),
{
    if digits.len() > 0 {
        lemma_whole_run(digits.drop_first());
    }
}

/// Behind a common start, versions have the order of the numbers that they end
/// in.
pub proof fn numbers_are_compared_by_value(start: Seq<char>, left: Seq<char>, right: Seq<char>)
    requires
        is_upstream_text(start),
        start.len() > 0 ==> !is_digit(start.last()),
        all_digits(left),
        all_digits(right),
    ensures
        version_order(start + left, start + right) == int_order(
            decimal_value(left),
            decimal_value(right),
        ),
{
    assert forall|index: int| 0 <= index < (start + left).len() implies (start + left)[index] != ':'
        && (start + left)[index] != '-' by {
        if index >= start.len() {
            assert(is_digit(left[index - start.len()]));
        }
    }
    assert forall|index: int| 0 <= index < (start + right).len() implies (start + right)[index]
        != ':' && (start + right)[index] != '-' by {
        if index >= start.len() {
            assert(is_digit(right[index - start.len()]));
        }
    }
    lemma_upstream_order(start + left, start + right);
    lemma_common_start(start, left, right);
    lemma_step_over_numbers(left, right);
    lemma_all_digits_run(left);
    lemma_all_digits_run(right);
    assert(after_number(left) =~= after_number(right));
    lemma_key_reflexive(part_key(after_number(left)));
}

proof fn lemma_with_epoch(epoch: Seq<char>, rest: Seq<char>)
    requires
        all_digits(epoch),
    ensures
        epoch_part(epoch.push(':') + rest) == epoch,
        body_part(epoch.push(':') + rest) == rest,
{
    let version = epoch.push(':') + rest;
    let at = epoch.len() as int;
    assert forall|index: int| 0 <= index < at implies !CharClass::Exactly(':').has(
        #[trigger] version[index],
    ) by {
        assert(is_digit(epoch[index]));
    }
    assert(version[at] == ':');
    lemma_position_is(version, CharClass::Exactly(':'), at);
    assert(version.take(at) =~= epoch);
    assert(version.skip(at + 1) =~= rest);
}

/// Epochs decide before everything else, by their values.
pub proof fn epochs_decide_first(
    left_epoch: Seq<char>,
    right_epoch: Seq<char>,
    left: Seq<char>,
    right: Seq<char>,
)
    requires
        all_digits(left_epoch),
        all_digits(right_epoch),
        decimal_value(left_epoch) != decimal_value(right_epoch),
    ensures
        version_order(left_epoch.push(':') + left, right_epoch.push(':') + right) == int_order(
            decimal_value(left_epoch),
            decimal_value(right_epoch),
        ),
{
    lemma_with_epoch(left_epoch, left);
    lemma_with_epoch(right_epoch, right);
    decimal_order_is_numeric(left_epoch, right_epoch);
}

proof fn lemma_with_revision(upstream: Seq<char>, revision: Seq<char>)
    requires
        is_upstream_text(upstream),
        is_upstream_text(revision),
    ensures
        epoch_part(upstream.push('-') + revision) == "0"@,
        upstream_part(body_part(upstream.push('-') + revision)) == upstream,
        revision_part(body_part(upstream.push('-') + revision)) == revision,
{
    let version = upstream.push('-') + revision;
    assert forall|index: int| 0 <= index < version.len() implies !CharClass::Exactly(':').has(
        #[trigger] version[index],
    ) by {
        if index < upstream.len() {
            assert(upstream[index] != ':');
        } else if index > upstream.len() {
            assert(revision[index - upstream.len() - 1] != ':');
        }
    }
    lemma_position_is(version, CharClass::Exactly(':'), version.len() as int);
    lemma_last_hyphen(upstream, revision);
    assert(version.take(upstream.len() as int) =~= upstream);
    assert(version.skip(upstream.len() as int + 1) =~= revision);
}

proof fn lemma_last_hyphen(upstream: Seq<char>, revision: Seq<char>)
    requires
        is_upstream_text(revision),
    ensures
        last_position(upstream.push('-') + revision, '-') == upstream.len(),
    decreases revision.len(),
{
    let version = upstream.push('-') + revision;
    if revision.len() == 0 {
        assert(version.last() == '-');
    } else {
        assert(version.last() == revision[revision.len() - 1]);
        assert(version.drop_last() =~= upstream.push('-') + revision.drop_last());
        lemma_last_hyphen(upstream, revision.drop_last());
    }
}

/// Revisions decide between versions that are otherwise the same, and a version
/// without a revision has the revision zero.
pub proof fn revisions_decide_last(upstream: Seq<char>, left: Seq<char>, right: Seq<char>)
    requires
        is_upstream_text(upstream),
        is_upstream_text(left),
        is_upstream_text(right),
    ensures
        version_order(upstream.push('-') + left, upstream.push('-') + right) == part_order(
            left,
            right,
        ),
        version_order(upstream.push('-') + left, upstream) == part_order(left, "0"@),
{
    lemma_with_revision(upstream, left);
    lemma_with_revision(upstream, right);
    lemma_upstream_text(upstream);
    lemma_key_reflexive(part_key(upstream));
    lemma_irreflexive(trim_start("0"@, CharClass::Exactly('0')));
}

} // verus!
