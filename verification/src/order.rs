//! The order of texts by their characters.

use vstd::prelude::*;

verus! {

/// `left` stands before `right` in the order of their characters.
pub open spec fn before(left: Seq<char>, right: Seq<char>) -> bool
    decreases left.len(),
{
    if right.len() == 0 {
        false
    } else if left.len() == 0 {
        true
    } else if left[0] == right[0] {
        before(left.drop_first(), right.drop_first())
    } else {
        left[0] < right[0]
    }
}

/// No text stands before itself.
pub proof fn lemma_irreflexive(text: Seq<char>)
    ensures
        !before(text, text),
    decreases text.len(),
{
    if text.len() > 0 {
        lemma_irreflexive(text.drop_first());
    }
}

/// The order is transitive.
pub proof fn lemma_transitive(first: Seq<char>, second: Seq<char>, third: Seq<char>)
    requires
        before(first, second),
        before(second, third),
    ensures
        before(first, third),
    decreases first.len(),
{
    if first.len() > 0 && first[0] == second[0] && second[0] == third[0] {
        lemma_transitive(first.drop_first(), second.drop_first(), third.drop_first());
    }
}

/// Of two different texts one stands before the other.
pub proof fn lemma_total(left: Seq<char>, right: Seq<char>)
    ensures
        left == right || before(left, right) || before(right, left),
        !(before(left, right) && before(right, left)),
    decreases left.len(),
{
    if left.len() > 0 && right.len() > 0 {
        lemma_total(left.drop_first(), right.drop_first());
        if left[0] == right[0] && left.drop_first() == right.drop_first() {
            assert(left == seq![left[0]] + left.drop_first());
            assert(right == seq![right[0]] + right.drop_first());
        }
    } else if left.len() == 0 && right.len() == 0 {
        assert(left == right);
    }
}

/// A common start does not matter for the order.
pub proof fn lemma_common_start(left: Seq<char>, right: Seq<char>, length: int)
    requires
        0 <= length <= left.len(),
        length <= right.len(),
        left.take(length) == right.take(length),
    ensures
        before(left, right) == before(left.skip(length), right.skip(length)),
    decreases length,
{
    if length == 0 {
        assert(left.skip(0) == left);
        assert(right.skip(0) == right);
    } else {
        assert(left[0] == left.take(length)[0]);
        assert(right[0] == right.take(length)[0]);
        assert(left.drop_first().take(length - 1) == left.take(length).drop_first());
        assert(right.drop_first().take(length - 1) == right.take(length).drop_first());
        lemma_common_start(left.drop_first(), right.drop_first(), length - 1);
        assert(left.drop_first().skip(length - 1) == left.skip(length));
        assert(right.drop_first().skip(length - 1) == right.skip(length));
    }
}

/// Test whether `left` stands before `right`.
pub fn is_before(left: &str, right: &str) -> (result: bool)
    ensures
        result == before(left@, right@),
{
    let left_characters = crate::text::chars(left);
    let right_characters = crate::text::chars(right);
    characters_before(left_characters.as_slice(), right_characters.as_slice())
}

/// Test whether `left` stands before `right`.
pub fn characters_before(left: &[char], right: &[char]) -> (result: bool)
    ensures
        result == before(left@, right@),
{
    let mut index: usize = 0;
    while index < left.len() && index < right.len() && left[index] == right[index]
        invariant
            index <= left@.len(),
            index <= right@.len(),
            left@.take(index as int) == right@.take(index as int),
        decreases left@.len() - index,
    {
        assert(left@.take(index + 1) == left@.take(index as int).push(left@[index as int]));
        assert(right@.take(index + 1) == right@.take(index as int).push(right@[index as int]));
        index += 1;
    }
    proof {
        lemma_common_start(left@, right@, index as int);
    }
    if index == right.len() {
        false
    } else if index == left.len() {
        true
    } else {
        left[index] < right[index]
    }
}

} // verus!
