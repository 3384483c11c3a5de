//! Byte strings: comparison, search, splitting and their order.

use vstd::prelude::*;
use vstd::slice::slice_subrange;

verus! {

// ---------------------------------------------------------------------------
// Comparison
// ---------------------------------------------------------------------------
/// Test whether two byte strings are equal.
pub fn same(left: &[u8], right: &[u8]) -> (result: bool)
    ensures
        result == (left@ == right@),
{
    if left.len() != right.len() {
        return false;
    }
    for index in 0..left.len()
        invariant
            left@.len() == right@.len(),
            forall|at: int| 0 <= at < index ==> left@[at] == right@[at],
    {
        if left[index] != right[index] {
            return false;
        }
    }
    assert(left@ =~= right@);
    true
}

/// The byte string starts with a prefix.
pub open spec fn begins_with(bytes: Seq<u8>, prefix: Seq<u8>) -> bool {
    prefix.len() <= bytes.len() && bytes.take(prefix.len() as int) == prefix
}

/// The byte string ends with a suffix.
pub open spec fn finishes_with(bytes: Seq<u8>, suffix: Seq<u8>) -> bool {
    suffix.len() <= bytes.len() && bytes.skip(bytes.len() - suffix.len()) == suffix
}

/// Test whether a byte string starts with a prefix.
pub fn has_start(bytes: &[u8], prefix: &[u8]) -> (result: bool)
    ensures
        result == begins_with(bytes@, prefix@),
{
    if prefix.len() > bytes.len() {
        return false;
    }
    let start = slice_subrange(bytes, 0, prefix.len());
    assert(start@ == bytes@.take(prefix@.len() as int));
    same(start, prefix)
}

/// Test whether a byte string ends with a suffix.
pub fn has_end(bytes: &[u8], suffix: &[u8]) -> (result: bool)
    ensures
        result == finishes_with(bytes@, suffix@),
{
    if suffix.len() > bytes.len() {
        return false;
    }
    let end = slice_subrange(bytes, bytes.len() - suffix.len(), bytes.len());
    assert(end@ == bytes@.skip(bytes@.len() - suffix@.len()));
    same(end, suffix)
}

// ---------------------------------------------------------------------------
// Construction
// ---------------------------------------------------------------------------
/// Copy a byte string.
pub fn copy(bytes: &[u8]) -> (result: Vec<u8>)
    ensures
        result@ == bytes@,
{
    vstd::slice::slice_to_vec(bytes)
}

/// Add a byte string to the end of another.
pub fn extend(bytes: &mut Vec<u8>, more: &[u8])
    ensures
        final(bytes)@ == old(bytes)@ + more@,
{
    let ghost start = bytes@;
    for index in 0..more.len()
        invariant
            bytes@ == start + more@.take(index as int),
    {
        bytes.push(more[index]);
        assert(bytes@ =~= start + more@.take(index + 1));
    }
    assert(more@.take(more@.len() as int) =~= more@);
}

// ---------------------------------------------------------------------------
// Search and splitting
// ---------------------------------------------------------------------------
/// The first position of a byte, or the length of the byte string.
pub open spec fn byte_position(bytes: Seq<u8>, byte: u8) -> nat
    decreases bytes.len(),
{
    if bytes.len() == 0 || bytes[0] == byte {
        0
    } else {
        1 + byte_position(bytes.drop_first(), byte)
    }
}

/// `byte_position` finds the first occurrence.
pub proof fn lemma_byte_position(bytes: Seq<u8>, byte: u8)
    ensures
        byte_position(bytes, byte) <= bytes.len(),
        byte_position(bytes, byte) < bytes.len() ==> bytes[byte_position(bytes, byte) as int]
            == byte,
        forall|index: int|
            0 <= index < byte_position(bytes, byte) ==> #[trigger] bytes[index] != byte,
    decreases bytes.len(),
{
    if bytes.len() > 0 && bytes[0] != byte {
        lemma_byte_position(bytes.drop_first(), byte);
        assert forall|index: int| 0 <= index < byte_position(bytes, byte) implies #[trigger] bytes[
        index] != byte by {
            if index > 0 {
                assert(bytes.drop_first()[index - 1] == bytes[index]);
            }
        }
    }
}

/// Only the first occurrence is the position of a byte.
pub proof fn lemma_byte_position_is(bytes: Seq<u8>, byte: u8, at: int)
    requires
        0 <= at <= bytes.len(),
        at < bytes.len() ==> bytes[at] == byte,
        forall|index: int| 0 <= index < at ==> #[trigger] bytes[index] != byte,
    ensures
        byte_position(bytes, byte) == at,
{
    lemma_byte_position(bytes, byte);
    let found = byte_position(bytes, byte) as int;
    if found < at {
        assert(bytes[found] != byte);
    } else if at < found {
        assert(bytes[at] != byte);
    }
}

/// Find the first position of a byte.
pub fn find_byte(bytes: &[u8], byte: u8) -> (result: usize)
    ensures
        result == byte_position(bytes@, byte),
        result <= bytes@.len(),
{
    for index in 0..bytes.len()
        invariant
            forall|at: int| 0 <= at < index ==> #[trigger] bytes@[at] != byte,
    {
        if bytes[index] == byte {
            proof {
                lemma_byte_position_is(bytes@, byte, index as int);
            }
            return index;
        }
    }
    proof {
        lemma_byte_position_is(bytes@, byte, bytes@.len() as int);
    }
    bytes.len()
}

/// Test whether a byte occurs.
pub fn contains_byte(bytes: &[u8], byte: u8) -> (result: bool)
    ensures
        result == bytes@.contains(byte),
{
    let at = find_byte(bytes, byte);
    proof {
        lemma_byte_position(bytes@, byte);
    }
    at < bytes.len()
}

/// The byte strings of a sequence of slices.
pub open spec fn byte_texts(slices: Seq<&[u8]>) -> Seq<Seq<u8>> {
    slices.map_values(|slice: &[u8]| slice@)
}

/// The parts of a byte string between the occurrences of a byte.
pub open spec fn split_bytes(bytes: Seq<u8>, byte: u8) -> Seq<Seq<u8>>
    decreases bytes.len(),
{
    let at = byte_position(bytes, byte);
    if at < bytes.len() {
        seq![bytes.take(at as int)] + split_bytes(bytes.skip(at as int + 1), byte)
    } else {
        seq![bytes]
    }
}

/// Split a byte string at the occurrences of a byte.
pub fn split_at_byte<'a>(bytes: &'a [u8], byte: u8) -> (result: Vec<&'a [u8]>)
    ensures
        byte_texts(result@) == split_bytes(bytes@, byte),
{
    let mut parts: Vec<&'a [u8]> = Vec::new();
    let mut rest: &'a [u8] = bytes;
    assert(byte_texts(parts@) =~= seq![]);
    loop
        invariant
            byte_texts(parts@) + split_bytes(rest@, byte) == split_bytes(bytes@, byte),
        decreases rest@.len(),
    {
        let at = find_byte(rest, byte);
        let ghost before = byte_texts(parts@);
        if at == rest.len() {
            parts.push(rest);
            assert(byte_texts(parts@) =~= before + seq![rest@]);
            return parts;
        }
        let part = slice_subrange(rest, 0, at);
        assert(part@ == rest@.take(at as int));
        parts.push(part);
        assert(byte_texts(parts@) =~= before + seq![part@]);
        let next = slice_subrange(rest, at + 1, rest.len());
        assert(next@ == rest@.skip(at + 1));
        assert(byte_texts(parts@) + split_bytes(next@, byte) =~= before + split_bytes(
            rest@,
            byte,
        ));
        rest = next;
    }
}

// ---------------------------------------------------------------------------
// Order
// ---------------------------------------------------------------------------
/// The lexicographic order of byte strings.
pub open spec fn bytes_before(left: Seq<u8>, right: Seq<u8>) -> bool
    decreases left.len(),
{
    if right.len() == 0 {
        false
    } else if left.len() == 0 {
        true
    } else if left[0] != right[0] {
        left[0] < right[0]
    } else {
        bytes_before(left.drop_first(), right.drop_first())
    }
}

/// The order is total and has no cycles of two.
pub proof fn lemma_bytes_total(left: Seq<u8>, right: Seq<u8>)
    ensures
        left == right || bytes_before(left, right) || bytes_before(right, left),
        !(bytes_before(left, right) && bytes_before(right, left)),
        left == right ==> !bytes_before(left, right),
    decreases left.len(),
{
    if left.len() > 0 && right.len() > 0 && left[0] == right[0] {
        lemma_bytes_total(left.drop_first(), right.drop_first());
        if left.drop_first() == right.drop_first() {
            assert(left =~= seq![left[0]] + left.drop_first());
            assert(right =~= seq![right[0]] + right.drop_first());
        }
    } else if left.len() == 0 && right.len() == 0 {
        assert(left =~= right);
    }
}

/// The order is transitive.
pub proof fn lemma_bytes_transitive(first: Seq<u8>, second: Seq<u8>, third: Seq<u8>)
    requires
        bytes_before(first, second),
        bytes_before(second, third),
    ensures
        bytes_before(first, third),
    decreases first.len(),
{
    if first.len() > 0 && first[0] == second[0] && second[0] == third[0] {
        lemma_bytes_transitive(first.drop_first(), second.drop_first(), third.drop_first());
    }
}

/// Test whether a byte string comes before another.
pub fn comes_before(left: &[u8], right: &[u8]) -> (result: bool)
    ensures
        result == bytes_before(left@, right@),
{
    let mut at: usize = 0;
    assert(left@.skip(0) == left@);
    assert(right@.skip(0) == right@);
    loop
        invariant
            at <= left@.len(),
            at <= right@.len(),
            bytes_before(left@, right@) == bytes_before(
                left@.skip(at as int),
                right@.skip(at as int),
            ),
        decreases left@.len() - at,
    {
        if at == right.len() {
            return false;
        }
        if at == left.len() {
            return true;
        }
        if left[at] != right[at] {
            return left[at] < right[at];
        }
        assert(left@.skip(at as int).drop_first() == left@.skip(at + 1));
        assert(right@.skip(at as int).drop_first() == right@.skip(at + 1));
        at += 1;
    }
}

/// No later byte string comes before an earlier one.
pub open spec fn in_byte_order(list: Seq<Seq<u8>>) -> bool {
    forall|first: int, second: int|
        0 <= first < second < list.len() ==> !bytes_before(
            #[trigger] list[second],
            #[trigger] list[first],
        )
}

proof fn lemma_not_before_chain(first: Seq<u8>, second: Seq<u8>, third: Seq<u8>)
    requires
        !bytes_before(second, first),
        !bytes_before(third, second),
    ensures
        !bytes_before(third, first),
{
    lemma_bytes_total(first, second);
    lemma_bytes_total(second, third);
    lemma_bytes_total(first, third);
    if bytes_before(third, first) {
        if first == second {
        } else if second == third {
        } else {
            lemma_bytes_transitive(first, second, third);
        }
    }
}

/// The values of a list of byte strings.
pub open spec fn byte_lists(list: Seq<Vec<u8>>) -> Seq<Seq<u8>> {
    list.map_values(|bytes: Vec<u8>| bytes@)
}

/// The value of an optional byte string.
pub open spec fn optional_bytes(bytes: Option<Vec<u8>>) -> Option<Seq<u8>> {
    match bytes {
        Some(some) => Some(some@),
        None => None,
    }
}

/// The value of an optional slice.
pub open spec fn optional_slice(bytes: Option<&[u8]>) -> Option<Seq<u8>> {
    match bytes {
        Some(some) => Some(some@),
        None => None,
    }
}

/// Merge two sorted lists.
fn merge_sorted(left: Vec<Vec<u8>>, right: Vec<Vec<u8>>) -> (result: Vec<Vec<u8>>)
    requires
        in_byte_order(byte_lists(left@)),
        in_byte_order(byte_lists(right@)),
    ensures
        in_byte_order(byte_lists(result@)),
        byte_lists(result@).to_multiset() == byte_lists(left@).to_multiset().add(
            byte_lists(right@).to_multiset(),
        ),
        result@.len() == left@.len() + right@.len(),
{
    broadcast use vstd::seq_lib::group_to_multiset_ensures;

    let ghost one = byte_lists(left@);
    let ghost two = byte_lists(right@);
    let mut left = left;
    let mut right = right;
    // The lists give up their last entries, so the result grows from its end.
    let mut falling: Vec<Vec<u8>> = Vec::new();
    assert(byte_lists(falling@) =~= seq![]);
    assert(one.take(one.len() as int) == one);
    assert(two.take(two.len() as int) == two);
    while left.len() > 0 || right.len() > 0
        invariant
            byte_lists(left@) == one.take(left@.len() as int),
            byte_lists(right@) == two.take(right@.len() as int),
            left@.len() <= one.len(),
            right@.len() <= two.len(),
            in_byte_order(one),
            in_byte_order(two),
            falling@.len() + left@.len() + right@.len() == one.len() + two.len(),
            forall|first: int, second: int|
                0 <= first < second < falling@.len() ==> !bytes_before(
                    (#[trigger] falling@[first])@,
                    (#[trigger] falling@[second])@,
                ),
            forall|at: int, place: int|
                0 <= at < left@.len() && 0 <= place < falling@.len() ==> !bytes_before(
                    (#[trigger] falling@[place])@,
                    #[trigger] one[at],
                ),
            forall|at: int, place: int|
                0 <= at < right@.len() && 0 <= place < falling@.len() ==> !bytes_before(
                    (#[trigger] falling@[place])@,
                    #[trigger] two[at],
                ),
            byte_lists(falling@).to_multiset().add(byte_lists(left@).to_multiset()).add(
                byte_lists(right@).to_multiset(),
            ) == one.to_multiset().add(two.to_multiset()),
        decreases left@.len() + right@.len(),
    {
        broadcast use vstd::seq_lib::group_to_multiset_ensures;

        let take_left = if left.len() == 0 {
            false
        } else if right.len() == 0 {
            true
        } else {
            comes_before(right[right.len() - 1].as_slice(), left[left.len() - 1].as_slice())
        };
        let ghost left_before = byte_lists(left@);
        let ghost right_before = byte_lists(right@);
        let ghost falling_before = falling@;
        if take_left {
            let last = left.pop().unwrap();
            proof {
                let end = left@.len() as int;
                assert(left_before[end] == last@);
                assert(last@ == one[end]);
                assert(byte_lists(left@) =~= left_before.drop_last());
                assert(byte_lists(left@) =~= one.take(end));
                assert(left_before =~= left_before.drop_last().push(last@));
                assert forall|at: int| 0 <= at < right@.len() implies !bytes_before(
                    last@,
                    #[trigger] two[at],
                ) by {
                    let tail = two[right@.len() - 1];
                    assert(right@[right@.len() - 1]@ == byte_lists(right@)[right@.len() - 1]);
                    lemma_bytes_total(tail, last@);
                    if at < right@.len() - 1 {
                        lemma_not_before_chain(two[at], tail, last@);
                    }
                }
            }
            falling.push(last);
        } else {
            let last = right.pop().unwrap();
            proof {
                let end = right@.len() as int;
                assert(right_before[end] == last@);
                assert(last@ == two[end]);
                assert(byte_lists(right@) =~= right_before.drop_last());
                assert(byte_lists(right@) =~= two.take(end));
                assert(right_before =~= right_before.drop_last().push(last@));
                assert forall|at: int| 0 <= at < left@.len() implies !bytes_before(
                    last@,
                    #[trigger] one[at],
                ) by {
                    let tail = one[left@.len() - 1];
                    assert(left@[left@.len() - 1]@ == byte_lists(left@)[left@.len() - 1]);
                    if at < left@.len() - 1 {
                        lemma_not_before_chain(one[at], tail, last@);
                    }
                }
            }
            falling.push(last);
        }
        proof {
            assert(byte_lists(falling@) =~= byte_lists(falling_before).push(falling@.last()@));
            assert(byte_lists(falling@).to_multiset().add(byte_lists(left@).to_multiset()).add(
                byte_lists(right@).to_multiset(),
            ) =~= one.to_multiset().add(two.to_multiset()));
        }
    }
    assert(byte_lists(left@) =~= seq![]);
    assert(byte_lists(right@) =~= seq![]);
    assert(byte_lists(falling@).to_multiset() =~= one.to_multiset().add(two.to_multiset()));
    turned_around(falling)
}

/// Reverse a list whose entries fall.
fn turned_around(list: Vec<Vec<u8>>) -> (result: Vec<Vec<u8>>)
    requires
        forall|first: int, second: int|
            0 <= first < second < list@.len() ==> !bytes_before(
                (#[trigger] list@[first])@,
                (#[trigger] list@[second])@,
            ),
    ensures
        in_byte_order(byte_lists(result@)),
        byte_lists(result@).to_multiset() == byte_lists(list@).to_multiset(),
        result@.len() == list@.len(),
{
    let ghost all = list@;
    let mut list = list;
    let mut result: Vec<Vec<u8>> = Vec::new();
    assert(all.take(all.len() as int) == all);
    assert(byte_lists(result@) =~= seq![]);
    proof {
        broadcast use vstd::seq_lib::group_to_multiset_ensures;

        assert(byte_lists(result@).to_multiset().add(byte_lists(list@).to_multiset())
            =~= byte_lists(all).to_multiset());
    }
    while list.len() > 0
        invariant
            list@ == all.take(list@.len() as int),
            list@.len() + result@.len() == all.len(),
            forall|at: int|
                0 <= at < result@.len() ==> (#[trigger] result@[at]) == all[all.len() - 1 - at],
            byte_lists(result@).to_multiset().add(byte_lists(list@).to_multiset()) == byte_lists(
                all,
            ).to_multiset(),
        decreases list@.len(),
    {
        broadcast use vstd::seq_lib::group_to_multiset_ensures;

        let ghost before = byte_lists(list@);
        let ghost result_before = byte_lists(result@);
        let last = list.pop().unwrap();
        let ghost value = last@;
        result.push(last);
        proof {
            assert(byte_lists(list@) =~= before.drop_last());
            assert(before =~= before.drop_last().push(value));
            assert(byte_lists(result@) =~= result_before.push(value));
            assert(byte_lists(result@).to_multiset().add(byte_lists(list@).to_multiset())
                =~= byte_lists(all).to_multiset());
        }
    }
    proof {
        broadcast use vstd::seq_lib::group_to_multiset_ensures;

        assert(byte_lists(list@) =~= seq![]);
        assert(byte_lists(result@).to_multiset() =~= byte_lists(all).to_multiset());
        let sorted = byte_lists(result@);
        assert forall|first: int, second: int|
            0 <= first < second < sorted.len() implies !bytes_before(
            #[trigger] sorted[second],
            #[trigger] sorted[first],
        ) by {
            assert(result@[first] == all[all.len() - 1 - first]);
            assert(result@[second] == all[all.len() - 1 - second]);
        }
    }
    result
}

/// A byte string does not come after another.
pub open spec fn not_after(left: Seq<u8>, right: Seq<u8>) -> bool {
    !bytes_before(right, left)
}

/// The byte strings of a list in their order.
pub open spec fn byte_sorted(list: Seq<Seq<u8>>) -> Seq<Seq<u8>> {
    list.sort_by(|left: Seq<u8>, right: Seq<u8>| not_after(left, right))
}

/// `byte_sorted` gives the same byte strings in their order.
pub proof fn lemma_byte_sorted(list: Seq<Seq<u8>>)
    ensures
        in_byte_order(byte_sorted(list)),
        byte_sorted(list).to_multiset() == list.to_multiset(),
        byte_sorted(list).len() == list.len(),
{
    broadcast use vstd::seq_lib::group_to_multiset_ensures;

    let order = |left: Seq<u8>, right: Seq<u8>| not_after(left, right);
    assert(vstd::relations::total_ordering(order)) by {
        assert forall|one: Seq<u8>| #[trigger] order(one, one) by {
            lemma_bytes_total(one, one);
        }
        assert forall|one: Seq<u8>, two: Seq<u8>| #[trigger]
            order(one, two) && #[trigger] order(two, one) implies one == two by {
            lemma_bytes_total(one, two);
        }
        assert forall|one: Seq<u8>, two: Seq<u8>, three: Seq<u8>| #[trigger]
            order(one, two) && #[trigger] order(two, three) implies order(one, three) by {
            lemma_not_before_chain(one, two, three);
        }
        assert forall|one: Seq<u8>, two: Seq<u8>| #[trigger]
            order(one, two) || #[trigger] order(two, one) by {
            lemma_bytes_total(one, two);
        }
    }
    list.lemma_sort_by_ensures(order);
    let sorted = byte_sorted(list);
    assert(sorted.to_multiset().len() == sorted.len());
    assert(list.to_multiset().len() == list.len());
    assert forall|first: int, second: int| 0 <= first < second < sorted.len() implies !bytes_before(
        #[trigger] sorted[second],
        #[trigger] sorted[first],
    ) by {
        assert(order(sorted[first], sorted[second]));
    }
}

/// Only one order of given byte strings is sorted.
pub proof fn lemma_order_is_unique(one: Seq<Seq<u8>>, two: Seq<Seq<u8>>)
    requires
        in_byte_order(one),
        in_byte_order(two),
        one.to_multiset() == two.to_multiset(),
    ensures
        one == two,
    decreases one.len(),
{
    broadcast use vstd::seq_lib::group_to_multiset_ensures;

    assert(one.to_multiset().len() == one.len());
    assert(two.to_multiset().len() == two.len());
    if one.len() == 0 {
        assert(one =~= two);
    } else {
        let last = one.last();
        let other = two.last();
        assert(one.to_multiset().count(last) > 0) by {
            assert(one.contains(one[one.len() - 1]));
        }
        assert(two.to_multiset().count(other) > 0) by {
            assert(two.contains(two[two.len() - 1]));
        }
        let place = choose|at: int| 0 <= at < two.len() && two[at] == last;
        assert(two.contains(last));
        let other_place = choose|at: int| 0 <= at < one.len() && one[at] == other;
        assert(one.contains(other));
        lemma_bytes_total(last, other);
        if place < two.len() - 1 {
            assert(!bytes_before(two[two.len() - 1], two[place]));
        }
        if other_place < one.len() - 1 {
            assert(!bytes_before(one[one.len() - 1], one[other_place]));
        }
        assert(last == other);
        assert(one =~= one.drop_last().push(last));
        assert(two =~= two.drop_last().push(last));
        assert(one.drop_last().to_multiset() =~= one.to_multiset().remove(last));
        assert(two.drop_last().to_multiset() =~= two.to_multiset().remove(last));
        assert(in_byte_order(one.drop_last())) by {
            assert forall|first: int, second: int|
                0 <= first < second < one.len() - 1 implies !bytes_before(
                #[trigger] one.drop_last()[second],
                #[trigger] one.drop_last()[first],
            ) by {
                assert(!bytes_before(one[second], one[first]));
            }
        }
        assert(in_byte_order(two.drop_last())) by {
            assert forall|first: int, second: int|
                0 <= first < second < two.len() - 1 implies !bytes_before(
                #[trigger] two.drop_last()[second],
                #[trigger] two.drop_last()[first],
            ) by {
                assert(!bytes_before(two[second], two[first]));
            }
        }
        lemma_order_is_unique(one.drop_last(), two.drop_last());
    }
}

/// Sort a list of byte strings.
pub fn sort(list: Vec<Vec<u8>>) -> (result: Vec<Vec<u8>>)
    ensures
        byte_lists(result@) == byte_sorted(byte_lists(list@)),
{
    let ghost all = byte_lists(list@);
    let sorted = sort_halves(list);
    proof {
        lemma_byte_sorted(all);
        lemma_order_is_unique(byte_lists(sorted@), byte_sorted(all));
    }
    sorted
}

fn sort_halves(list: Vec<Vec<u8>>) -> (result: Vec<Vec<u8>>)
    ensures
        in_byte_order(byte_lists(result@)),
        byte_lists(result@).to_multiset() == byte_lists(list@).to_multiset(),
        result@.len() == list@.len(),
    decreases list@.len(),
{
    if list.len() <= 1 {
        return list;
    }
    let ghost all = list@;
    let half: usize = list.len() / 2;
    let mut list = list;
    let tail = list.split_off(half);
    proof {
        broadcast use vstd::seq_lib::group_to_multiset_ensures;

        assert(byte_lists(all) =~= byte_lists(list@) + byte_lists(tail@));
        vstd::seq_lib::lemma_multiset_commutative(byte_lists(list@), byte_lists(tail@));
    }
    let first = sort_halves(list);
    let second = sort_halves(tail);
    merge_sorted(first, second)
}

} // verus!
