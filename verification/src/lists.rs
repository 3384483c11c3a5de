//! Lists and sets of texts.

use vstd::prelude::*;

use crate::collection::TextSet;
use crate::order::before;
use crate::text::equal;

verus! {

// ---------------------------------------------------------------------------
// Lists without duplicates
// ---------------------------------------------------------------------------
/// A list with a text at its end, unless the list holds the text already.
pub open spec fn with_unique(list: Seq<Seq<char>>, text: Seq<char>) -> Seq<Seq<char>> {
    if list.contains(text) {
        list
    } else {
        list.push(text)
    }
}

/// A list with the texts of another list that it does not hold yet.
pub open spec fn with_all_unique(list: Seq<Seq<char>>, more: Seq<Seq<char>>) -> Seq<Seq<char>>
    decreases more.len(),
{
    if more.len() == 0 {
        list
    } else {
        with_unique(with_all_unique(list, more.drop_last()), more.last())
    }
}

/// A list without repetition stays so when other texts are added, and holds
/// the old and the new texts.
pub proof fn unique_additions_stay_unique(list: Seq<Seq<char>>, more: Seq<Seq<char>>)
    requires
        list.no_duplicates(),
    ensures
        with_all_unique(list, more).no_duplicates(),
        with_all_unique(list, more).to_set() == list.to_set().union(more.to_set()),
    decreases more.len(),
{
    if more.len() == 0 {
        assert(more.to_set() =~= Set::empty());
        assert(list.to_set().union(more.to_set()) =~= list.to_set());
    } else {
        let rest = more.drop_last();
        unique_additions_stay_unique(list, rest);
        let before = with_all_unique(list, rest);
        let after = with_all_unique(list, more);
        assert(more =~= rest.push(more.last()));
        assert(more.to_set() =~= rest.to_set().insert(more.last())) by {
            rest.lemma_push_to_set_commute(more.last());
        }
        if before.contains(more.last()) {
            assert(before.to_set().insert(more.last()) =~= before.to_set());
        } else {
            before.lemma_push_to_set_commute(more.last());
        }
        assert(after.to_set() =~= before.to_set().insert(more.last()));
        assert(after.to_set() =~= list.to_set().union(more.to_set()));
    }
}

/// The place of the first occurrence of a text, or the length of the list.
pub open spec fn first_place(list: Seq<Seq<char>>, text: Seq<char>) -> int
    decreases list.len(),
{
    if list.len() == 0 || list[0] == text {
        0
    } else {
        1 + first_place(list.drop_first(), text)
    }
}

proof fn lemma_first_place(list: Seq<Seq<char>>, text: Seq<char>)
    ensures
        0 <= first_place(list, text) <= list.len(),
        first_place(list, text) < list.len() <==> list.contains(text),
    decreases list.len(),
{
    if list.len() > 0 {
        let rest = list.drop_first();
        lemma_first_place(rest, text);
        if list[0] == text {
            assert(list.contains(text));
        } else if rest.contains(text) {
            let at = choose|at: int| 0 <= at < rest.len() && rest[at] == text;
            assert(list[at + 1] == text);
        } else if list.contains(text) {
            let at = choose|at: int| 0 <= at < list.len() && list[at] == text;
            assert(rest[at - 1] == text);
        }
    }
}

proof fn lemma_first_place_grows(list: Seq<Seq<char>>, last: Seq<char>, text: Seq<char>)
    ensures
        list.contains(text) ==> first_place(list.push(last), text) == first_place(list, text),
        !list.contains(text) && last == text ==> first_place(list.push(last), text) == list.len(),
    decreases list.len(),
{
    lemma_first_place(list, text);
    if list.len() > 0 && list[0] != text {
        let rest = list.drop_first();
        assert(list.push(last).drop_first() =~= rest.push(last));
        lemma_first_place_grows(rest, last, text);
        lemma_first_place(rest, text);
    } else if list.len() == 0 {
        assert(list.push(last)[0] == last);
    }
}

/// Texts that are added without repetition stand in the order of their first
/// occurrence.
pub proof fn unique_additions_keep_their_order(more: Seq<Seq<char>>, one: int, other: int)
    requires
        0 <= one < other < with_all_unique(seq![], more).len(),
    ensures
        ({
            let unique = with_all_unique(seq![], more);
            first_place(more, unique[one]) < first_place(more, unique[other]) < more.len()
        }),
    decreases more.len(),
{
    let rest = more.drop_last();
    let before = with_all_unique(seq![], rest);
    let unique = with_all_unique(seq![], more);
    assert(more =~= rest.push(more.last()));
    unique_additions_stay_unique(seq![], rest);
    assert(Seq::<Seq<char>>::empty().to_set().union(rest.to_set()) =~= rest.to_set());
    assert(before[one] == unique[one]);
    assert(before.to_set().contains(before[one]));
    lemma_first_place(rest, unique[one]);
    lemma_first_place_grows(rest, more.last(), unique[one]);
    if other < before.len() {
        assert(before[other] == unique[other]);
        assert(before.to_set().contains(before[other]));
        lemma_first_place(rest, unique[other]);
        lemma_first_place_grows(rest, more.last(), unique[other]);
        unique_additions_keep_their_order(rest, one, other);
    } else {
        assert(unique[other] == more.last());
        assert(!before.contains(more.last()));
        assert(!rest.contains(more.last())) by {
            if rest.contains(more.last()) {
                assert(rest.to_set().contains(more.last()));
                assert(before.to_set().contains(more.last()));
            }
        }
        lemma_first_place_grows(rest, more.last(), unique[other]);
    }
}

/// The list starts with the texts of another list.
pub open spec fn begins_with_list(list: Seq<Seq<char>>, start: Seq<Seq<char>>) -> bool {
    start.len() <= list.len() && list.take(start.len() as int) == start
}

/// A text that is added without repetition leaves the start of a list.
pub proof fn unique_additions_keep_the_start(
    list: Seq<Seq<char>>,
    start: Seq<Seq<char>>,
    text: Seq<char>,
)
    requires
        begins_with_list(list, start),
    ensures
        begins_with_list(with_unique(list, text), start),
{
    if !list.contains(text) {
        assert(list.push(text).take(start.len() as int) =~= start);
    }
}

/// Test whether a list holds a text.
pub fn holds(list: &Vec<String>, text: &str) -> (result: bool)
    ensures
        result == list.deep_view().contains(text@),
{
    for index in 0..list.len()
        invariant
            forall|at: int| 0 <= at < index ==> (#[trigger] list@[at])@ != text@,
    {
        if equal(list[index].as_str(), text) {
            assert(list.deep_view()[index as int] == text@);
            return true;
        }
    }
    assert(!list.deep_view().contains(text@)) by {
        if list.deep_view().contains(text@) {
            let at = choose|at: int|
                0 <= at < list.deep_view().len() && list.deep_view()[at] == text@;
            assert(list@[at]@ == text@);
        }
    }
    false
}

/// Add a text to the end of a list that does not hold it yet.
pub fn push_unique(list: &mut Vec<String>, text: String)
    ensures
        final(list).deep_view() == with_unique(old(list).deep_view(), text@),
{
    if !holds(list, text.as_str()) {
        let ghost before = list.deep_view();
        list.push(text);
        assert(list.deep_view() =~= before.push(text@));
    }
}

/// Add the texts of another list that the list does not hold yet.
pub fn push_all_unique(list: &mut Vec<String>, more: &Vec<String>)
    ensures
        final(list).deep_view() == with_all_unique(old(list).deep_view(), more.deep_view()),
{
    let ghost start = list.deep_view();
    assert(more.deep_view().take(0) == Seq::<Seq<char>>::empty());
    for index in 0..more.len()
        invariant
            list.deep_view() == with_all_unique(start, more.deep_view().take(index as int)),
    {
        proof {
            let next = more.deep_view().take(index + 1);
            assert(next.drop_last() == more.deep_view().take(index as int));
            assert(next.last() == more@[index as int]@);
        }
        push_unique(list, more[index].clone());
    }
    assert(more.deep_view().take(more@.len() as int) == more.deep_view());
}

/// A copy of a list of texts.
pub fn copied(list: &Vec<String>) -> (result: Vec<String>)
    ensures
        result.deep_view() == list.deep_view(),
{
    let mut result: Vec<String> = Vec::new();
    for index in 0..list.len()
        invariant
            result@.len() == index,
            forall|at: int| 0 <= at < index ==> (#[trigger] result@[at])@ == list@[at]@,
    {
        result.push(list[index].clone());
    }
    assert(result.deep_view() =~= list.deep_view());
    result
}

/// Add copies of the texts of a list to another list.
pub fn push_copies(list: &mut Vec<String>, more: &Vec<String>)
    ensures
        final(list).deep_view() == old(list).deep_view() + more.deep_view(),
{
    let ghost start = list.deep_view();
    let ghost all = more.deep_view();
    assert(list.deep_view() =~= start + all.take(0));
    for index in 0..more.len()
        invariant
            all == more.deep_view(),
            list.deep_view() == start + all.take(index as int),
    {
        let ghost before = list.deep_view();
        let text = more[index].clone();
        list.push(text);
        assert(list.deep_view() =~= before.push(text@));
        assert(all.take(index + 1) =~= all.take(index as int).push(text@));
    }
    assert(all.take(all.len() as int) == all);
}

// ---------------------------------------------------------------------------
// Sets
// ---------------------------------------------------------------------------
/// The set of the texts of a list.
pub open spec fn set_of(list: Seq<Seq<char>>) -> Set<Seq<char>> {
    list.to_set()
}

/// The texts of a sequence of string slices.
pub open spec fn str_views(list: Seq<&str>) -> Seq<Seq<char>> {
    list.map_values(|text: &str| text@)
}

/// The set of a list grows with the list.
pub proof fn lemma_set_grows(list: Seq<Seq<char>>, index: int)
    requires
        0 <= index < list.len(),
    ensures
        list.take(index).to_set().insert(list[index]) == list.take(index + 1).to_set(),
{
    let small = list.take(index);
    let large = list.take(index + 1);
    assert forall|text: Seq<char>| #[trigger]
        small.to_set().insert(list[index]).contains(text) == large.to_set().contains(text) by {
        if small.contains(text) {
            let at = choose|at: int| 0 <= at < small.len() && small[at] == text;
            assert(large[at] == text);
        }
        if large.contains(text) {
            let at = choose|at: int| 0 <= at < large.len() && large[at] == text;
            if at < index {
                assert(small[at] == text);
            }
        }
        assert(large[index] == list[index]);
    }
    assert(small.to_set().insert(list[index]) =~= large.to_set());
}

/// The set of a list of string slices.
pub fn slice_set(list: &[&str]) -> (result: TextSet)
    ensures
        result@ == set_of(str_views(list@)),
{
    let mut set = TextSet::new();
    let ghost names = str_views(list@);
    assert(set@ =~= names.take(0).to_set());
    for index in 0..list.len()
        invariant
            names == str_views(list@),
            set@ == names.take(index as int).to_set(),
    {
        set.insert(String::from_str(list[index]));
        proof {
            lemma_set_grows(names, index as int);
        }
    }
    assert(names.take(names.len() as int) == names);
    set
}

/// The texts stand in strictly increasing order and are those of a set.
pub open spec fn sorted_members(list: Seq<Seq<char>>, set: Set<Seq<char>>) -> bool {
    &&& forall|left: int, right: int|
        0 <= left < right < list.len() ==> before(#[trigger] list[left], #[trigger] list[right])
    &&& forall|text: Seq<char>| #[trigger] list.contains(text) <==> set.contains(text)
}

/// The texts of a list that are in neither of two sets, sorted and without
/// duplicates.
pub fn sorted_rest(list: &Vec<String>, first: &TextSet, second: &TextSet) -> (result: Vec<String>)
    ensures
        sorted_members(
            result.deep_view(),
            set_of(list.deep_view()).difference(first@).difference(second@),
        ),
{
    let mut rest = TextSet::new();
    let ghost all = list.deep_view();
    assert(all.take(0) =~= seq![]);
    assert(rest@ =~= all.take(0).to_set().difference(first@).difference(second@));
    for index in 0..list.len()
        invariant
            all == list.deep_view(),
            rest@ == all.take(index as int).to_set().difference(first@).difference(second@),
    {
        let ghost before = rest@;
        proof {
            lemma_set_grows(all, index as int);
        }
        if !first.contains(list[index].as_str()) && !second.contains(list[index].as_str()) {
            rest.insert(list[index].clone());
        }
        assert(rest@ =~= all.take(index + 1).to_set().difference(first@).difference(second@));
    }
    assert(all.take(all.len() as int) == all);
    rest.list()
}

/// A filter that keeps one item keeps the only one that it accepts.
pub proof fn lemma_only_one<A>(items: Seq<A>, pred: spec_fn(A) -> bool)
    ensures
        items.filter(pred).len() == 1 ==> exists|index: int|
            {
                &&& 0 <= index < items.len()
                &&& #[trigger] items[index] == items.filter(pred)[0]
                &&& pred(items[index])
                &&& forall|other: int|
                    0 <= other < items.len() && other != index ==> !pred(#[trigger] items[other])
            },
        items.filter(pred).len() == 0 ==> forall|other: int|
            0 <= other < items.len() ==> !pred(#[trigger] items[other]),
    decreases items.len(),
{
    reveal(Seq::filter);
    if items.len() > 0 {
        let fewer = items.drop_last();
        let last = items.len() - 1;
        lemma_only_one(fewer, pred);
        assert(items[last] == items.last());
        if items.filter(pred).len() == 1 {
            if pred(items.last()) {
                assert forall|other: int| 0 <= other < items.len() && other != last implies !pred(
                    #[trigger] items[other],
                ) by {
                    assert(fewer[other] == items[other]);
                }
            } else {
                let index = choose|index: int|
                    {
                        &&& 0 <= index < fewer.len()
                        &&& #[trigger] fewer[index] == fewer.filter(pred)[0]
                        &&& pred(fewer[index])
                        &&& forall|other: int|
                            0 <= other < fewer.len() && other != index ==> !pred(
                                #[trigger] fewer[other],
                            )
                    };
                assert(items[index] == fewer[index]);
                assert forall|other: int| 0 <= other < items.len() && other != index implies !pred(
                    #[trigger] items[other],
                ) by {
                    if other < last {
                        assert(fewer[other] == items[other]);
                    }
                }
            }
        }
        if items.filter(pred).len() == 0 {
            assert forall|other: int| 0 <= other < items.len() implies !pred(
                #[trigger] items[other],
            ) by {
                if other < last {
                    assert(fewer[other] == items[other]);
                }
            }
        }
    }
}

} // verus!
