//! Ordered collections that are keyed by text.

use vstd::prelude::*;

use crate::order::{before, is_before, lemma_irreflexive, lemma_total, lemma_transitive};
use crate::text::equal;

verus! {

/// The keys stand in strictly increasing order.
pub open spec fn keys_increase<V>(entries: Seq<(String, V)>) -> bool {
    forall|left: int, right: int|
        0 <= left < right < entries.len() ==> before(
            #[trigger] entries[left].0@,
            #[trigger] entries[right].0@,
        )
}

/// Some entry has the key.
pub open spec fn has_key<V>(entries: Seq<(String, V)>, key: Seq<char>) -> bool {
    exists|index: int| 0 <= index < entries.len() && #[trigger] entries[index].0@ == key
}

/// The value beside a key.
pub open spec fn entry_value<V>(entries: Seq<(String, V)>, key: Seq<char>) -> V {
    let index = choose|index: int|
        0 <= index < entries.len() && #[trigger] entries[index].0@ == key;
    entries[index].1
}

/// The map that a sequence of entries stands for.
pub open spec fn entry_map<V: DeepView>(entries: Seq<(String, V)>) -> Map<Seq<char>, V::V> {
    Map::new(
        |key: Seq<char>| has_key(entries, key),
        |key: Seq<char>| entry_value(entries, key).deep_view(),
    )
}

/// A map from text that keeps its entries in the order of their keys.
#[derive(Debug, PartialEq, Eq)]
pub struct TextMap<V> {
    entries: Vec<(String, V)>,
}

impl<V: DeepView> View for TextMap<V> {
    type V = Map<Seq<char>, V::V>;

    closed spec fn view(&self) -> Map<Seq<char>, V::V> {
        entry_map(self.entries@)
    }
}

/// An entry of a sorted sequence is the value of its key.
proof fn lemma_entry<V: DeepView>(entries: Seq<(String, V)>, index: int)
    requires
        keys_increase(entries),
        0 <= index < entries.len(),
    ensures
        entry_map(entries).contains_key(entries[index].0@),
        entry_map(entries)[entries[index].0@] == entries[index].1.deep_view(),
        entry_value(entries, entries[index].0@) == entries[index].1,
{
    let key = entries[index].0@;
    let chosen = choose|at: int| 0 <= at < entries.len() && #[trigger] entries[at].0@ == key;
    lemma_irreflexive(key);
    if chosen < index {
        assert(before(entries[chosen].0@, entries[index].0@));
    } else if index < chosen {
        assert(before(entries[index].0@, entries[chosen].0@));
    }
}

impl<V> TextMap<V> {
    #[verifier::type_invariant]
    spec fn well_formed(self) -> bool {
        keys_increase(self.entries@)
    }

    /// Find the position of a key, or the position where it belongs.
    fn locate(&self, key: &str) -> (result: (usize, bool))
        ensures
            result.0 <= self.entries@.len(),
            result.1 ==> result.0 < self.entries@.len() && self.entries@[result.0 as int].0@
                == key@,
            forall|index: int| 0 <= index < result.0 ==> before(
                #[trigger] self.entries@[index].0@,
                key@,
            ),
            !result.1 ==> forall|index: int|
                result.0 <= index < self.entries@.len() ==> before(
                    key@,
                    #[trigger] self.entries@[index].0@,
                ),
    {
        proof {
            use_type_invariant(self);
        }
        let mut low: usize = 0;
        let mut high: usize = self.entries.len();
        while low < high
            invariant
                low <= high <= self.entries@.len(),
                keys_increase(self.entries@),
                forall|index: int| 0 <= index < low ==> before(
                    #[trigger] self.entries@[index].0@,
                    key@,
                ),
                forall|index: int|
                    high <= index < self.entries@.len() ==> before(
                        key@,
                        #[trigger] self.entries@[index].0@,
                    ),
            decreases high - low,
        {
            let middle: usize = low + (high - low) / 2;
            let candidate = self.entries[middle].0.as_str();
            if is_before(candidate, key) {
                proof {
                    assert forall|index: int| 0 <= index < middle + 1 implies before(
                        #[trigger] self.entries@[index].0@,
                        key@,
                    ) by {
                        if index < middle {
                            lemma_transitive(
                                self.entries@[index].0@,
                                self.entries@[middle as int].0@,
                                key@,
                            );
                        }
                    }
                }
                low = middle + 1;
            } else if equal(candidate, key) {
                return (middle, true);
            } else {
                proof {
                    lemma_total(candidate@, key@);
                    assert forall|index: int| middle <= index < self.entries@.len() implies before(
                        key@,
                        #[trigger] self.entries@[index].0@,
                    ) by {
                        if middle < index {
                            lemma_transitive(
                                key@,
                                self.entries@[middle as int].0@,
                                self.entries@[index].0@,
                            );
                        }
                    }
                }
                high = middle;
            }
        }
        (low, false)
    }
}

impl<V: DeepView> TextMap<V> {
    /// Create an empty map.
    pub fn new() -> (result: Self)
        ensures
            result@ == Map::<Seq<char>, V::V>::empty(),
    {
        let result = TextMap { entries: Vec::new() };
        assert(result@ =~= Map::<Seq<char>, V::V>::empty());
        result
    }

    /// Get the value of a key.
    pub fn get(&self, key: &str) -> (result: Option<&V>)
        ensures
            result is Some <==> self@.contains_key(key@),
            result matches Some(value) ==> value.deep_view() == self@[key@],
    {
        proof {
            use_type_invariant(self);
        }
        let (at, found) = self.locate(key);
        if found {
            proof {
                lemma_entry(self.entries@, at as int);
            }
            Some(&self.entries[at].1)
        } else {
            proof {
                lemma_irreflexive(key@);
            }
            None
        }
    }

    /// Test whether a key is present.
    pub fn contains(&self, key: &str) -> (result: bool)
        ensures
            result == self@.contains_key(key@),
    {
        self.get(key).is_some()
    }

    /// Add or replace the value of a key.
    pub fn insert(&mut self, key: String, value: V)
        ensures
            final(self)@ == old(self)@.insert(key@, value.deep_view()),
    {
        proof {
            use_type_invariant(&*self);
        }
        let ghost old_entries = self.entries@;
        let ghost name = key@;
        let (at, found) = self.locate(key.as_str());
        let mut entries: Vec<(String, V)> = Vec::new();
        std::mem::swap(&mut entries, &mut self.entries);
        proof {
            lemma_irreflexive(name);
        }
        if found {
            entries.remove(at);
        }
        entries.insert(at, (key, value));
        proof {
            let new_entries = entries@;
            assert(found ==> new_entries == old_entries.update(at as int, (key, value)));
            assert(!found ==> new_entries == old_entries.insert(at as int, (key, value)));
            assert forall|left: int, right: int|
                0 <= left < right < new_entries.len() implies before(
                #[trigger] new_entries[left].0@,
                #[trigger] new_entries[right].0@,
            ) by {
                if found {
                    let _ = old_entries[left].0@;
                    let _ = old_entries[right].0@;
                } else {
                    let old_left = if left < at { left } else { left - 1 };
                    let old_right = if right < at { right } else { right - 1 };
                    if left == at {
                        assert(new_entries[right] == old_entries[right - 1]);
                        assert(before(name, old_entries[right - 1].0@));
                    } else if right == at {
                        assert(new_entries[left] == old_entries[left]);
                        assert(before(old_entries[left].0@, name));
                    } else {
                        assert(new_entries[left] == old_entries[old_left]);
                        assert(new_entries[right] == old_entries[old_right]);
                        assert(before(old_entries[old_left].0@, old_entries[old_right].0@));
                    }
                }
            }
            let expected = entry_map(old_entries).insert(name, value.deep_view());
            let actual = entry_map(new_entries);
            lemma_entry(new_entries, at as int);
            assert forall|other: Seq<char>| #[trigger]
                actual.contains_key(other) == expected.contains_key(other) && (
            actual.contains_key(other) ==> actual[other] == expected[other]) by {
                if other != name {
                    if has_key(old_entries, other) {
                        let index = choose|index: int|
                            0 <= index < old_entries.len() && #[trigger] old_entries[index].0@
                                == other;
                        let moved = if found || index < at { index } else { index + 1 };
                        assert(new_entries[moved] == old_entries[index]);
                        lemma_entry(new_entries, moved);
                        lemma_entry(old_entries, index);
                    }
                    if has_key(new_entries, other) {
                        let index = choose|index: int|
                            0 <= index < new_entries.len() && #[trigger] new_entries[index].0@
                                == other;
                        let moved = if found || index < at { index } else { index - 1 };
                        assert(new_entries[index] == old_entries[moved]);
                        assert(old_entries[moved].0@ == other);
                    }
                }
            }
            assert(actual =~= expected);
        }
        self.entries = entries;
    }

    /// The number of entries.
    pub fn len(&self) -> (result: usize)
        ensures
            result == self.listing().len(),
    {
        self.entries.len()
    }

    /// Test whether the map has no entry.
    pub fn is_empty(&self) -> (result: bool)
        ensures
            result == (self@ == Map::<Seq<char>, V::V>::empty()),
    {
        let result = self.entries.len() == 0;
        proof {
            if result {
                assert(self@ =~= Map::<Seq<char>, V::V>::empty());
            } else {
                assert(has_key(self.entries@, self.entries@[0].0@));
                assert(self@.contains_key(self.entries@[0].0@));
            }
        }
        result
    }

    /// The value that is stored for a key.  Its view is the value of the key in
    /// the view of the map.
    pub closed spec fn stored(self, key: Seq<char>) -> V {
        entry_value(self.entries@, key)
    }

    /// The keys and values in the order of the keys.
    pub closed spec fn listing(self) -> Seq<(Seq<char>, V::V)> {
        self.entries@.map_values(|entry: (String, V)| (entry.0@, entry.1.deep_view()))
    }

    /// The listing holds every entry once, in the order of the keys.
    pub fn entry(&self, index: usize) -> (result: (&str, &V))
        requires
            index < self.listing().len(),
        ensures
            (result.0@, result.1.deep_view()) == self.listing()[index as int],
    {
        let entry = &self.entries[index];
        (entry.0.as_str(), &entry.1)
    }

    /// Establish what the listing of a map holds.
    pub fn reveal_listing(&self)
        ensures
            lists(self.listing(), self@),
    {
        proof {
            use_type_invariant(self);
            let listing = self.listing();
            assert forall|left: int, right: int| 0 <= left < right < listing.len() implies before(
                #[trigger] listing[left].0,
                #[trigger] listing[right].0,
            ) by {
                assert(before(self.entries@[left].0@, self.entries@[right].0@));
            }
            assert forall|index: int| 0 <= index < listing.len() implies self@.contains_key(
                (#[trigger] listing[index]).0,
            ) && self@[listing[index].0] == listing[index].1 by {
                lemma_entry(self.entries@, index);
            }
            assert forall|key: Seq<char>| #[trigger] self@.contains_key(key) implies exists|
                index: int,
            | 0 <= index < listing.len() && (#[trigger] listing[index]).0 == key by {
                let index = choose|index: int|
                    0 <= index < self.entries@.len() && #[trigger] self.entries@[index].0@ == key;
                assert(listing[index].0 == key);
            }
        }
    }
}

impl<V: DeepView + Clone> Clone for TextMap<V> {
    fn clone(&self) -> (result: Self)
        ensures
            result@.dom() == self@.dom(),
            forall|key: Seq<char>| #[trigger]
                self@.contains_key(key) ==> cloned::<V>(self.stored(key), result.stored(key)),
    {
        proof {
            use_type_invariant(self);
        }
        let ghost old_entries = self.entries@;
        let mut entries: Vec<(String, V)> = Vec::new();
        for index in 0..self.entries.len()
            invariant
                old_entries == self.entries@,
                entries@.len() == index,
                forall|at: int|
                    0 <= at < index ==> (#[trigger] entries@[at]).0@ == old_entries[at].0@
                        && cloned::<V>(old_entries[at].1, entries@[at].1),
        {
            let entry = &self.entries[index];
            let key = String::from_str(entry.0.as_str());
            let value = entry.1.clone();
            entries.push((key, value));
        }
        let ghost new_entries = entries@;
        proof {
            assert forall|left: int, right: int|
                0 <= left < right < new_entries.len() implies before(
                #[trigger] new_entries[left].0@,
                #[trigger] new_entries[right].0@,
            ) by {
                assert(before(old_entries[left].0@, old_entries[right].0@));
            }
            assert forall|key: Seq<char>| #[trigger]
                has_key(old_entries, key) == has_key(new_entries, key) by {
                if has_key(old_entries, key) {
                    let at = choose|at: int|
                        0 <= at < old_entries.len() && #[trigger] old_entries[at].0@ == key;
                    assert(new_entries[at].0@ == key);
                }
                if has_key(new_entries, key) {
                    let at = choose|at: int|
                        0 <= at < new_entries.len() && #[trigger] new_entries[at].0@ == key;
                    assert(old_entries[at].0@ == key);
                }
            }
            assert forall|key: Seq<char>| has_key(old_entries, key) implies cloned::<V>(
                #[trigger] entry_value(old_entries, key),
                entry_value(new_entries, key),
            ) by {
                let at = choose|at: int|
                    0 <= at < old_entries.len() && #[trigger] old_entries[at].0@ == key;
                assert(new_entries[at].0@ == key);
                lemma_entry(old_entries, at);
                lemma_entry(new_entries, at);
            }
        }
        let result = TextMap { entries };
        proof {
            assert forall|key: Seq<char>| #[trigger]
                result@.dom().contains(key) == self@.dom().contains(key) by {
                assert(has_key(old_entries, key) == has_key(new_entries, key));
            }
            assert(result@.dom() =~= self@.dom());
            assert forall|key: Seq<char>| #[trigger] self@.contains_key(key) implies cloned::<V>(
                self.stored(key),
                result.stored(key),
            ) by {
                assert(has_key(old_entries, key));
                assert(cloned::<V>(entry_value(old_entries, key), entry_value(new_entries, key)));
            }
        }
        result
    }
}

/// The value of a key in the view of a map is the view of what is stored.
pub proof fn stored_values_are_viewed<V: DeepView>(map: TextMap<V>, key: Seq<char>)
    requires
        map@.contains_key(key),
    ensures
        map@[key] == map.stored(key).deep_view(),
{
}

/// A listing gives every entry of a map once, in the order of the keys.
pub open spec fn lists<V>(listing: Seq<(Seq<char>, V)>, map: Map<Seq<char>, V>) -> bool {
    &&& forall|left: int, right: int|
        0 <= left < right < listing.len() ==> before(
            #[trigger] listing[left].0,
            #[trigger] listing[right].0,
        )
    &&& forall|index: int|
        0 <= index < listing.len() ==> map.contains_key((#[trigger] listing[index]).0)
            && map[listing[index].0] == listing[index].1
    &&& forall|key: Seq<char>| #[trigger]
        map.contains_key(key) ==> exists|index: int|
            0 <= index < listing.len() && (#[trigger] listing[index]).0 == key
}

/// A set of texts.
#[derive(Debug, PartialEq, Eq)]
pub struct TextSet {
    members: TextMap<()>,
}

impl View for TextSet {
    type V = Set<Seq<char>>;

    closed spec fn view(&self) -> Set<Seq<char>> {
        self.members@.dom()
    }
}

impl Clone for TextSet {
    fn clone(&self) -> (result: Self)
        ensures
            result@ == self@,
    {
        TextSet { members: self.members.clone() }
    }
}

impl TextSet {
    /// Create an empty set.
    pub fn new() -> (result: Self)
        ensures
            result@ == Set::<Seq<char>>::empty(),
    {
        let result = TextSet { members: TextMap::new() };
        assert(result@ =~= Set::<Seq<char>>::empty());
        result
    }

    /// Test whether a text is a member.
    pub fn contains(&self, text: &str) -> (result: bool)
        ensures
            result == self@.contains(text@),
    {
        self.members.contains(text)
    }

    /// Add a text.
    pub fn insert(&mut self, text: String)
        ensures
            final(self)@ == old(self)@.insert(text@),
    {
        self.members.insert(text, ());
        assert(self@ =~= old(self)@.insert(text@));
    }

    /// List the members in increasing order.
    pub fn list(&self) -> (result: Vec<String>)
        ensures
            forall|left: int, right: int|
                0 <= left < right < result@.len() ==> before(
                    (#[trigger] result@[left])@,
                    (#[trigger] result@[right])@,
                ),
            result.deep_view().to_set() == self@,
    {
        self.members.reveal_listing();
        let mut result: Vec<String> = Vec::new();
        let count: usize = self.members.len();
        let ghost listing = self.members.listing();
        for index in 0..count
            invariant
                listing == self.members.listing(),
                count == listing.len(),
                result@.len() == index,
                forall|at: int| 0 <= at < index ==> (#[trigger] result@[at])@ == listing[at].0,
        {
            let (text, _) = self.members.entry(index);
            result.push(String::from_str(text));
        }
        proof {
            let texts = result.deep_view();
            assert forall|left: int, right: int| 0 <= left < right < result@.len() implies before(
                (#[trigger] result@[left])@,
                (#[trigger] result@[right])@,
            ) by {
                assert(before(listing[left].0, listing[right].0));
            }
            assert forall|text: Seq<char>| #[trigger]
                texts.to_set().contains(text) == self@.contains(text) by {
                if texts.contains(text) {
                    let at = choose|at: int| 0 <= at < texts.len() && texts[at] == text;
                    assert(listing[at].0 == text);
                }
                if self@.contains(text) {
                    assert(self.members@.contains_key(text));
                    let at = choose|at: int|
                        0 <= at < listing.len() && (#[trigger] listing[at]).0 == text;
                    assert(texts[at] == text);
                }
            }
            assert(texts.to_set() =~= self@);
        }
        result
    }
}

} // verus!
