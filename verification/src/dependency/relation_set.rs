//! Lists of Debian package relations.

use vstd::prelude::*;
use vstd::slice::slice_subrange;

use crate::collection::TextSet;
use crate::dependency::relation::{
    followed_by, has_sign, relation_of, Relation, RelationGroup, RelationModel, RelationSet,
    Restriction, RestrictionModel,
};
use crate::error::{failure, outcome, AppError, Outcome, Result};
use crate::pieces::{find, join, position, texts, trim, trimmed};
use crate::text::{
    chars, ends_with, equal, has_prefix, has_suffix, is, starts_with, string, CharClass,
};

verus! {

// ---------------------------------------------------------------------------
// Splitting outside brackets
// ---------------------------------------------------------------------------
/// The reasons why the brackets of a relation list do not match.
pub enum BracketFault {
    Unmatched(char),
    Unclosed(char),
}

impl BracketFault {
    /// The message of the fault for a relation list.
    pub open spec fn message(self, source: Seq<char>) -> Seq<char> {
        match self {
            BracketFault::Unmatched(bracket) => "unmatched '"@ + seq![bracket]
                + "' in relation list '"@ + source + "'"@,
            BracketFault::Unclosed(bracket) => "unclosed '"@ + seq![bracket]
                + "' in relation list '"@ + source + "'"@,
        }
    }
}

/// The open bracket after a character, or `None` for a bracket that matches
/// nothing. Sections do not nest, and a `>` between parentheses is an operator.
pub open spec fn bracket_after(open: Option<char>, character: char) -> Option<Option<char>> {
    if character == ')' {
        if open == Some('(') {
            Some(None)
        } else {
            None
        }
    } else if character == ']' {
        if open == Some('[') {
            Some(None)
        } else {
            None
        }
    } else if character == '>' {
        if open == Some('<') {
            Some(None)
        } else if open == Some('(') {
            Some(open)
        } else {
            None
        }
    } else if open is None && (character == '(' || character == '[' || character == '<') {
        Some(Some(character))
    } else {
        Some(open)
    }
}

/// The parts of a text between the separators that stand outside brackets.
/// `open` is the bracket that is open where the text starts.
pub open spec fn top_level_parts(
    text: Seq<char>,
    separator: char,
    open: Option<char>,
) -> std::result::Result<Seq<Seq<char>>, BracketFault>
    decreases text.len(),
{
    if text.len() == 0 {
        match open {
            Some(bracket) => Err(BracketFault::Unclosed(bracket)),
            None => Ok(seq![seq![]]),
        }
    } else {
        match bracket_after(open, text[0]) {
            None => Err(BracketFault::Unmatched(text[0])),
            Some(next) => match top_level_parts(text.drop_first(), separator, next) {
                Err(fault) => Err(fault),
                Ok(parts) => if text[0] == separator && open is None {
                    Ok(seq![Seq::<char>::empty()] + parts)
                } else {
                    Ok(parts.update(0, seq![text[0]] + parts[0]))
                },
            },
        }
    }
}

/// The separators of relation lists.
pub open spec fn is_separator(character: char) -> bool {
    character == ',' || character == '|'
}

/// There is always at least one part.
pub proof fn lemma_parts_exist(text: Seq<char>, separator: char, open: Option<char>)
    ensures
        top_level_parts(text, separator, open) matches Ok(parts) ==> parts.len() > 0,
    decreases text.len(),
{
    if text.len() > 0 {
        if let Some(next) = bracket_after(open, text[0]) {
            lemma_parts_exist(text.drop_first(), separator, next);
        }
    }
}

/// Finished parts, a part in progress, and what the rest of the text gives.
spec fn attached(
    done: Seq<Seq<char>>,
    current: Seq<char>,
    rest: std::result::Result<Seq<Seq<char>>, BracketFault>,
) -> std::result::Result<Seq<Seq<char>>, BracketFault> {
    match rest {
        Err(fault) => Err(fault),
        Ok(parts) => Ok(done + seq![current + parts[0]] + parts.drop_first()),
    }
}

fn next_bracket(open: Option<char>, character: char) -> (result: Option<Option<char>>)
    ensures
        result == bracket_after(open, character),
{
    match character {
        ')' => match open {
            Some('(') => Some(None),
            _ => None,
        },
        ']' => match open {
            Some('[') => Some(None),
            _ => None,
        },
        '>' => match open {
            Some('<') => Some(None),
            Some('(') => Some(open),
            _ => None,
        },
        '(' | '[' | '<' => if open.is_none() {
            Some(Some(character))
        } else {
            Some(open)
        },
        _ => Some(open),
    }
}

fn bracket_fault(start: &str, bracket: char, source: &[char]) -> (result: AppError)
    ensures
        result@ == start@ + seq![bracket] + "' in relation list '"@ + source@ + "'"@,
{
    let mut text = String::from_str(start);
    text.push(bracket);
    assert(text@ == start@ + seq![bracket]);
    AppError::new(
        text.concat("' in relation list '").concat(string(source).as_str()).concat("'"),
    )
}

/// Split a relation list at the separators that stand outside brackets.
fn split_top_level<'a>(source: &'a [char], separator: char) -> (result: Result<
    Vec<&'a [char]>,
>)
    requires
        is_separator(separator),
    ensures
        match result {
            Ok(parts) => top_level_parts(source@, separator, None) == Ok::<
                Seq<Seq<char>>,
                BracketFault,
            >(texts(parts@)),
            Err(error) => top_level_parts(source@, separator, None) matches Err(fault) && error@
                == fault.message(source@),
        },
{
    let mut parts: Vec<&'a [char]> = Vec::new();
    let mut start: usize = 0;
    let mut open: Option<char> = None;
    let ghost whole = top_level_parts(source@, separator, None);
    proof {
        lemma_parts_exist(source@, separator, None);
        assert(source@.skip(0) == source@);
        assert(whole matches Ok(all) ==> texts(parts@) + seq![source@.subrange(0, 0) + all[0]]
            + all.drop_first() == all);
    }
    for index in 0..source.len()
        invariant
            start <= index,
            is_separator(separator),
            whole == top_level_parts(source@, separator, None),
            whole == attached(
                texts(parts@),
                source@.subrange(start as int, index as int),
                top_level_parts(source@.skip(index as int), separator, open),
            ),
    {
        let character = source[index];
        let ghost rest = source@.skip(index as int);
        let ghost done = texts(parts@);
        let ghost current = source@.subrange(start as int, index as int);
        assert(rest.drop_first() == source@.skip(index + 1));
        let next = match next_bracket(open, character) {
            Some(next) => next,
            None => {
                return Err(bracket_fault("unmatched '", character, source));
            },
        };
        proof {
            lemma_parts_exist(rest.drop_first(), separator, next);
        }
        if character == separator && open.is_none() {
            let part = slice_subrange(source, start, index);
            parts.push(part);
            start = index + 1;
            proof {
                assert(texts(parts@) == done.push(part@));
                if let Ok(after) = top_level_parts(rest.drop_first(), separator, next) {
                    let all = seq![Seq::<char>::empty()] + after;
                    assert(all.drop_first() == after);
                    assert(current + all[0] == current);
                    assert(source@.subrange(start as int, index + 1) + after[0] == after[0]);
                    assert(done + seq![current + all[0]] + all.drop_first() == done.push(part@)
                        + seq![source@.subrange(start as int, index + 1) + after[0]]
                        + after.drop_first());
                }
            }
        } else {
            proof {
                if let Ok(after) = top_level_parts(rest.drop_first(), separator, next) {
                    let all = after.update(0, seq![character] + after[0]);
                    assert(source@.subrange(start as int, index + 1) == current.push(character));
                    assert(current + (seq![character] + after[0]) == current.push(character)
                        + after[0]);
                    assert(all.drop_first() == after.drop_first());
                }
            }
        }
        open = next;
    }
    let part = slice_subrange(source, start, source.len());
    let ghost done = texts(parts@);
    proof {
        assert(source@.skip(source@.len() as int) == Seq::<char>::empty());
    }
    if let Some(bracket) = open {
        return Err(bracket_fault("unclosed '", bracket, source));
    }
    parts.push(part);
    proof {
        let last = seq![Seq::<char>::empty()];
        assert(texts(parts@) == done.push(part@));
        assert(part@ + last[0] == part@);
        assert(done + seq![part@ + last[0]] + last.drop_first() == done.push(part@));
    }
    Ok(parts)
}

// ---------------------------------------------------------------------------
// Groups and lists
// ---------------------------------------------------------------------------
/// The relation that one alternative stands for.
pub open spec fn alternative_of(source: Seq<char>) -> Outcome<RelationModel> {
    if trim(source).len() == 0 {
        Err("empty alternative after a vertical bar"@)
    } else {
        relation_of(trim(source))
    }
}

/// The relations that a list of alternatives stands for.
pub open spec fn alternatives_of(sources: Seq<Seq<char>>) -> Outcome<Seq<RelationModel>>
    decreases sources.len(),
{
    if sources.len() == 0 {
        Ok(seq![])
    } else {
        followed_by(alternatives_of(sources.drop_last()), alternative_of(sources.last()))
    }
}

/// The alternatives that one group stands for.
pub open spec fn group_of(source: Seq<char>) -> Outcome<Seq<RelationModel>> {
    let group = trim(source);
    if group.len() == 0 {
        Err("empty relation group after a comma"@)
    } else {
        match top_level_parts(group, '|', None) {
            Err(fault) => Err(fault.message(group)),
            Ok(parts) => alternatives_of(parts),
        }
    }
}

/// The groups that a list of group sources stands for.
pub open spec fn groups_of(sources: Seq<Seq<char>>) -> Outcome<Seq<Seq<RelationModel>>>
    decreases sources.len(),
{
    if sources.len() == 0 {
        Ok(seq![])
    } else {
        followed_by(groups_of(sources.drop_last()), group_of(sources.last()))
    }
}

/// The groups that a relation list stands for.
pub open spec fn relations_of(source: Seq<char>) -> Outcome<Seq<Seq<RelationModel>>> {
    if trim(source).len() == 0 {
        Ok(seq![])
    } else {
        match top_level_parts(source, ',', None) {
            Err(fault) => Err(fault.message(source)),
            Ok(parts) => groups_of(parts),
        }
    }
}

proof fn lemma_alternatives_prefix(sources: Seq<Seq<char>>, length: int)
    requires
        0 <= length <= sources.len(),
        alternatives_of(sources.take(length)) is Err,
    ensures
        alternatives_of(sources) == alternatives_of(sources.take(length)),
    decreases sources.len(),
{
    if length < sources.len() {
        assert(sources.drop_last().take(length) == sources.take(length));
        lemma_alternatives_prefix(sources.drop_last(), length);
    } else {
        assert(sources.take(length) == sources);
    }
}

proof fn lemma_groups_prefix(sources: Seq<Seq<char>>, length: int)
    requires
        0 <= length <= sources.len(),
        groups_of(sources.take(length)) is Err,
    ensures
        groups_of(sources) == groups_of(sources.take(length)),
    decreases sources.len(),
{
    if length < sources.len() {
        assert(sources.drop_last().take(length) == sources.take(length));
        lemma_groups_prefix(sources.drop_last(), length);
    } else {
        assert(sources.take(length) == sources);
    }
}

fn parse_alternative(source: &[char]) -> (result: Result<Relation>)
    ensures
        outcome(result) == alternative_of(source@),
{
    let relation = trimmed(source);
    if relation.len() == 0 {
        return Err(failure("empty alternative after a vertical bar"));
    }
    Relation::parse(relation)
}

fn parse_group(source: &[char]) -> (result: Result<RelationGroup>)
    ensures
        outcome(result) == group_of(source@),
{
    let group = trimmed(source);
    if group.len() == 0 {
        return Err(failure("empty relation group after a comma"));
    }
    let parts = split_top_level(group, '|')?;
    let ghost all = texts(parts@);
    let mut alternatives: Vec<Relation> = Vec::new();
    assert(alternatives.deep_view() == Seq::<RelationModel>::empty());
    for index in 0..parts.len()
        invariant
            all == texts(parts@),
            group_of(source@) == alternatives_of(all),
            alternatives_of(all.take(index as int)) == Ok::<Seq<RelationModel>, Seq<char>>(
                alternatives.deep_view(),
            ),
    {
        proof {
            assert(all.take(index + 1).drop_last() == all.take(index as int));
            assert(all.take(index + 1).last() == parts@[index as int]@);
            if alternative_of(parts@[index as int]@) is Err {
                lemma_alternatives_prefix(all, index + 1);
            }
        }
        let ghost before = alternatives.deep_view();
        let relation = parse_alternative(parts[index])?;
        alternatives.push(relation);
        assert(alternatives.deep_view() == before.push(relation.deep_view()));
    }
    assert(all.take(all.len() as int) == all);
    Ok(RelationGroup { alternatives })
}

impl RelationSet {
    /// A relation list without groups.
    pub fn empty() -> (result: Self)
        ensures
            result.deep_view() == Seq::<Seq<RelationModel>>::empty(),
    {
        let result = RelationSet { groups: Vec::new() };
        assert(result.deep_view() == Seq::<Seq<RelationModel>>::empty());
        result
    }

    /// Parse Debian dependency, recommendation, provide, or conflict syntax.
    ///
    /// Commas separate groups and vertical bars separate alternatives.  The
    /// parser also accepts versions, multiarch qualifiers, architecture
    /// restrictions, and build-profile restrictions.
    pub fn parse(source: &str) -> (result: Result<Self>)
        ensures
            outcome(result) == relations_of(source@),
    {
        let characters = chars(source);
        if trimmed(characters.as_slice()).len() == 0 {
            return Ok(RelationSet::empty());
        }
        let parts = split_top_level(characters.as_slice(), ',')?;
        let ghost all = texts(parts@);
        let mut groups: Vec<RelationGroup> = Vec::new();
        assert(groups.deep_view() == Seq::<Seq<RelationModel>>::empty());
        for index in 0..parts.len()
            invariant
                all == texts(parts@),
                relations_of(source@) == groups_of(all),
                groups_of(all.take(index as int)) == Ok::<Seq<Seq<RelationModel>>, Seq<char>>(
                    groups.deep_view(),
                ),
        {
            proof {
                assert(all.take(index + 1).drop_last() == all.take(index as int));
                assert(all.take(index + 1).last() == parts@[index as int]@);
                if group_of(parts@[index as int]@) is Err {
                    lemma_groups_prefix(all, index + 1);
                }
            }
            let ghost before = groups.deep_view();
            let group = parse_group(parts[index])?;
            groups.push(group);
            assert(groups.deep_view() == before.push(group.deep_view()));
        }
        assert(all.take(all.len() as int) == all);
        Ok(RelationSet { groups })
    }

    /// Append another parsed relation set while preserving source order.
    pub fn append(&mut self, other: Self)
        ensures
            final(self).deep_view() == old(self).deep_view() + other.deep_view(),
    {
        let mut groups = other.groups;
        self.groups.append(&mut groups);
        assert(self.deep_view() =~= old(self).deep_view() + other.deep_view());
    }

    /// Return `true` when the set has no relation groups.
    pub fn is_empty(&self) -> (result: bool)
        ensures
            result == (self.deep_view().len() == 0),
    {
        self.groups.len() == 0
    }
}

impl Default for RelationSet {
    fn default() -> (result: Self)
        ensures
            result.deep_view() == Seq::<Seq<RelationModel>>::empty(),
    {
        RelationSet::empty()
    }
}

// ---------------------------------------------------------------------------
// Restrictions
// ---------------------------------------------------------------------------
/// A term of an architecture restriction covers an architecture.
pub open spec fn architecture_covers(term: Seq<char>, target: Seq<char>) -> bool {
    if term == "any"@ || term == target || target == "all"@ {
        true
    } else if has_prefix(term, "any-"@) {
        let cpu = term.skip(4);
        target == cpu || has_suffix(target, "-"@ + cpu)
    } else if has_suffix(term, "-any"@) {
        let system = term.take(term.len() - 4);
        let hyphen = position(target, CharClass::Exactly('-')) as int;
        if hyphen < target.len() {
            target.take(hyphen) == system
        } else {
            // The common Debian architecture names have Linux as their
            // implicit operating system.
            system == "linux"@
        }
    } else {
        false
    }
}

/// The relation counts for an architecture: one of its positive terms covers
/// it, or, where there are none, no negative term does.
pub open spec fn counts_for_architecture(relation: RelationModel, target: Seq<char>) -> bool {
    let terms = relation.architectures;
    if has_sign(terms, false) {
        exists|index: int|
            0 <= index < terms.len() && !(#[trigger] terms[index]).negated && architecture_covers(
                terms[index].name,
                target,
            )
    } else {
        forall|index: int|
            0 <= index < terms.len() ==> !architecture_covers(
                (#[trigger] terms[index]).name,
                target,
            )
    }
}

/// All terms of a profile list hold for the active profiles.
pub open spec fn profile_list_holds(
    list: Seq<RestrictionModel>,
    active: Set<Seq<char>>,
) -> bool {
    forall|index: int|
        0 <= index < list.len() ==> active.contains((#[trigger] list[index]).name)
            != list[index].negated
}

/// The relation counts for the active profiles: one of its lists holds, or
/// it has none.
pub open spec fn counts_for_profiles(relation: RelationModel, active: Set<Seq<char>>) -> bool {
    relation.profiles.len() == 0 || exists|index: int|
        0 <= index < relation.profiles.len() && profile_list_holds(
            #[trigger] relation.profiles[index],
            active,
        )
}

fn architecture_term_matches(term: &str, target: &str) -> (result: bool)
    ensures
        result == architecture_covers(term@, target@),
{
    if equal(term, "any") || equal(term, target) || equal(target, "all") {
        return true;
    }
    let term_characters = chars(term);
    let target_characters = chars(target);
    proof {
        reveal_strlit("any-");
        reveal_strlit("-any");
    }
    if starts_with(term_characters.as_slice(), "any-") {
        let cpu = string(slice_subrange(term_characters.as_slice(), 4, term_characters.len()));
        assert(cpu@ == term@.skip(4));
        let suffix = String::from_str("-").concat(cpu.as_str());
        return equal(target, cpu.as_str()) || ends_with(
            target_characters.as_slice(),
            suffix.as_str(),
        );
    }
    if ends_with(term_characters.as_slice(), "-any") {
        let system = string(
            slice_subrange(term_characters.as_slice(), 0, term_characters.len() - 4),
        );
        assert(system@ == term@.take(term@.len() - 4));
        let hyphen = find(target_characters.as_slice(), CharClass::Exactly('-'));
        if hyphen < target_characters.len() {
            let target_system = slice_subrange(target_characters.as_slice(), 0, hyphen);
            assert(target_system@ == target@.take(hyphen as int));
            return is(target_system, system.as_str());
        }
        return equal(system.as_str(), "linux");
    }
    false
}

impl Relation {
    /// Test the relation against a Debian target architecture.
    pub fn matches_architecture(&self, target: &str) -> (result: bool)
        ensures
            result == counts_for_architecture(self.deep_view(), target@),
    {
        let ghost terms = self.deep_view().architectures;
        let mut has_positive = false;
        let mut positive_covers = false;
        let mut any_covers = false;
        for index in 0..self.architecture_restrictions.len()
            invariant
                terms == self.deep_view().architectures,
                has_positive == (exists|at: int|
                    0 <= at < index && !(#[trigger] terms[at]).negated),
                positive_covers == (exists|at: int|
                    0 <= at < index && !(#[trigger] terms[at]).negated && architecture_covers(
                        terms[at].name,
                        target@,
                    )),
                any_covers == (exists|at: int|
                    0 <= at < index && architecture_covers(
                        (#[trigger] terms[at]).name,
                        target@,
                    )),
        {
            let restriction = &self.architecture_restrictions[index];
            assert(terms[index as int] == restriction.deep_view());
            let covers = architecture_term_matches(restriction.name.as_str(), target);
            if !restriction.negated {
                has_positive = true;
                if covers {
                    positive_covers = true;
                }
            }
            if covers {
                any_covers = true;
            }
        }
        if has_positive {
            positive_covers
        } else {
            !any_covers
        }
    }

    /// Test all build-profile restrictions against a set of active profiles.
    pub fn matches_profiles(&self, active: &TextSet) -> (result: bool)
        ensures
            result == counts_for_profiles(self.deep_view(), active@),
    {
        let ghost lists = self.deep_view().profiles;
        if self.profile_restrictions.len() == 0 {
            return true;
        }
        for index in 0..self.profile_restrictions.len()
            invariant
                lists == self.deep_view().profiles,
                lists.len() > 0,
                forall|at: int|
                    0 <= at < index ==> !profile_list_holds(#[trigger] lists[at], active@),
        {
            assert(lists[index as int] == self.profile_restrictions@[index as int].deep_view());
            if all_hold(&self.profile_restrictions[index], active) {
                return true;
            }
        }
        false
    }
}

fn all_hold(list: &Vec<Restriction>, active: &TextSet) -> (result: bool)
    ensures
        result == profile_list_holds(list.deep_view(), active@),
{
    for index in 0..list.len()
        invariant
            forall|at: int|
                0 <= at < index ==> active@.contains((#[trigger] list.deep_view()[at]).name)
                    != list.deep_view()[at].negated,
    {
        assert(list.deep_view()[index as int] == list@[index as int].deep_view());
        if active.contains(list[index].name.as_str()) == list[index].negated {
            return false;
        }
    }
    true
}

// ---------------------------------------------------------------------------
// Laws
// ---------------------------------------------------------------------------
/// Joining can start at the first part as well.
proof fn lemma_join_front(first: Seq<char>, rest: Seq<Seq<char>>, separator: Seq<char>)
    requires
        rest.len() > 0,
    ensures
        join(seq![first] + rest, separator) == first + separator + join(rest, separator),
    decreases rest.len(),
{
    let all = seq![first] + rest;
    assert(all.drop_last() == seq![first] + rest.drop_last());
    assert(all.last() == rest.last());
    if rest.len() == 1 {
        assert(all.drop_last() == seq![first]);
        reveal_with_fuel(join, 2);
        assert(join(all, separator) == first + separator + rest[0]);
    } else {
        lemma_join_front(first, rest.drop_last(), separator);
        assert(join(all, separator) =~= first + separator + join(rest, separator));
    }
}

/// A character in front of the first part stands in front of the joined text.
proof fn lemma_join_grow(character: char, parts: Seq<Seq<char>>, separator: Seq<char>)
    requires
        parts.len() > 0,
    ensures
        join(parts.update(0, seq![character] + parts[0]), separator) == seq![character] + join(
            parts,
            separator,
        ),
    decreases parts.len(),
{
    let grown = parts.update(0, seq![character] + parts[0]);
    if parts.len() > 1 {
        lemma_join_grow(character, parts.drop_last(), separator);
        assert(grown.drop_last() == parts.drop_last().update(0, seq![character] + parts[0]));
        assert(join(grown, separator) =~= seq![character] + join(parts, separator));
    }
}

/// Splitting loses nothing: the parts of a relation list, joined with the
/// separator, are the list again.
pub proof fn split_keeps_the_source(text: Seq<char>, separator: char, open: Option<char>)
    ensures
        top_level_parts(text, separator, open) matches Ok(parts) ==> join(parts, seq![separator])
            == text,
    decreases text.len(),
{
    if text.len() == 0 {
        assert(join(seq![Seq::<char>::empty()], seq![separator]) == text);
    } else if let Some(next) = bracket_after(open, text[0]) {
        split_keeps_the_source(text.drop_first(), separator, next);
        lemma_parts_exist(text.drop_first(), separator, next);
        if let Ok(parts) = top_level_parts(text.drop_first(), separator, next) {
            if text[0] == separator && open is None {
                lemma_join_front(Seq::<char>::empty(), parts, seq![separator]);
                assert(Seq::<char>::empty() + seq![separator] + text.drop_first() == text);
            } else {
                lemma_join_grow(text[0], parts, seq![separator]);
                assert(seq![text[0]] + text.drop_first() == text);
            }
        }
    }
}

/// Two lists with a separator between them split like the lists themselves.
proof fn lemma_parts_of_two(first: Seq<char>, second: Seq<char>, separator: char, open: Option<
    char,
>)
    requires
        is_separator(separator),
    ensures
        top_level_parts(first, separator, open) matches Ok(parts) ==> top_level_parts(
            first + seq![separator] + second,
            separator,
            open,
        ) == match top_level_parts(second, separator, None) {
            Err(fault) => Err(fault),
            Ok(more) => Ok::<Seq<Seq<char>>, BracketFault>(parts + more),
        },
    decreases first.len(),
{
    let both = first + seq![separator] + second;
    if first.len() == 0 {
        if open is None {
            assert(both.drop_first() == second);
            assert(first == Seq::<char>::empty());
            if let Ok(more) = top_level_parts(second, separator, None) {
                assert(top_level_parts(first, separator, open) == Ok::<
                    Seq<Seq<char>>,
                    BracketFault,
                >(seq![Seq::<char>::empty()]));
            }
        }
    } else if let Some(next) = bracket_after(open, first[0]) {
        lemma_parts_of_two(first.drop_first(), second, separator, next);
        lemma_parts_exist(first.drop_first(), separator, next);
        assert(both.drop_first() == first.drop_first() + seq![separator] + second);
        assert(both[0] == first[0]);
        if let Ok(parts) = top_level_parts(first.drop_first(), separator, next) {
            if let Ok(more) = top_level_parts(second, separator, None) {
                if first[0] == separator && open is None {
                    assert(seq![Seq::<char>::empty()] + (parts + more) == (seq![
                        Seq::<char>::empty(),
                    ] + parts) + more);
                } else {
                    let grown = seq![first[0]] + parts[0];
                    assert((parts + more).update(0, grown) == parts.update(0, grown) + more);
                }
            }
        }
    }
}

proof fn lemma_groups_of_two(first: Seq<Seq<char>>, second: Seq<Seq<char>>)
    ensures
        groups_of(first) matches Ok(groups) ==> groups_of(first + second) == match groups_of(
            second,
        ) {
            Err(message) => Err(message),
            Ok(more) => Ok::<Seq<Seq<RelationModel>>, Seq<char>>(groups + more),
        },
    decreases second.len(),
{
    if second.len() == 0 {
        assert(first + second == first);
        if let Ok(groups) = groups_of(first) {
            assert(groups + Seq::<Seq<RelationModel>>::empty() == groups);
        }
    } else {
        lemma_groups_of_two(first, second.drop_last());
        assert((first + second).drop_last() == first + second.drop_last());
        assert((first + second).last() == second.last());
        if let Ok(groups) = groups_of(first) {
            if let Ok(more) = groups_of(second.drop_last()) {
                if let Ok(group) = group_of(second.last()) {
                    assert((groups + more).push(group) == groups + more.push(group));
                }
            }
        }
    }
}

/// Commas separate groups: two relation lists that are joined with a comma
/// stand for the groups of the first list, followed by those of the second.
pub proof fn comma_joins_lists(first: Seq<char>, second: Seq<char>)
    requires
        trim(first).len() > 0,
        trim(second).len() > 0,
        relations_of(first) is Ok,
        relations_of(second) is Ok,
    ensures
        relations_of(first + ","@ + second) == Ok::<Seq<Seq<RelationModel>>, Seq<char>>(
            relations_of(first)->Ok_0 + relations_of(second)->Ok_0,
        ),
{
    reveal_strlit(",");
    assert(","@ == seq![',']);
    let both = first + ","@ + second;
    lemma_parts_of_two(first, second, ',', None);
    let parts = top_level_parts(first, ',', None)->Ok_0;
    let more = top_level_parts(second, ',', None)->Ok_0;
    lemma_groups_of_two(parts, more);
    if trim(both).len() == 0 {
        crate::pieces::lemma_trim_empty(both);
        assert(both[first.len() as int] == ',');
    }
}

proof fn lemma_alternatives_of_two(first: Seq<Seq<char>>, second: Seq<Seq<char>>)
    ensures
        alternatives_of(first) matches Ok(relations) ==> alternatives_of(first + second)
            == match alternatives_of(second) {
            Err(message) => Err(message),
            Ok(more) => Ok::<Seq<RelationModel>, Seq<char>>(relations + more),
        },
    decreases second.len(),
{
    if second.len() == 0 {
        assert(first + second == first);
        if let Ok(relations) = alternatives_of(first) {
            assert(relations + Seq::<RelationModel>::empty() == relations);
        }
    } else {
        lemma_alternatives_of_two(first, second.drop_last());
        assert((first + second).drop_last() == first + second.drop_last());
        assert((first + second).last() == second.last());
        if let Ok(relations) = alternatives_of(first) {
            if let Ok(more) = alternatives_of(second.drop_last()) {
                if let Ok(relation) = alternative_of(second.last()) {
                    assert((relations + more).push(relation) == relations + more.push(relation));
                }
            }
        }
    }
}

/// The text has no white space at its start and its end.
pub open spec fn is_trimmed(text: Seq<char>) -> bool {
    text.len() > 0 && !CharClass::WhiteSpace.has(text[0]) && !CharClass::WhiteSpace.has(text.last())
}

/// Vertical bars separate alternatives: two groups that are joined with a bar
/// stand for the alternatives of the first one, followed by those of the second.
pub proof fn bar_joins_alternatives(first: Seq<char>, second: Seq<char>)
    requires
        is_trimmed(first),
        is_trimmed(second),
        group_of(first) is Ok,
        group_of(second) is Ok,
    ensures
        group_of(first + "|"@ + second) == Ok::<Seq<RelationModel>, Seq<char>>(
            group_of(first)->Ok_0 + group_of(second)->Ok_0,
        ),
{
    reveal_strlit("|");
    assert("|"@ == seq!['|']);
    let both = first + "|"@ + second;
    assert(both[0] == first[0]);
    assert(both.last() == second.last());
    assert(trim(first) == first);
    assert(trim(second) == second);
    assert(trim(both) == both);
    lemma_parts_of_two(first, second, '|', None);
    let parts = top_level_parts(first, '|', None)->Ok_0;
    let more = top_level_parts(second, '|', None)->Ok_0;
    lemma_alternatives_of_two(parts, more);
}

/// A bracket is closed by its own counterpart alone: another closing bracket is a
/// fault, except for the signs of a version limit in parentheses, and every other
/// character leaves it open.
pub proof fn brackets_are_closed_by_their_counterparts(character: char)
    ensures
        bracket_after(Some('('), character) == if character == ')' {
            Some(None)
        } else if character == ']' {
            None
        } else {
            Some(Some('('))
        },
        bracket_after(Some('['), character) == if character == ']' {
            Some(None)
        } else if character == ')' || character == '>' {
            None
        } else {
            Some(Some('['))
        },
        bracket_after(Some('<'), character) == if character == '>' {
            Some(None)
        } else if character == ')' || character == ']' {
            None
        } else {
            Some(Some('<'))
        },
        bracket_after(None, character) == if character == ')' || character == ']' || character
            == '>' {
            None
        } else if character == '(' || character == '[' || character == '<' {
            Some(Some(character))
        } else {
            Some(None)
        },
{
}

} // verus!
