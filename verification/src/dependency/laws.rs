//! What the reading and the choice of relations promise.

use vstd::prelude::*;

use crate::dependency::catalog::nonempty_lines;
use crate::dependency::constraint::merged_limit;
use crate::dependency::mapping::built_in_name;
use crate::dependency::relation::{
    all_name_characters, breaks_version, closing_of, constraint_of, is_name_character,
    is_package_name, is_qualifier_character, lemma_trim_start_shorter, qualifier_of, relation_of,
    restriction_list, with_section, with_sections, ConstraintModel, QualifierModel, RelationModel, RestrictionModel, VersionOperator,
};
use crate::dependency::relation_set::{
    architecture_covers, counts_for_architecture, counts_for_profiles, profile_list_holds,
    relations_of,
};
use crate::dependency::resolver::{
    dropped_version_warning, first_in, groups_of_sources, merged_resolution, other_names,
    qualifier_warning, selected_position, the_best_known_alternative_wins, unavailable_warning,
    unknown_name_warning, with_unique_if, Progress, ResolutionModel, ResolverModel,
    SelectionModel,
};
use crate::error::Outcome;
use crate::lists::{unique_additions_stay_unique, with_unique};
use crate::pieces::{
    lemma_position_is, lemma_split_join, lemma_split_whole, lines, nonempty, position, split,
    trim, trim_each, trim_start, words,
};
use crate::text::{has_prefix, has_suffix, is_white_space, CharClass};

verus! {

// ---------------------------------------------------------------------------
// Restrictions
// ---------------------------------------------------------------------------
/// Every term has the same sign.
pub open spec fn have_sign(terms: Seq<RestrictionModel>, negated: bool) -> bool {
    forall|index: int| 0 <= index < terms.len() ==> (#[trigger] terms[index]).negated == negated
}

/// The terms name the same things with opposite signs.
pub open spec fn are_opposite(one: Seq<RestrictionModel>, two: Seq<RestrictionModel>) -> bool {
    &&& one.len() == two.len()
    &&& forall|index: int|
        0 <= index < one.len() ==> (#[trigger] one[index]).name == two[index].name
            && one[index].negated != two[index].negated
}

/// A relation without a restriction counts everywhere; one with positive terms
/// counts exactly where the same relation with negative terms does not.
pub proof fn opposite_restrictions_exclude_each_other(
    one: RelationModel,
    two: RelationModel,
    target: Seq<char>,
)
    requires
        one.architectures.len() > 0,
        have_sign(one.architectures, false),
        are_opposite(one.architectures, two.architectures),
    ensures
        counts_for_architecture(one, target) <==> !counts_for_architecture(two, target),
        counts_for_architecture(one, target) <==> exists|index: int|
            0 <= index < one.architectures.len() && architecture_covers(
                (#[trigger] one.architectures[index]).name,
                target,
            ),
{
    let first = one.architectures;
    let second = two.architectures;
    assert(!first[0].negated);
    assert forall|index: int| 0 <= index < second.len() implies (#[trigger] second[index]).negated by {
        assert(first[index].name == second[index].name);
        assert(!first[index].negated);
    }
    if exists|index: int|
        0 <= index < first.len() && architecture_covers((#[trigger] first[index]).name, target) {
        let index = choose|index: int|
            0 <= index < first.len() && architecture_covers((#[trigger] first[index]).name, target);
        assert(!first[index].negated);
        assert(architecture_covers(second[index].name, target));
    } else {
        assert forall|index: int| 0 <= index < second.len() implies !architecture_covers(
            (#[trigger] second[index]).name,
            target,
        ) by {
            assert(first[index].name == second[index].name);
        }
    }
}

/// A relation without restrictions counts for every architecture and every set
/// of profiles.
pub proof fn unrestricted_relations_always_count(
    relation: RelationModel,
    target: Seq<char>,
    active: Set<Seq<char>>,
)
    ensures
        relation.architectures.len() == 0 ==> counts_for_architecture(relation, target),
        relation.profiles.len() == 0 ==> counts_for_profiles(relation, active),
{
}

/// The text holds no hyphen.
pub open spec fn is_one_word(text: Seq<char>) -> bool {
    !text.contains('-')
}

/// An architecture is covered by its own name, by `any`, by `any-` in front of its
/// processor and by `-any` behind its system, which is Linux where its name does
/// not tell; a package for all architectures is covered by every term.
pub proof fn terms_cover_their_architectures(
    term: Seq<char>,
    system: Seq<char>,
    processor: Seq<char>,
)
    requires
        is_one_word(system),
        is_one_word(processor),
    ensures
        architecture_covers("any"@, term),
        architecture_covers(term, term),
        architecture_covers(term, "all"@),
        architecture_covers("any-"@ + processor, processor),
        architecture_covers("any-"@ + processor, system + "-"@ + processor),
        architecture_covers("linux-any"@, processor),
        !has_prefix(system, "any"@) ==> architecture_covers(
            system + "-any"@,
            system + "-"@ + processor,
        ),
{
    reveal_strlit("any");
    reveal_strlit("any-");
    reveal_strlit("-any");
    reveal_strlit("linux-any");
    reveal_strlit("linux");
    reveal_strlit("-");
    let class = CharClass::Exactly('-');
    let long = "any-"@ + processor;
    assert(long.take(4) =~= "any-"@);
    assert(long.skip(4) =~= processor);
    let target = system + "-"@ + processor;
    assert(target.skip(target.len() - ("-"@ + processor).len()) =~= "-"@ + processor);
    let open = system + "-any"@;
    assert(open.skip(open.len() - 4) =~= "-any"@);
    assert(open.take(open.len() - 4) =~= system);
    assert("linux-any"@.skip(5) =~= "-any"@);
    assert("linux-any"@.take(5) =~= "linux"@);
    assert("linux-any"@.take(4)[0] == 'l');
    lemma_no_hyphen(processor);
    assert forall|index: int| 0 <= index < system.len() implies !class.has(
        #[trigger] target[index],
    ) by {
        assert(target[index] == system[index]);
        assert(system.contains(system[index]));
    }
    lemma_position_is(target, class, system.len() as int);
    assert(target.take(system.len() as int) =~= system);
    if has_prefix(open, "any-"@) && !has_prefix(system, "any"@) {
        assert(open.take(4)[0] == open[0] && open.take(4)[1] == open[1] && open.take(4)[2]
            == open[2] && open.take(4)[3] == open[3]);
        if system.len() >= 3 {
            assert(system.take(3) =~= "any"@);
        } else {
            assert(open[system.len() as int] == '-');
        }
    }
}

proof fn lemma_no_hyphen(text: Seq<char>)
    requires
        is_one_word(text),
    ensures
        position(text, CharClass::Exactly('-')) == text.len(),
{
    let class = CharClass::Exactly('-');
    assert forall|index: int| 0 <= index < text.len() implies !class.has(#[trigger] text[index]) by {
        assert(text.contains(text[index]));
    }
    lemma_position_is(text, class, text.len() as int);
}

/// A name without `any` in it covers no architecture but its own.
pub proof fn names_cover_only_themselves(term: Seq<char>, target: Seq<char>)
    requires
        is_one_word(term),
        term != "any"@,
        target != "all"@,
        term != target,
    ensures
        !architecture_covers(term, target),
{
    reveal_strlit("any-");
    reveal_strlit("-any");
    if has_prefix(term, "any-"@) {
        assert(term.take(4)[3] == term[3]);
        assert(term.contains(term[3]));
    }
    if has_suffix(term, "-any"@) {
        let at = term.len() - 4;
        assert(term.skip(at)[0] == term[at]);
        assert(term.contains(term[at]));
    }
}

/// A relation with one profile list counts exactly if each of its terms holds;
/// one more list can only make it count.
pub proof fn one_profile_list_is_enough(
    relation: RelationModel,
    list: Seq<RestrictionModel>,
    active: Set<Seq<char>>,
)
    ensures
        counts_for_profiles((RelationModel { profiles: seq![list], ..relation }), active)
            <==> forall|index: int|
            0 <= index < list.len() ==> ((#[trigger] list[index]).negated <==> !active.contains(
                list[index].name,
            )),
        relation.profiles.len() > 0 ==> (counts_for_profiles(
            (RelationModel { profiles: relation.profiles.push(list), ..relation }),
            active,
        ) <==> counts_for_profiles(relation, active) || profile_list_holds(list, active)),
{
    let single = RelationModel { profiles: seq![list], ..relation };
    assert(single.profiles[0] == list);
    let longer = RelationModel { profiles: relation.profiles.push(list), ..relation };
    if profile_list_holds(list, active) {
        assert(longer.profiles[relation.profiles.len() as int] == list);
    }
    if relation.profiles.len() > 0 && counts_for_profiles(relation, active) {
        let index = choose|index: int|
            0 <= index < relation.profiles.len() && profile_list_holds(
                #[trigger] relation.profiles[index],
                active,
            );
        assert(longer.profiles[index] == relation.profiles[index]);
    }
    if counts_for_profiles(longer, active) {
        let index = choose|index: int|
            0 <= index < longer.profiles.len() && profile_list_holds(
                #[trigger] longer.profiles[index],
                active,
            );
        if index < relation.profiles.len() {
            assert(longer.profiles[index] == relation.profiles[index]);
        }
    }
}

// ---------------------------------------------------------------------------
// Limits
// ---------------------------------------------------------------------------
/// The text is one word that can stand in a limit.
pub open spec fn is_limit_word(text: Seq<char>) -> bool {
    &&& text.len() > 0
    &&& !breaks_version(text)
    &&& forall|index: int| 0 <= index < text.len() ==> !is_white_space(#[trigger] text[index])
}

proof fn lemma_two_words(first: Seq<char>, second: Seq<char>)
    requires
        first.len() > 0,
        second.len() > 0,
        forall|index: int| 0 <= index < first.len() ==> !is_white_space(#[trigger] first[index]),
        forall|index: int| 0 <= index < second.len() ==> !is_white_space(#[trigger] second[index]),
    ensures
        words(first + seq![' '] + second) == seq![first, second],
{
    let class = CharClass::WhiteSpace;
    assert(first + seq![' '] + second =~= first.push(' ') + second);
    lemma_split_join(first, ' ', second, class);
    lemma_split_whole(first, class);
    lemma_split_whole(second, class);
    let parts = split(first.push(' ') + second, class);
    assert(parts =~= seq![first, second]);
    reveal(Seq::filter);
    let pred = |part: Seq<char>| part.len() > 0;
    assert(parts.drop_last() =~= seq![first]);
    assert(seq![first].drop_last() =~= seq![]);
    assert(Seq::<Seq<char>>::empty().filter(pred) =~= seq![]);
    assert(seq![first].filter(pred) =~= seq![first]);
    assert(nonempty(parts) =~= seq![first, second]);
}

/// A sign and a version stand for the limit with that sign; the sign for earlier
/// and the one for later versions can be written once or twice.
pub proof fn limits_are_read_from_their_signs(version: Seq<char>)
    requires
        is_limit_word(version),
    ensures
        is_limit(constraint_of("<<"@ + seq![' '] + version), VersionOperator::LessThan, version),
        is_limit(constraint_of("<"@ + seq![' '] + version), VersionOperator::LessThan, version),
        is_limit(constraint_of("<="@ + seq![' '] + version), VersionOperator::LessOrEqual, version),
        is_limit(constraint_of("="@ + seq![' '] + version), VersionOperator::Equal, version),
        is_limit(
            constraint_of(">="@ + seq![' '] + version),
            VersionOperator::GreaterOrEqual,
            version,
        ),
        is_limit(constraint_of(">>"@ + seq![' '] + version), VersionOperator::GreaterThan, version),
        is_limit(constraint_of(">"@ + seq![' '] + version), VersionOperator::GreaterThan, version),
{
    reveal_strlit("<<");
    reveal_strlit("<");
    reveal_strlit("<=");
    reveal_strlit("=");
    reveal_strlit(">=");
    reveal_strlit(">>");
    reveal_strlit(">");
    lemma_two_words("<<"@, version);
    lemma_two_words("<"@, version);
    lemma_two_words("<="@, version);
    lemma_two_words("="@, version);
    lemma_two_words(">="@, version);
    lemma_two_words(">>"@, version);
    lemma_two_words(">"@, version);
    assert("<<"@[1] == '<' && "<="@[1] == '=' && ">="@[0] == '>' && ">>"@[1] == '>');
    assert("<"@[0] == '<' && "="@[0] == '=' && ">"@[0] == '>');
}

/// The reading gave the limit with an operator and a version.
pub open spec fn is_limit(
    read: Outcome<ConstraintModel>,
    operator: VersionOperator,
    version: Seq<char>,
) -> bool {
    read matches Ok(limit) && limit.operator == operator && limit.version == version
}

// ---------------------------------------------------------------------------
// Mappings
// ---------------------------------------------------------------------------
/// A custom mapping of a name decides what stands for it; without one, a
/// built-in mapping does, and else the name stands for itself.  A version limit
/// is kept exactly if the custom mapping says that the versions are compatible;
/// else it is dropped, and the relation remembers that.
pub proof fn custom_mappings_come_first(resolver: ResolverModel, relation: RelationModel)
    ensures
        ({
            let candidate = resolver.candidate_of(relation);
            let name = relation.name;
            &&& candidate.original_name == name
            &&& resolver.mappings.contains_key(name) ==> {
                let mapping = resolver.mappings[name];
                &&& candidate.name == mapping.arch_name
                &&& mapping.version_compatible ==> candidate.version == relation.version
                    && !candidate.dropped_version
                &&& !mapping.version_compatible ==> candidate.version is None && (
                candidate.dropped_version <==> relation.version is Some)
                &&& !candidate.unknown_mapping
            }
            &&& !resolver.mappings.contains_key(name) ==> {
                &&& candidate.version is None
                &&& candidate.dropped_version <==> relation.version is Some
                &&& match built_in_name(name) {
                    Some(known) => candidate.name == known && !candidate.unknown_mapping,
                    None => candidate.name == name && (candidate.unknown_mapping <==> !(
                    resolver.catalog.available.contains(name)
                        || resolver.catalog.installed.contains(name))),
                }
            }
        }),
{
}

// ---------------------------------------------------------------------------
// Choices
// ---------------------------------------------------------------------------
proof fn lemma_selections_stay(
    resolver: ResolverModel,
    groups: Seq<Seq<RelationModel>>,
    check_availability: bool,
    index: int,
)
    requires
        0 <= index < groups.len(),
        resolver.candidates_of(groups[index]).len() > 1,
    ensures
        ({
            let candidates = resolver.candidates_of(groups[index]);
            let chosen = if check_availability {
                resolver.preferred(candidates)
            } else {
                0
            };
            resolver.after_groups(groups, check_availability).selections.contains(
                SelectionModel {
                    selected: candidates[chosen].name,
                    other_choices: other_names(candidates, chosen),
                },
            )
        }),
    decreases groups.len(),
{
    let candidates = resolver.candidates_of(groups[index]);
    let chosen = if check_availability {
        resolver.preferred(candidates)
    } else {
        0
    };
    let selection = SelectionModel {
        selected: candidates[chosen].name,
        other_choices: other_names(candidates, chosen),
    };
    let before = resolver.after_groups(groups.drop_last(), check_availability).selections;
    let after = resolver.after_groups(groups, check_availability).selections;
    if index < groups.len() - 1 {
        assert(groups.drop_last()[index] == groups[index]);
        lemma_selections_stay(resolver, groups.drop_last(), check_availability, index);
        let at = choose|at: int| 0 <= at < before.len() && before[at] == selection;
        assert(after[at] == selection);
    } else {
        assert(groups.last() == groups[index]);
        assert(after == before.push(selection));
        assert(after[before.len() as int] == selection);
    }
}

/// Each choice between alternatives is reported, with the chosen package and
/// every package that was not chosen.
pub proof fn choices_are_reported(
    resolver: ResolverModel,
    groups: Seq<Seq<RelationModel>>,
    check_availability: bool,
    index: int,
    other: int,
)
    requires
        0 <= index < groups.len(),
        resolver.candidates_of(groups[index]).len() > 1,
        0 <= other < resolver.candidates_of(groups[index]).len(),
    ensures
        exists|selection: SelectionModel| #[trigger]
            resolver.after_groups(groups, check_availability).selections.contains(selection) && {
                let candidates = resolver.candidates_of(groups[index]);
                &&& Some(selection.selected) == resolver.chosen_name(
                    groups[index],
                    check_availability,
                )
                &&& selection.other_choices.len() == candidates.len() - 1
                &&& candidates[other].name == selection.selected
                    || selection.other_choices.contains(candidates[other].name)
            },
{
    let candidates = resolver.candidates_of(groups[index]);
    let chosen = if check_availability {
        resolver.preferred(candidates)
    } else {
        0
    };
    lemma_selections_stay(resolver, groups, check_availability, index);
    the_best_known_alternative_wins(resolver, candidates, other);
    let selection = SelectionModel {
        selected: candidates[chosen].name,
        other_choices: other_names(candidates, chosen),
    };
    let rest = candidates.remove(chosen);
    if other < chosen {
        assert(rest[other] == candidates[other]);
        assert(selection.other_choices[other] == candidates[other].name);
    } else if other > chosen {
        assert(rest[other - 1] == candidates[other]);
        assert(selection.other_choices[other - 1] == candidates[other].name);
    }
    assert(resolver.after_groups(groups, check_availability).selections.contains(selection));
}

// ---------------------------------------------------------------------------
// Catalog
// ---------------------------------------------------------------------------
/// The names that pacman lists are the lines of its output that are not blank,
/// without the white space around them.
pub proof fn listed_names_are_the_lines(source: Seq<char>, name: Seq<char>)
    ensures
        nonempty_lines(source).contains(name) <==> name.len() > 0 && exists|index: int|
            0 <= index < lines(source).len() && trim(#[trigger] lines(source)[index]) == name,
{
    let all = lines(source);
    let trimmed = trim_each(all);
    let pred = |part: Seq<char>| part.len() > 0;
    let kept = trimmed.filter(pred);
    if kept.contains(name) {
        let at = choose|at: int| 0 <= at < kept.len() && kept[at] == name;
        trimmed.lemma_filter_pred(pred, at);
        let place = lemma_filter_place(trimmed, pred, at);
        assert(trim(all[place]) == name);
    }
    if name.len() > 0 && exists|index: int|
        0 <= index < all.len() && trim(#[trigger] all[index]) == name {
        let index = choose|index: int| 0 <= index < all.len() && trim(#[trigger] all[index]) == name;
        assert(trimmed[index] == name);
        trimmed.lemma_filter_contains(pred, index);
    }
}

proof fn lemma_filter_place(
    list: Seq<Seq<char>>,
    pred: spec_fn(Seq<char>) -> bool,
    index: int,
) -> (place: int)
    requires
        0 <= index < list.filter(pred).len(),
    ensures
        0 <= place < list.len(),
        list[place] == list.filter(pred)[index],
    decreases list.len(),
{
    reveal(Seq::filter);
    if index < list.drop_last().filter(pred).len() {
        lemma_filter_place(list.drop_last(), pred, index)
    } else {
        list.len() - 1
    }
}

// ---------------------------------------------------------------------------
// Qualifiers and restrictions
// ---------------------------------------------------------------------------
/// The qualifiers `any` and `native` name no architecture, and every other one
/// does.
pub proof fn qualifiers_name_architectures(source: Seq<char>)
    ensures
        qualifier_of("any"@) == Ok::<QualifierModel, Seq<char>>(QualifierModel::Any),
        qualifier_of("native"@) == Ok::<QualifierModel, Seq<char>>(QualifierModel::Native),
        source != "any"@ && source != "native"@ ==> match qualifier_of(source) {
            Ok(qualifier) => qualifier == QualifierModel::Architecture(source),
            Err(_) => source.len() == 0 || exists|index: int|
                0 <= index < source.len() && !is_qualifier_character(#[trigger] source[index]),
        },
{
    reveal_strlit("any");
    reveal_strlit("native");
}

/// Each word of a restriction is one term: an exclamation mark makes it negative,
/// and the rest is its name.
pub proof fn every_word_is_a_term(terms: Seq<Seq<char>>, kind: Seq<char>)
    ensures
        restriction_list(terms, kind) matches Ok(list) ==> {
            &&& list.len() == terms.len()
            &&& forall|index: int|
                0 <= index < list.len() ==> is_term_of(#[trigger] list[index], terms[index])
        },
    decreases terms.len(),
{
    if terms.len() > 0 {
        let fewer = terms.drop_last();
        every_word_is_a_term(fewer, kind);
        if let Ok(list) = restriction_list(terms, kind) {
            let before = restriction_list(fewer, kind)->Ok_0;
            let last = terms.last();
            if last.len() > 0 && last[0] == '!' {
                assert(last =~= seq!['!'] + last.drop_first());
            }
            assert forall|index: int| 0 <= index < list.len() implies is_term_of(
                #[trigger] list[index],
                terms[index],
            ) by {
                if index < before.len() {
                    assert(list[index] == before[index]);
                    assert(fewer[index] == terms[index]);
                }
            }
        }
    }
}

/// The term is the one that a word stands for.
pub open spec fn is_term_of(term: RestrictionModel, word: Seq<char>) -> bool {
    if term.negated {
        word == seq!['!'] + term.name
    } else {
        word == term.name && word[0] != '!'
    }
}

// ---------------------------------------------------------------------------
// Warnings
// ---------------------------------------------------------------------------
proof fn lemma_added(list: Seq<Seq<char>>, condition: bool, text: Seq<char>, other: Seq<char>)
    ensures
        condition ==> with_unique_if(list, condition, text).contains(text),
        list.contains(other) ==> with_unique_if(list, condition, text).contains(other),
{
    let after = with_unique_if(list, condition, text);
    if condition && !list.contains(text) {
        assert(after[list.len() as int] == text);
    }
    if list.contains(other) {
        let at = choose|at: int| 0 <= at < list.len() && list[at] == other;
        assert(after[at] == other);
    }
}

/// The choice of a package is warned of where it loses something: a dropped
/// version limit, a removed architecture, a name that nothing knows, and a
/// package that pacman, as far as it could be asked, does not have.
pub proof fn losses_are_warned_of(
    resolver: ResolverModel,
    warnings: Seq<Seq<char>>,
    relation: RelationModel,
    check_availability: bool,
)
    ensures
        ({
            let candidate = resolver.candidate_of(relation);
            let after = resolver.selection_warnings(
                warnings,
                relation,
                candidate,
                check_availability,
            );
            let catalog = resolver.catalog;
            &&& candidate.dropped_version ==> after.contains(dropped_version_warning(relation.name))
            &&& relation.qualifier matches Some(QualifierModel::Architecture(_)) ==> after.contains(
                qualifier_warning(relation.name),
            )
            &&& candidate.unknown_mapping ==> after.contains(unknown_name_warning(relation.name))
            &&& check_availability && catalog.availability_known && catalog.installed_known
                && !catalog.available.contains(candidate.name) && !catalog.installed.contains(
                candidate.name,
            ) ==> after.contains(unavailable_warning(candidate.name))
            &&& !candidate.dropped_version && relation.qualifier is None
                && !candidate.unknown_mapping && (catalog.available.contains(candidate.name)
                || catalog.installed.contains(candidate.name) || !check_availability) ==> after
                == warnings
        }),
{
    let candidate = resolver.candidate_of(relation);
    let original = relation.name;
    let unknown = unknown_name_warning(original);
    let dropped = dropped_version_warning(original);
    let qualifier = qualifier_warning(original);
    let first = with_unique_if(warnings, candidate.unknown_mapping, unknown);
    let second = with_unique_if(first, candidate.dropped_version, dropped);
    let foreign = relation.qualifier matches Some(QualifierModel::Architecture(_));
    let third = with_unique_if(second, foreign, qualifier);
    let absent = check_availability && resolver.catalog.availability_known
        && resolver.catalog.installed_known && !resolver.catalog.knows(candidate.name);
    let last = unavailable_warning(candidate.name);
    lemma_added(warnings, candidate.unknown_mapping, unknown, unknown);
    lemma_added(first, candidate.dropped_version, dropped, unknown);
    lemma_added(second, foreign, qualifier, unknown);
    lemma_added(third, absent, last, unknown);
    lemma_added(second, foreign, qualifier, dropped);
    lemma_added(third, absent, last, dropped);
    lemma_added(third, absent, last, qualifier);
}

// ---------------------------------------------------------------------------
// Sources
// ---------------------------------------------------------------------------
/// Several relation lists are read as all their groups, one list after the other,
/// and refused if one of them is.
pub proof fn sources_are_read_together(sources: Seq<Seq<char>>, source: Seq<char>)
    ensures
        groups_of_sources(sources.push(source)) == match (
            groups_of_sources(sources),
            relations_of(source),
        ) {
            (Ok(groups), Ok(more)) => Ok(groups + more),
            (Ok(_), Err(message)) => Err(message),
            (Err(message), _) => Err(message),
        },
        groups_of_sources(seq![source]) == relations_of(source),
{
    assert(sources.push(source).drop_last() =~= sources);
    let nothing = Seq::<Seq<char>>::empty();
    assert(seq![source].drop_last() =~= nothing);
    reveal_with_fuel(groups_of_sources, 2);
    if let Ok(more) = relations_of(source) {
        assert(Seq::<Seq<RelationModel>>::empty() + more =~= more);
    }
}

/// The merged result of two resolutions holds what each of them holds.
pub proof fn merged_resolutions_hold_both(first: ResolutionModel, second: ResolutionModel)
    requires
        first.dependencies.no_duplicates(),
        first.warnings.no_duplicates(),
    ensures
        ({
            let merged = merged_resolution(first, second);
            &&& merged.dependencies.to_set() == first.dependencies.to_set().union(
                second.dependencies.to_set(),
            )
            &&& merged.warnings.to_set() == first.warnings.to_set().union(second.warnings.to_set())
            &&& merged.selections.len() == first.selections.len() + second.selections.len()
            &&& forall|index: int|
                0 <= index < first.selections.len() ==> merged.selections[index]
                    == first.selections[index]
            &&& forall|index: int|
                0 <= index < second.selections.len() ==> merged.selections[first.selections.len()
                    + index] == #[trigger] second.selections[index]
        }),
{
    unique_additions_stay_unique(first.dependencies, second.dependencies);
    unique_additions_stay_unique(first.warnings, second.warnings);
}

proof fn lemma_kept_by_merge(list: Seq<Seq<char>>, text: Seq<char>, other: Seq<char>)
    ensures
        list.contains(other) ==> with_unique(list, text).contains(other),
{
    lemma_added(list, true, text, other);
}

/// A group with one relation that counts is warned of where the choice of its
/// package loses something.
pub proof fn lossy_groups_are_warned_of(
    resolver: ResolverModel,
    group: Seq<RelationModel>,
    relation: RelationModel,
    check_availability: bool,
    progress: Progress,
)
    requires
        resolver.active_of(group) == seq![relation],
    ensures
        ({
            let candidate = resolver.candidate_of(relation);
            let after = resolver.after_group(group, check_availability, progress).warnings;
            let catalog = resolver.catalog;
            &&& candidate.dropped_version ==> after.contains(dropped_version_warning(relation.name))
            &&& relation.qualifier matches Some(QualifierModel::Architecture(_)) ==> after.contains(
                qualifier_warning(relation.name),
            )
            &&& candidate.unknown_mapping ==> after.contains(unknown_name_warning(relation.name))
            &&& check_availability && catalog.availability_known && catalog.installed_known
                && !catalog.available.contains(candidate.name) && !catalog.installed.contains(
                candidate.name,
            ) ==> after.contains(unavailable_warning(candidate.name))
        }),
{
    let candidate = resolver.candidate_of(relation);
    let candidates = resolver.candidates_of(group);
    assert(candidates =~= seq![candidate]);
    assert(seq![candidate].drop_first() =~= seq![]);
    reveal_with_fuel(first_in, 2);
    assert(resolver.preferred(candidates) == 0);
    losses_are_warned_of(resolver, progress.warnings, relation, check_availability);
    let told = resolver.selection_warnings(
        progress.warnings,
        relation,
        candidate,
        check_availability,
    );
    let at = selected_position(progress.selected, candidate.name);
    if at < progress.selected.len() {
        let limit = merged_limit(progress.selected[at].version, candidate.version);
        if let Some(text) = limit.1 {
            lemma_kept_by_merge(told, text, dropped_version_warning(relation.name));
            lemma_kept_by_merge(told, text, qualifier_warning(relation.name));
            lemma_kept_by_merge(told, text, unknown_name_warning(relation.name));
            lemma_kept_by_merge(told, text, unavailable_warning(candidate.name));
        }
    }
}

// ---------------------------------------------------------------------------
// Names
// ---------------------------------------------------------------------------
/// The character can stand anywhere in the name of a Debian package.
pub open spec fn stands_in_names(character: char) -> bool {
    'a' <= character <= 'z' || '0' <= character <= '9' || character == '+' || character == '-'
        || character == '.'
}

/// A Debian name has two characters or more, all of them lower-case letters, digits,
/// plus signs, hyphens and periods, and starts with a letter or a digit.
pub proof fn debian_names_have_their_characters(name: Seq<char>)
    ensures
        is_package_name(name) <==> {
            &&& name.len() > 1
            &&& name[0] != '+' && name[0] != '-' && name[0] != '.'
            &&& forall|index: int|
                0 <= index < name.len() ==> stands_in_names(#[trigger] name[index])
        },
{
    if all_name_characters(name) {
        assert forall|index: int| 0 <= index < name.len() implies stands_in_names(
            #[trigger] name[index],
        ) by {
            assert(is_name_character(name[index]));
        }
    }
    if forall|index: int| 0 <= index < name.len() ==> stands_in_names(#[trigger] name[index]) {
        assert forall|index: int| 0 <= index < name.len() implies is_name_character(
            #[trigger] name[index],
        ) by {
            assert(stands_in_names(name[index]));
        }
        if name.len() > 0 {
            assert(stands_in_names(name[0]));
        }
    }
}

// ---------------------------------------------------------------------------
// Sections
// ---------------------------------------------------------------------------
/// The whole text of a relation stands in messages alone.
proof fn lemma_source_is_only_told(
    one: Seq<char>,
    two: Seq<char>,
    rest: Seq<char>,
    relation: RelationModel,
)
    ensures
        with_sections(one, rest, relation) matches Ok(read) ==> with_sections(two, rest, relation)
            == Ok::<RelationModel, Seq<char>>(read),
    decreases rest.len(),
{
    let sections = trim_start(rest, CharClass::AsciiWhiteSpace);
    lemma_trim_start_shorter(rest, CharClass::AsciiWhiteSpace);
    if sections.len() > 0 {
        if let Some(closing) = closing_of(sections[0]) {
            let inner = sections.drop_first();
            let length = position(inner, CharClass::Exactly(closing));
            if length < inner.len() {
                let content = inner.take(length as int);
                if let Ok(next) = with_section(one, sections[0], content, relation) {
                    assert(with_section(two, sections[0], content, relation) == Ok::<
                        RelationModel,
                        Seq<char>,
                    >(next));
                    lemma_source_is_only_told(one, two, inner.skip(length as int + 1), next);
                }
            }
        }
    }
}

proof fn lemma_space_is_skipped(source: Seq<char>, rest: Seq<char>, relation: RelationModel)
    ensures
        with_sections(source, seq![' '] + rest, relation) == with_sections(source, rest, relation),
{
    assert((seq![' '] + rest).drop_first() =~= rest);
}

proof fn lemma_name_ends(name: Seq<char>, end: Seq<char>)
    requires
        is_package_name(name),
        end.len() > 0,
        end[0] == ' ' || end[0] == '(' || end[0] == '[' || end[0] == '<' || end[0] == ':',
    ensures
        position(name + end, CharClass::RelationNameEnd) == name.len(),
        (name + end).take(name.len() as int) == name,
        (name + end).skip(name.len() as int) == end,
{
    let source = name + end;
    let class = CharClass::RelationNameEnd;
    assert forall|index: int| 0 <= index < name.len() implies !class.has(
        #[trigger] source[index],
    ) by {
        assert(is_name_character(name[index]));
    }
    assert(source[name.len() as int] == end[0]);
    lemma_position_is(source, class, name.len() as int);
    assert(source.take(name.len() as int) =~= name);
    assert(source.skip(name.len() as int) =~= end);
}

/// It does not matter whether a space stands between the name of a package and the
/// bracket behind it.
pub proof fn brackets_end_names(name: Seq<char>, opening: char, rest: Seq<char>)
    requires
        is_package_name(name),
        opening == '(' || opening == '[' || opening == '<',
    ensures
        ({
            let close = relation_of(name + (seq![opening] + rest));
            let apart = relation_of(name + (seq![' '] + (seq![opening] + rest)));
            &&& close is Ok <==> apart is Ok
            &&& close is Ok ==> close == apart
        }),
{
    let end = seq![opening] + rest;
    let close = name + end;
    let apart = name + (seq![' '] + end);
    lemma_name_ends(name, end);
    lemma_name_ends(name, seq![' '] + end);
    let bare = RelationModel {
        name,
        qualifier: None,
        version: None,
        architectures: seq![],
        profiles: seq![],
    };
    lemma_space_is_skipped(apart, end, bare);
    lemma_source_is_only_told(close, apart, end, bare);
    lemma_source_is_only_told(apart, close, end, bare);
}

/// It does not matter whether a space stands between a qualifier and the bracket
/// behind it.
pub proof fn brackets_end_qualifiers(
    name: Seq<char>,
    qualifier: Seq<char>,
    opening: char,
    rest: Seq<char>,
)
    requires
        is_package_name(name),
        forall|index: int|
            0 <= index < qualifier.len() ==> is_qualifier_character(#[trigger] qualifier[index]),
        opening == '(' || opening == '[' || opening == '<',
    ensures
        ({
            let end = seq![opening] + rest;
            let close = relation_of(name + (seq![':'] + (qualifier + end)));
            let apart = relation_of(name + (seq![':'] + (qualifier + (seq![' '] + end))));
            &&& close is Ok <==> apart is Ok
            &&& close is Ok ==> close == apart
        }),
{
    let end = seq![opening] + rest;
    let spaced = seq![' '] + end;
    let close = name + (seq![':'] + (qualifier + end));
    let apart = name + (seq![':'] + (qualifier + spaced));
    lemma_name_ends(name, seq![':'] + (qualifier + end));
    lemma_name_ends(name, seq![':'] + (qualifier + spaced));
    assert((seq![':'] + (qualifier + end)).drop_first() =~= qualifier + end);
    assert((seq![':'] + (qualifier + spaced)).drop_first() =~= qualifier + spaced);
    lemma_qualifier_ends(qualifier, end);
    lemma_qualifier_ends(qualifier, spaced);
    if let Ok(read) = qualifier_of(qualifier) {
        let bare = RelationModel {
            name,
            qualifier: Some(read),
            version: None,
            architectures: seq![],
            profiles: seq![],
        };
        lemma_space_is_skipped(apart, end, bare);
        lemma_source_is_only_told(close, apart, end, bare);
        lemma_source_is_only_told(apart, close, end, bare);
    }
}

proof fn lemma_qualifier_ends(qualifier: Seq<char>, end: Seq<char>)
    requires
        forall|index: int|
            0 <= index < qualifier.len() ==> is_qualifier_character(#[trigger] qualifier[index]),
        end.len() > 0,
        end[0] == ' ' || end[0] == '(' || end[0] == '[' || end[0] == '<',
    ensures
        position(qualifier + end, CharClass::QualifierEnd) == qualifier.len(),
        (qualifier + end).take(qualifier.len() as int) == qualifier,
        (qualifier + end).skip(qualifier.len() as int) == end,
{
    let source = qualifier + end;
    let class = CharClass::QualifierEnd;
    assert forall|index: int| 0 <= index < qualifier.len() implies !class.has(
        #[trigger] source[index],
    ) by {
        assert(is_qualifier_character(qualifier[index]));
    }
    assert(source[qualifier.len() as int] == end[0]);
    lemma_position_is(source, class, qualifier.len() as int);
    assert(source.take(qualifier.len() as int) =~= qualifier);
    assert(source.skip(qualifier.len() as int) =~= end);
}

} // verus!
