//! What the relations of an Arch package promise.

use vstd::prelude::*;

use crate::control::metadata::{listed_text, MetadataModel, RelationField};
use crate::conversion::package::{package_of, packages_keep_their_sources, PackageModel};
use crate::conversion::pkginfo::{each_key_tells_its_own_part, has_line};
use crate::conversion::relations::{
    arch_relations, conflict_fields, dependency_name, dependency_names, field_groups,
    required_fields, selection_warning, with_selections, RelationsModel,
};
use crate::dependency::relation::{RelationModel, VersionOperator};
use crate::dependency::relation_set::relations_of;
use crate::dependency::resolver::{
    dependency_text, packages_stand_in_the_order_of_their_selection, selected_names,
    ResolverModel, SelectedModel, SelectionModel,
};
use crate::lists::{set_of, unique_additions_stay_unique, with_all_unique};
use crate::pieces::{lemma_position_is, trim, trim_end, trim_start};
use crate::text::CharClass;

verus! {

// ---------------------------------------------------------------------------
// Selected packages
// ---------------------------------------------------------------------------
/// A group of a relation field selects the package.
pub open spec fn field_selects(
    metadata: MetadataModel,
    resolver: ResolverModel,
    field: RelationField,
    check_availability: bool,
    name: Seq<char>,
) -> bool {
    listed_text(metadata.relations, field) matches Some(text) && relations_of(text) matches Ok(
        groups,
    ) && group_selects(resolver, groups, check_availability, name)
}

/// Some group selects the package.
pub open spec fn group_selects(
    resolver: ResolverModel,
    groups: Seq<Seq<RelationModel>>,
    check_availability: bool,
    name: Seq<char>,
) -> bool {
    exists|index: int|
        0 <= index < groups.len() && resolver.chosen_name(
            #[trigger] groups[index],
            check_availability,
        ) == Some(name)
}

/// The list holds one dependency for each of the packages, in their order.
pub open spec fn is_list_of(
    list: Seq<Seq<char>>,
    packages: Seq<SelectedModel>,
    reason: Option<Seq<char>>,
) -> bool {
    &&& list.len() == packages.len()
    &&& forall|index: int|
        0 <= index < list.len() ==> #[trigger] list[index] == dependency_text(
            packages[index],
            reason,
        )
}

/// The list holds a dependency on a package with the name.
pub open spec fn lists_package(
    list: Seq<Seq<char>>,
    name: Seq<char>,
    reason: Option<Seq<char>>,
) -> bool {
    exists|package: SelectedModel|
        package.name == name && list.contains(#[trigger] dependency_text(package, reason))
}

proof fn lemma_chosen(
    resolver: ResolverModel,
    groups: Seq<Seq<RelationModel>>,
    check_availability: bool,
    name: Seq<char>,
)
    ensures
        resolver.chosen_names(groups, check_availability).contains(name) <==> group_selects(
            resolver,
            groups,
            check_availability,
            name,
        ),
    decreases groups.len(),
{
    if groups.len() > 0 {
        let fewer = groups.drop_last();
        lemma_chosen(resolver, fewer, check_availability, name);
        let before = resolver.chosen_names(fewer, check_availability);
        let after = resolver.chosen_names(groups, check_availability);
        if before.contains(name) {
            let at = choose|at: int| 0 <= at < before.len() && before[at] == name;
            assert(after[at] == name);
            let index = choose|index: int|
                0 <= index < fewer.len() && resolver.chosen_name(
                    #[trigger] fewer[index],
                    check_availability,
                ) == Some(name);
            assert(groups[index] == fewer[index]);
        }
        if resolver.chosen_name(groups.last(), check_availability) == Some(name) {
            assert(after[before.len() as int] == name);
            assert(groups[groups.len() - 1] == groups.last());
        }
        if group_selects(resolver, groups, check_availability, name) {
            let index = choose|index: int|
                0 <= index < groups.len() && resolver.chosen_name(
                    #[trigger] groups[index],
                    check_availability,
                ) == Some(name);
            if index < fewer.len() {
                assert(fewer[index] == groups[index]);
            }
        }
        if after.contains(name) && !before.contains(name) {
            let at = choose|at: int| 0 <= at < after.len() && after[at] == name;
            if at < before.len() {
                assert(before[at] == name);
            }
        }
    }
}

proof fn lemma_groups_concat(
    resolver: ResolverModel,
    first: Seq<Seq<RelationModel>>,
    second: Seq<Seq<RelationModel>>,
    check_availability: bool,
    name: Seq<char>,
)
    ensures
        group_selects(resolver, first + second, check_availability, name) <==> group_selects(
            resolver,
            first,
            check_availability,
            name,
        ) || group_selects(resolver, second, check_availability, name),
{
    let both = first + second;
    if group_selects(resolver, both, check_availability, name) {
        let index = choose|index: int|
            0 <= index < both.len() && resolver.chosen_name(
                #[trigger] both[index],
                check_availability,
            ) == Some(name);
        if index < first.len() {
            assert(first[index] == both[index]);
        } else {
            assert(second[index - first.len()] == both[index]);
        }
    }
    if group_selects(resolver, first, check_availability, name) {
        let index = choose|index: int|
            0 <= index < first.len() && resolver.chosen_name(
                #[trigger] first[index],
                check_availability,
            ) == Some(name);
        assert(both[index] == first[index]);
    }
    if group_selects(resolver, second, check_availability, name) {
        let index = choose|index: int|
            0 <= index < second.len() && resolver.chosen_name(
                #[trigger] second[index],
                check_availability,
            ) == Some(name);
        assert(both[first.len() + index] == second[index]);
    }
}

proof fn lemma_one_field(
    metadata: MetadataModel,
    resolver: ResolverModel,
    field: RelationField,
    check_availability: bool,
    name: Seq<char>,
)
    ensures
        field_groups(metadata, seq![field]) matches Ok(groups) ==> (group_selects(
            resolver,
            groups,
            check_availability,
            name,
        ) <==> field_selects(metadata, resolver, field, check_availability, name)),
{
    reveal_with_fuel(field_groups, 2);
    assert(seq![field].drop_last() =~= seq![]);
    if let Some(text) = listed_text(metadata.relations, field) {
        if let Ok(groups) = relations_of(text) {
            assert(Seq::<Seq<RelationModel>>::empty() + groups =~= groups);
        }
    }
}

proof fn lemma_two_fields(
    metadata: MetadataModel,
    resolver: ResolverModel,
    first: RelationField,
    second: RelationField,
    check_availability: bool,
    name: Seq<char>,
)
    ensures
        field_groups(metadata, seq![first, second]) matches Ok(groups) ==> (group_selects(
            resolver,
            groups,
            check_availability,
            name,
        ) <==> field_selects(metadata, resolver, first, check_availability, name) || field_selects(
            metadata,
            resolver,
            second,
            check_availability,
            name,
        )),
{
    assert(seq![first, second].drop_last() =~= seq![first]);
    lemma_one_field(metadata, resolver, first, check_availability, name);
    if let Ok(before) = field_groups(metadata, seq![first]) {
        if let Some(text) = listed_text(metadata.relations, second) {
            if let Ok(more) = relations_of(text) {
                lemma_groups_concat(resolver, before, more, check_availability, name);
            }
        }
    }
}

/// A resolution lists exactly the packages that its groups select.
pub proof fn resolutions_list_the_selected_packages(
    resolver: ResolverModel,
    groups: Seq<Seq<RelationModel>>,
    check_availability: bool,
    reason: Option<Seq<char>>,
    name: Seq<char>,
)
    ensures
        ({
            let packages = resolver.after_groups(groups, check_availability).selected;
            &&& is_list_of(
                resolver.resolution(groups, check_availability, reason).dependencies,
                packages,
                reason,
            )
            &&& selected_names(packages).contains(name) <==> group_selects(
                resolver,
                groups,
                check_availability,
                name,
            )
        }),
        group_selects(resolver, groups, check_availability, name) ==> lists_package(
            resolver.resolution(groups, check_availability, reason).dependencies,
            name,
            reason,
        ),
{
    let packages = resolver.after_groups(groups, check_availability).selected;
    let list = resolver.resolution(groups, check_availability, reason).dependencies;
    packages_stand_in_the_order_of_their_selection(resolver, groups, check_availability, reason);
    lemma_chosen(resolver, groups, check_availability, name);
    let names = selected_names(packages);
    let chosen = resolver.chosen_names(groups, check_availability);
    assert(names.to_set().contains(name) == chosen.to_set().contains(name));
    if group_selects(resolver, groups, check_availability, name) {
        let at = choose|at: int| 0 <= at < names.len() && names[at] == name;
        assert(packages[at].name == name);
        assert(list[at] == dependency_text(packages[at], reason));
        assert(list.contains(dependency_text(packages[at], reason)));
    }
}

/// The packages of a list are those that one of two fields selects.
pub open spec fn comes_of_fields(
    list: Seq<Seq<char>>,
    packages: Seq<SelectedModel>,
    metadata: MetadataModel,
    resolver: ResolverModel,
    first: RelationField,
    second: RelationField,
    check_availability: bool,
) -> bool {
    &&& is_list_of(list, packages, None)
    &&& forall|name: Seq<char>|
        #![trigger selected_names(packages).contains(name)]
        selected_names(packages).contains(name) <==> field_selects(
            metadata,
            resolver,
            first,
            check_availability,
            name,
        ) || field_selects(metadata, resolver, second, check_availability, name)
}

proof fn lemma_comes_of_fields(
    metadata: MetadataModel,
    resolver: ResolverModel,
    first: RelationField,
    second: RelationField,
    groups: Seq<Seq<RelationModel>>,
    check_availability: bool,
)
    requires
        first == second ==> field_groups(metadata, seq![first]) == Ok::<
            Seq<Seq<RelationModel>>,
            Seq<char>,
        >(groups),
        first != second ==> field_groups(metadata, seq![first, second]) == Ok::<
            Seq<Seq<RelationModel>>,
            Seq<char>,
        >(groups),
    ensures
        comes_of_fields(
            resolver.resolution(groups, check_availability, None).dependencies,
            resolver.after_groups(groups, check_availability).selected,
            metadata,
            resolver,
            first,
            second,
            check_availability,
        ),
{
    let packages = resolver.after_groups(groups, check_availability).selected;
    resolutions_list_the_selected_packages(resolver, groups, check_availability, None, seq![]);
    assert forall|name: Seq<char>|
        #![trigger selected_names(packages).contains(name)]
        selected_names(packages).contains(name) <==> field_selects(
            metadata,
            resolver,
            first,
            check_availability,
            name,
        ) || field_selects(metadata, resolver, second, check_availability, name) by {
        resolutions_list_the_selected_packages(resolver, groups, check_availability, None, name);
        if first == second {
            lemma_one_field(metadata, resolver, first, check_availability, name);
        } else {
            lemma_two_fields(metadata, resolver, first, second, check_availability, name);
        }
    }
}

/// Every relation field reaches the list that is meant for it, and nothing else
/// does: a package is required exactly if `Pre-Depends` or `Depends` selects it,
/// provided exactly if `Provides` names it, in conflict exactly if `Conflicts` or
/// `Breaks` names it, and replaced exactly if `Replaces` names it.
pub proof fn every_field_reaches_its_list(
    metadata: MetadataModel,
    resolver: ResolverModel,
    relations: RelationsModel,
)
    requires
        arch_relations(metadata, resolver) == Ok::<RelationsModel, Seq<char>>(relations),
    ensures
        exists|packages: Seq<SelectedModel>| #[trigger]
            comes_of_fields(
                relations.required,
                packages,
                metadata,
                resolver,
                RelationField::PreDepends,
                RelationField::Depends,
                true,
            ),
        exists|packages: Seq<SelectedModel>| #[trigger]
            comes_of_fields(
                relations.provides,
                packages,
                metadata,
                resolver,
                RelationField::Provides,
                RelationField::Provides,
                false,
            ),
        exists|packages: Seq<SelectedModel>| #[trigger]
            comes_of_fields(
                relations.conflicts,
                packages,
                metadata,
                resolver,
                RelationField::Conflicts,
                RelationField::Breaks,
                false,
            ),
        exists|packages: Seq<SelectedModel>| #[trigger]
            comes_of_fields(
                relations.replaces,
                packages,
                metadata,
                resolver,
                RelationField::Replaces,
                RelationField::Replaces,
                false,
            ),
{
    let required = field_groups(
        metadata,
        seq![RelationField::PreDepends, RelationField::Depends],
    )->Ok_0;
    let provided = field_groups(metadata, seq![RelationField::Provides])->Ok_0;
    let conflicting = field_groups(
        metadata,
        seq![RelationField::Conflicts, RelationField::Breaks],
    )->Ok_0;
    let replaced = field_groups(metadata, seq![RelationField::Replaces])->Ok_0;
    lemma_comes_of_fields(
        metadata,
        resolver,
        RelationField::PreDepends,
        RelationField::Depends,
        required,
        true,
    );
    assert(relations.required == resolver.resolution(required, true, None).dependencies);
    lemma_comes_of_fields(
        metadata,
        resolver,
        RelationField::Provides,
        RelationField::Provides,
        provided,
        false,
    );
    assert(relations.provides == resolver.resolution(provided, false, None).dependencies);
    lemma_comes_of_fields(
        metadata,
        resolver,
        RelationField::Conflicts,
        RelationField::Breaks,
        conflicting,
        false,
    );
    assert(relations.conflicts == resolver.resolution(conflicting, false, None).dependencies);
    lemma_comes_of_fields(
        metadata,
        resolver,
        RelationField::Replaces,
        RelationField::Replaces,
        replaced,
        false,
    );
    assert(relations.replaces == resolver.resolution(replaced, false, None).dependencies);
}

// ---------------------------------------------------------------------------
// Optional packages
// ---------------------------------------------------------------------------
proof fn lemma_filtered(list: Seq<Seq<char>>, pred: spec_fn(Seq<char>) -> bool, index: int)
    requires
        0 <= index < list.filter(pred).len(),
    ensures
        list.contains(list.filter(pred)[index]),
    decreases list.len(),
{
    reveal(Seq::filter);
    let before = list.drop_last().filter(pred);
    if index < before.len() {
        lemma_filtered(list.drop_last(), pred, index);
        let at = choose|at: int|
            0 <= at < list.len() - 1 && list.drop_last()[at] == before[index];
        assert(list[at] == before[index]);
    } else {
        assert(list[list.len() - 1] == list.last());
    }
}

/// The reason that an optional dependency of a field gives.
pub open spec fn optional_reason(field: RelationField) -> Seq<char> {
    if field == RelationField::Recommends {
        "recommended by the Debian package"@
    } else {
        "suggested by the Debian package"@
    }
}

/// The text is an optional dependency of a field.
pub open spec fn is_optional_text(
    text: Seq<char>,
    package: SelectedModel,
    metadata: MetadataModel,
    resolver: ResolverModel,
    field: RelationField,
) -> bool {
    &&& text == dependency_text(package, Some(optional_reason(field)))
    &&& field_selects(metadata, resolver, field, true, package.name)
}

/// Some required dependency names the same package as a text.
pub open spec fn is_required_package(required: Seq<Seq<char>>, text: Seq<char>) -> bool {
    exists|index: int|
        0 <= index < required.len() && dependency_name(#[trigger] required[index])
            == dependency_name(text)
}

proof fn lemma_optional_field(
    metadata: MetadataModel,
    resolver: ResolverModel,
    field: RelationField,
    groups: Seq<Seq<RelationModel>>,
    index: int,
)
    requires
        field_groups(metadata, seq![field]) == Ok::<Seq<Seq<RelationModel>>, Seq<char>>(groups),
        0 <= index < resolver.resolution(
            groups,
            true,
            Some(optional_reason(field)),
        ).dependencies.len(),
    ensures
        ({
            let package = resolver.after_groups(groups, true).selected[index];
            is_optional_text(
                resolver.resolution(groups, true, Some(optional_reason(field))).dependencies[index],
                package,
                metadata,
                resolver,
                field,
            )
        }),
{
    let reason = Some(optional_reason(field));
    let packages = resolver.after_groups(groups, true).selected;
    let name = packages[index].name;
    resolutions_list_the_selected_packages(resolver, groups, true, reason, name);
    assert(selected_names(packages)[index] == name);
    lemma_one_field(metadata, resolver, field, true, name);
}

/// A package that `Recommends` or `Suggests` selects is optional, with the reason
/// of its field, unless it is required; and nothing else is optional.
pub proof fn recommended_and_suggested_packages_are_optional(
    metadata: MetadataModel,
    resolver: ResolverModel,
    relations: RelationsModel,
    field: RelationField,
    name: Seq<char>,
    index: int,
)
    requires
        arch_relations(metadata, resolver) == Ok::<RelationsModel, Seq<char>>(relations),
        field == RelationField::Recommends || field == RelationField::Suggests,
    ensures
        field_selects(metadata, resolver, field, true, name) ==> exists|package: SelectedModel|
            package.name == name && {
                let text = #[trigger] dependency_text(package, Some(optional_reason(field)));
                relations.optional.contains(text) || is_required_package(relations.required, text)
            },
        0 <= index < relations.optional.len() ==> {
            &&& !is_required_package(relations.required, relations.optional[index])
            &&& exists|package: SelectedModel, source: RelationField|
                (source == RelationField::Recommends || source == RelationField::Suggests)
                    && #[trigger] is_optional_text(
                    relations.optional[index],
                    package,
                    metadata,
                    resolver,
                    source,
                )
        },
{
    let one = field_groups(metadata, seq![RelationField::Recommends])->Ok_0;
    let two = field_groups(metadata, seq![RelationField::Suggests])->Ok_0;
    let first = resolver.resolution(
        one,
        true,
        Some(optional_reason(RelationField::Recommends)),
    ).dependencies;
    let second = resolver.resolution(
        two,
        true,
        Some(optional_reason(RelationField::Suggests)),
    ).dependencies;
    let none = Seq::<Seq<char>>::empty();
    let start = with_all_unique(none, first);
    let all = with_all_unique(start, second);
    unique_additions_stay_unique(none, first);
    unique_additions_stay_unique(start, second);
    let required = relations.required;
    let pred = |value: Seq<char>| !set_of(dependency_names(required)).contains(
        dependency_name(value),
    );
    assert(relations.optional == all.filter(pred));
    assert forall|text: Seq<char>| set_of(dependency_names(required)).contains(
        #[trigger] dependency_name(text),
    ) <==> is_required_package(required, text) by {
        let names = dependency_names(required);
        if names.contains(dependency_name(text)) {
            let at = choose|at: int| 0 <= at < names.len() && names[at] == dependency_name(text);
            assert(dependency_name(required[at]) == dependency_name(text));
        }
        if is_required_package(required, text) {
            let at = choose|at: int|
                0 <= at < required.len() && dependency_name(#[trigger] required[at])
                    == dependency_name(text);
            assert(names[at] == dependency_name(text));
        }
    }
    if field_selects(metadata, resolver, field, true, name) {
        let groups = if field == RelationField::Recommends {
            one
        } else {
            two
        };
        let reason = optional_reason(field);
        let list = resolver.resolution(groups, true, Some(reason)).dependencies;
        lemma_one_field(metadata, resolver, field, true, name);
        resolutions_list_the_selected_packages(resolver, groups, true, Some(reason), name);
        let package = choose|package: SelectedModel|
            package.name == name && list.contains(
                #[trigger] dependency_text(package, Some(reason)),
            );
        let text = dependency_text(package, Some(reason));
        assert(list.to_set().contains(text));
        assert(all.to_set().contains(text));
        let at = choose|at: int| 0 <= at < all.len() && all[at] == text;
        if pred(text) {
            all.lemma_filter_contains(pred, at);
        }
    }
    if 0 <= index < relations.optional.len() {
        let text = relations.optional[index];
        all.lemma_filter_pred(pred, index);
        lemma_filtered(all, pred, index);
        assert(all.to_set().contains(text));
        if first.contains(text) {
            let at = choose|at: int| 0 <= at < first.len() && first[at] == text;
            lemma_optional_field(metadata, resolver, RelationField::Recommends, one, at);
        } else {
            assert(second.to_set().contains(text));
            let at = choose|at: int| 0 <= at < second.len() && second[at] == text;
            lemma_optional_field(metadata, resolver, RelationField::Suggests, two, at);
        }
    }
}

// ---------------------------------------------------------------------------
// Dependency texts
// ---------------------------------------------------------------------------
/// The character stands neither at the end of a package name nor around one.
pub open spec fn is_inner_character(character: char) -> bool {
    &&& !CharClass::WhiteSpace.has(character)
    &&& character != '<'
    &&& character != '>'
    &&& character != '='
    &&& character != ':'
}

proof fn lemma_trim_keeps(text: Seq<char>)
    requires
        forall|index: int| 0 <= index < text.len() ==> is_inner_character(#[trigger] text[index]),
    ensures
        trim(text) == text,
{
    if text.len() > 0 {
        assert(is_inner_character(text[0]));
        assert(is_inner_character(text[text.len() - 1]));
        assert(trim_start(text, CharClass::WhiteSpace) == text);
        assert(trim_end(text, CharClass::WhiteSpace) == text);
    }
}

/// The text starts with the sign of an operator and a version.
pub open spec fn starts_with_operator(
    text: Seq<char>,
    operator: VersionOperator,
    version: Seq<char>,
) -> bool {
    let length: int = if operator is LessOrEqual || operator is GreaterOrEqual {
        2
    } else {
        1
    };
    &&& text.len() >= length + version.len()
    &&& text.subrange(length, length + version.len()) == version
    &&& match operator {
        VersionOperator::LessThan => text[0] == '<',
        VersionOperator::LessOrEqual => text[0] == '<' && text[1] == '=',
        VersionOperator::Equal => text[0] == '=',
        VersionOperator::GreaterOrEqual => text[0] == '>' && text[1] == '=',
        VersionOperator::GreaterThan => text[0] == '>',
    }
}

/// A dependency starts with the name of its package, and the name is read back
/// from it.
pub proof fn dependencies_tell_their_package(package: SelectedModel, reason: Option<Seq<char>>)
    ensures
        ({
            let text = dependency_text(package, reason);
            let length = package.name.len() as int;
            &&& text.len() >= length
            &&& text.take(length) == package.name
            &&& text.len() > length ==> text[length] == '<' || text[length] == '>' || text[length]
                == '=' || text[length] == ':'
            &&& (package.version is None && reason is None) ==> text == package.name
            &&& package.version matches Some(limit) ==> starts_with_operator(
                text.skip(length),
                limit.operator,
                limit.version,
            )
            &&& reason matches Some(words) ==> trim(words).len() > 0 ==> {
                let bare = dependency_text(package, None);
                &&& text.len() == bare.len() + 2 + trim(words).len()
                &&& text.take(bare.len() as int) == bare
                &&& text[bare.len() as int] == ':'
                &&& text[bare.len() as int + 1] == ' '
                &&& text.skip(bare.len() as int + 2) == trim(words)
            }
            &&& (package.version is Some && reason is None) ==> {
                let version = package.version->0.version;
                &&& text.len() > length + version.len()
                &&& text.skip(text.len() - version.len()) == version
            }
            &&& (forall|index: int|
                0 <= index < length ==> is_inner_character(#[trigger] package.name[index]))
                ==> dependency_name(text) == package.name
        }),
{
    let text = dependency_text(package, reason);
    let name = package.name;
    let length = name.len() as int;
    reveal_strlit("<");
    reveal_strlit("<=");
    reveal_strlit("=");
    reveal_strlit(">=");
    reveal_strlit(">");
    reveal_strlit(": ");
    let rendered = dependency_text(package, None);
    assert(rendered.take(length) =~= name);
    assert(rendered.len() >= length);
    assert(text.take(length) =~= name);
    if let Some(limit) = package.version {
        let sign = limit.operator.arch_operator();
        assert(rendered.skip(rendered.len() - limit.version.len()) =~= limit.version);
        assert(text.skip(length).subrange(sign.len() as int, (sign.len() + limit.version.len()) as int)
            =~= limit.version);
        assert(text[length] == sign[0]);
        assert(sign.len() == 2 ==> text[length + 1] == sign[1]);
    }
    if let Some(words) = reason {
        assert(text.take(rendered.len() as int) =~= rendered);
        assert(trim(words).len() > 0 ==> text.skip(rendered.len() as int + 2) =~= trim(words));
    }
    if forall|index: int| 0 <= index < length ==> is_inner_character(#[trigger] name[index]) {
        assert forall|index: int| 0 <= index < length implies !CharClass::NameEnd.has(
            #[trigger] text[index],
        ) by {
            assert(text.take(length)[index] == name[index]);
            assert(is_inner_character(name[index]));
        }
        lemma_position_is(text, CharClass::NameEnd, length);
        lemma_trim_keeps(name);
    }
}

// ---------------------------------------------------------------------------
// Warnings
// ---------------------------------------------------------------------------
/// A relation field that becomes part of an Arch package.
pub open spec fn is_converted(field: RelationField) -> bool {
    field != RelationField::Enhances
}

/// The relations of a package are refused exactly if the text of a field that
/// becomes part of it cannot be read.
pub proof fn unreadable_fields_are_refused(metadata: MetadataModel, resolver: ResolverModel)
    ensures
        arch_relations(metadata, resolver) is Err <==> exists|field: RelationField|
            is_converted(field) && (#[trigger] listed_text(metadata.relations, field) matches Some(
                text,
            ) && relations_of(text) is Err),
{
    reveal_with_fuel(field_groups, 3);
    let lists = metadata.relations;
    assert(seq![RelationField::PreDepends, RelationField::Depends].drop_last()
        =~= seq![RelationField::PreDepends]);
    assert(seq![RelationField::Conflicts, RelationField::Breaks].drop_last()
        =~= seq![RelationField::Conflicts]);
    assert(seq![RelationField::PreDepends].drop_last() =~= seq![]);
    assert(seq![RelationField::Conflicts].drop_last() =~= seq![]);
    assert(seq![RelationField::Recommends].drop_last() =~= seq![]);
    assert(seq![RelationField::Suggests].drop_last() =~= seq![]);
    assert(seq![RelationField::Provides].drop_last() =~= seq![]);
    assert(seq![RelationField::Replaces].drop_last() =~= seq![]);
    let first = listed_text(lists, RelationField::PreDepends);
    let second = listed_text(lists, RelationField::Depends);
    let third = listed_text(lists, RelationField::Recommends);
    let fourth = listed_text(lists, RelationField::Suggests);
    let fifth = listed_text(lists, RelationField::Provides);
    let sixth = listed_text(lists, RelationField::Conflicts);
    let seventh = listed_text(lists, RelationField::Breaks);
    let eighth = listed_text(lists, RelationField::Replaces);
    if exists|field: RelationField|
        is_converted(field) && (#[trigger] listed_text(lists, field) matches Some(text)
            && relations_of(text) is Err) {
        let field = choose|field: RelationField|
            is_converted(field) && (#[trigger] listed_text(lists, field) matches Some(text)
                && relations_of(text) is Err);
        match field {
            RelationField::PreDepends => {},
            RelationField::Depends => {},
            RelationField::Recommends => {},
            RelationField::Suggests => {},
            RelationField::Enhances => {},
            RelationField::Provides => {},
            RelationField::Conflicts => {},
            RelationField::Breaks => {},
            RelationField::Replaces => {},
        }
    }
}

/// The fields are resolved as one list, with a choice by what the host knows or
/// without.
pub open spec fn is_resolved_list(fields: Seq<RelationField>, check_availability: bool) -> bool {
    ||| check_availability && fields == seq![RelationField::PreDepends, RelationField::Depends]
    ||| check_availability && fields == seq![RelationField::Recommends]
    ||| check_availability && fields == seq![RelationField::Suggests]
    ||| !check_availability && fields == seq![RelationField::Provides]
    ||| !check_availability && fields == seq![RelationField::Conflicts, RelationField::Breaks]
    ||| !check_availability && fields == seq![RelationField::Replaces]
}

proof fn lemma_kept(list: Seq<Seq<char>>, more: Seq<Seq<char>>, text: Seq<char>)
    ensures
        list.contains(text) || more.contains(text) ==> with_all_unique(list, more).contains(text),
    decreases more.len(),
{
    if more.len() > 0 {
        let fewer = more.drop_last();
        lemma_kept(list, fewer, text);
        let before = with_all_unique(list, fewer);
        let after = with_all_unique(list, more);
        if before.contains(text) {
            let at = choose|at: int| 0 <= at < before.len() && before[at] == text;
            assert(after[at] == text);
        } else if more.contains(text) {
            let at = choose|at: int| 0 <= at < more.len() && more[at] == text;
            if at < fewer.len() {
                assert(fewer[at] == text);
            }
            if !before.contains(more.last()) {
                assert(after[before.len() as int] == more.last());
            }
        }
    }
}

proof fn lemma_selections_kept(
    warnings: Seq<Seq<char>>,
    selections: Seq<SelectionModel>,
    text: Seq<char>,
    selection: SelectionModel,
)
    ensures
        warnings.contains(text) ==> with_selections(warnings, selections).contains(text),
        selections.contains(selection) ==> with_selections(warnings, selections).contains(
            selection_warning(selection),
        ),
    decreases selections.len(),
{
    if selections.len() > 0 {
        let fewer = selections.drop_last();
        lemma_selections_kept(warnings, fewer, text, selection);
        let before = with_selections(warnings, fewer);
        let after = with_selections(warnings, selections);
        let last = selection_warning(selections.last());
        if before.contains(text) {
            let at = choose|at: int| 0 <= at < before.len() && before[at] == text;
            assert(after[at] == text);
        }
        if before.contains(selection_warning(selection)) {
            let at = choose|at: int|
                0 <= at < before.len() && before[at] == selection_warning(selection);
            assert(after[at] == selection_warning(selection));
        }
        if !before.contains(last) {
            assert(after[before.len() as int] == last);
        }
        if selections.contains(selection) {
            let at = choose|at: int| 0 <= at < selections.len() && selections[at] == selection;
            if at < fewer.len() {
                assert(fewer[at] == selection);
            }
        }
    }
}

/// No warning is lost: whatever the resolution of a field warns of stands among
/// the warnings of the package, and so does each choice between alternatives.
pub proof fn every_warning_reaches_the_package(
    metadata: MetadataModel,
    resolver: ResolverModel,
    relations: RelationsModel,
    fields: Seq<RelationField>,
    check_availability: bool,
    groups: Seq<Seq<RelationModel>>,
    warning: Seq<char>,
    selection: SelectionModel,
)
    requires
        arch_relations(metadata, resolver) == Ok::<RelationsModel, Seq<char>>(relations),
        is_resolved_list(fields, check_availability),
        field_groups(metadata, fields) == Ok::<Seq<Seq<RelationModel>>, Seq<char>>(groups),
    ensures
        resolver.after_groups(groups, check_availability).warnings.contains(warning)
            ==> relations.warnings.contains(warning),
        resolver.after_groups(groups, check_availability).selections.contains(selection)
            ==> relations.warnings.contains(selection_warning(selection)),
{
    let one = resolver.after_groups(field_groups(metadata, required_fields())->Ok_0, true);
    let two = resolver.after_groups(
        field_groups(metadata, seq![RelationField::Recommends])->Ok_0,
        true,
    );
    let three = resolver.after_groups(
        field_groups(metadata, seq![RelationField::Suggests])->Ok_0,
        true,
    );
    let four = resolver.after_groups(
        field_groups(metadata, seq![RelationField::Provides])->Ok_0,
        false,
    );
    let five = resolver.after_groups(field_groups(metadata, conflict_fields())->Ok_0, false);
    let six = resolver.after_groups(
        field_groups(metadata, seq![RelationField::Replaces])->Ok_0,
        false,
    );
    let none = Seq::<Seq<char>>::empty();
    let first = with_all_unique(none, one.warnings);
    let second = with_all_unique(first, two.warnings);
    let third = with_all_unique(second, three.warnings);
    let fourth = with_all_unique(third, four.warnings);
    let fifth = with_all_unique(fourth, five.warnings);
    let sixth = with_all_unique(fifth, six.warnings);
    lemma_kept(none, one.warnings, warning);
    lemma_kept(first, two.warnings, warning);
    lemma_kept(second, three.warnings, warning);
    lemma_kept(third, four.warnings, warning);
    lemma_kept(fourth, five.warnings, warning);
    lemma_kept(fifth, six.warnings, warning);
    let start = Seq::<SelectionModel>::empty();
    let all = start + one.selections + two.selections + three.selections + four.selections
        + five.selections + six.selections;
    assert(relations.warnings == with_selections(sixth, all));
    lemma_selections_kept(sixth, all, warning, selection);
    let here = resolver.after_groups(groups, check_availability);
    if here.selections.contains(selection) {
        let at = choose|at: int|
            0 <= at < here.selections.len() && here.selections[at] == selection;
        let before: nat = if fields == required_fields() {
            0
        } else if fields == seq![RelationField::Recommends] {
            one.selections.len()
        } else if fields == seq![RelationField::Suggests] {
            one.selections.len() + two.selections.len()
        } else if fields == seq![RelationField::Provides] {
            one.selections.len() + two.selections.len() + three.selections.len()
        } else if fields == conflict_fields() {
            one.selections.len() + two.selections.len() + three.selections.len()
                + four.selections.len()
        } else {
            one.selections.len() + two.selections.len() + three.selections.len()
                + four.selections.len() + five.selections.len()
        };
        assert(seq![RelationField::Recommends][0] == RelationField::Recommends);
        assert(seq![RelationField::Suggests][0] == RelationField::Suggests);
        assert(seq![RelationField::Provides][0] == RelationField::Provides);
        assert(seq![RelationField::Replaces][0] == RelationField::Replaces);
        assert(required_fields()[0] == RelationField::PreDepends);
        assert(conflict_fields()[0] == RelationField::Conflicts);
        assert(all[before as int + at] == selection);
        assert(all.contains(selection));
    }
}

// ---------------------------------------------------------------------------
// Package files
// ---------------------------------------------------------------------------
/// The lines of a `.PKGINFO` file with a key name the packages that one of two
/// fields selects, and no others.
pub open spec fn lines_tell_fields(
    package: PackageModel,
    key: Seq<char>,
    packages: Seq<SelectedModel>,
    metadata: MetadataModel,
    resolver: ResolverModel,
    first: RelationField,
    second: RelationField,
    check_availability: bool,
) -> bool {
    &&& forall|value: Seq<char>| #[trigger]
        has_line(package, key, value) <==> exists|index: int|
            0 <= index < packages.len() && value == dependency_text(
                #[trigger] packages[index],
                None,
            )
    &&& forall|name: Seq<char>|
        #![trigger selected_names(packages).contains(name)]
        selected_names(packages).contains(name) <==> field_selects(
            metadata,
            resolver,
            first,
            check_availability,
            name,
        ) || field_selects(metadata, resolver, second, check_availability, name)
}

proof fn lemma_lines_tell_fields(
    package: PackageModel,
    key: Seq<char>,
    list: Seq<Seq<char>>,
    packages: Seq<SelectedModel>,
    metadata: MetadataModel,
    resolver: ResolverModel,
    first: RelationField,
    second: RelationField,
    check_availability: bool,
)
    requires
        comes_of_fields(list, packages, metadata, resolver, first, second, check_availability),
        forall|value: Seq<char>| #[trigger] has_line(package, key, value) <==> list.contains(value),
    ensures
        lines_tell_fields(
            package,
            key,
            packages,
            metadata,
            resolver,
            first,
            second,
            check_availability,
        ),
{
    assert forall|value: Seq<char>| #[trigger] has_line(package, key, value) <==> exists|index: int|
        0 <= index < packages.len() && value == dependency_text(#[trigger] packages[index], None) by {
        if list.contains(value) {
            let at = choose|at: int| 0 <= at < list.len() && list[at] == value;
            assert(value == dependency_text(packages[at], None));
        }
        if exists|index: int|
            0 <= index < packages.len() && value == dependency_text(
                #[trigger] packages[index],
                None,
            ) {
            let at = choose|at: int|
                0 <= at < packages.len() && value == dependency_text(#[trigger] packages[at], None);
            assert(list[at] == value);
        }
    }
}

/// A package stands on a `depend`, `provides`, `conflict` or `replaces` line of
/// the `.PKGINFO` file exactly if the Debian fields for that relation select it.
pub proof fn package_files_tell_the_debian_fields(
    metadata: MetadataModel,
    resolver: ResolverModel,
    relations: RelationsModel,
    installed_size: u64,
    backups: Seq<Seq<char>>,
    packager: Seq<char>,
    builddate: u64,
    package: PackageModel,
)
    requires
        arch_relations(metadata, resolver) == Ok::<RelationsModel, Seq<char>>(relations),
        package_of(metadata, relations, installed_size, backups, packager, builddate) == Ok::<
            PackageModel,
            Seq<char>,
        >(package),
    ensures
        exists|packages: Seq<SelectedModel>| #[trigger]
            lines_tell_fields(
                package,
                "depend"@,
                packages,
                metadata,
                resolver,
                RelationField::PreDepends,
                RelationField::Depends,
                true,
            ),
        exists|packages: Seq<SelectedModel>| #[trigger]
            lines_tell_fields(
                package,
                "provides"@,
                packages,
                metadata,
                resolver,
                RelationField::Provides,
                RelationField::Provides,
                false,
            ),
        exists|packages: Seq<SelectedModel>| #[trigger]
            lines_tell_fields(
                package,
                "conflict"@,
                packages,
                metadata,
                resolver,
                RelationField::Conflicts,
                RelationField::Breaks,
                false,
            ),
        exists|packages: Seq<SelectedModel>| #[trigger]
            lines_tell_fields(
                package,
                "replaces"@,
                packages,
                metadata,
                resolver,
                RelationField::Replaces,
                RelationField::Replaces,
                false,
            ),
{
    every_field_reaches_its_list(metadata, resolver, relations);
    packages_keep_their_sources(
        metadata,
        relations,
        installed_size,
        backups,
        packager,
        builddate,
    );
    assert forall|value: Seq<char>| #[trigger]
        has_line(package, "depend"@, value) <==> package.depends.contains(value) by {
        each_key_tells_its_own_part(package, value);
    }
    assert forall|value: Seq<char>| #[trigger]
        has_line(package, "provides"@, value) <==> package.provides.contains(value) by {
        each_key_tells_its_own_part(package, value);
    }
    assert forall|value: Seq<char>| #[trigger]
        has_line(package, "conflict"@, value) <==> package.conflicts.contains(value) by {
        each_key_tells_its_own_part(package, value);
    }
    assert forall|value: Seq<char>| #[trigger]
        has_line(package, "replaces"@, value) <==> package.replaces.contains(value) by {
        each_key_tells_its_own_part(package, value);
    }
    let depends = choose|packages: Seq<SelectedModel>| #[trigger]
        comes_of_fields(
            relations.required,
            packages,
            metadata,
            resolver,
            RelationField::PreDepends,
            RelationField::Depends,
            true,
        );
    lemma_lines_tell_fields(
        package,
        "depend"@,
        package.depends,
        depends,
        metadata,
        resolver,
        RelationField::PreDepends,
        RelationField::Depends,
        true,
    );
    let provides = choose|packages: Seq<SelectedModel>| #[trigger]
        comes_of_fields(
            relations.provides,
            packages,
            metadata,
            resolver,
            RelationField::Provides,
            RelationField::Provides,
            false,
        );
    lemma_lines_tell_fields(
        package,
        "provides"@,
        package.provides,
        provides,
        metadata,
        resolver,
        RelationField::Provides,
        RelationField::Provides,
        false,
    );
    let conflicts = choose|packages: Seq<SelectedModel>| #[trigger]
        comes_of_fields(
            relations.conflicts,
            packages,
            metadata,
            resolver,
            RelationField::Conflicts,
            RelationField::Breaks,
            false,
        );
    lemma_lines_tell_fields(
        package,
        "conflict"@,
        package.conflicts,
        conflicts,
        metadata,
        resolver,
        RelationField::Conflicts,
        RelationField::Breaks,
        false,
    );
    let replaces = choose|packages: Seq<SelectedModel>| #[trigger]
        comes_of_fields(
            relations.replaces,
            packages,
            metadata,
            resolver,
            RelationField::Replaces,
            RelationField::Replaces,
            false,
        );
    lemma_lines_tell_fields(
        package,
        "replaces"@,
        package.replaces,
        replaces,
        metadata,
        resolver,
        RelationField::Replaces,
        RelationField::Replaces,
        false,
    );
}

} // verus!
