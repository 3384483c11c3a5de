//! The Arch relations of a Debian package.

use vstd::prelude::*;
use vstd::slice::slice_subrange;

use crate::collection::TextSet;
use crate::control::metadata::{listed_text, DebianMetadata, MetadataModel, RelationField};
use crate::dependency::relation::{RelationModel, RelationSet};
use crate::dependency::relation_set::relations_of;
use crate::dependency::resolver::{
    empty_resolution, merged_resolution, AlternativeSelection, DependencyResolver, Resolution,
    ResolutionModel, ResolverModel, SelectionModel,
};
use crate::error::{outcome, Outcome, Result};
use crate::lists::{lemma_set_grows, push_all_unique, push_unique, set_of, with_all_unique, with_unique};
use crate::pieces::{find, join, joined_strings, position, trim, trimmed};
use crate::text::{chars, string, CharClass};

verus! {

/// The relations of an Arch package.
#[derive(Debug, Clone, PartialEq, Eq)]
pub struct ResolvedRelations {
    pub required: Vec<String>,
    pub optional: Vec<String>,
    pub provides: Vec<String>,
    pub conflicts: Vec<String>,
    pub replaces: Vec<String>,
    pub warnings: Vec<String>,
}

/// The mathematical value of [`ResolvedRelations`].
pub struct RelationsModel {
    pub required: Seq<Seq<char>>,
    pub optional: Seq<Seq<char>>,
    pub provides: Seq<Seq<char>>,
    pub conflicts: Seq<Seq<char>>,
    pub replaces: Seq<Seq<char>>,
    pub warnings: Seq<Seq<char>>,
}

impl DeepView for ResolvedRelations {
    type V = RelationsModel;

    open spec fn deep_view(&self) -> RelationsModel {
        RelationsModel {
            required: self.required.deep_view(),
            optional: self.optional.deep_view(),
            provides: self.provides.deep_view(),
            conflicts: self.conflicts.deep_view(),
            replaces: self.replaces.deep_view(),
            warnings: self.warnings.deep_view(),
        }
    }
}

// ---------------------------------------------------------------------------
// Optional dependencies
// ---------------------------------------------------------------------------
/// The package name of an Arch dependency.
pub open spec fn dependency_name(value: Seq<char>) -> Seq<char> {
    trim(value.take(position(value, CharClass::NameEnd) as int))
}

/// The package names of a list of Arch dependencies.
pub open spec fn dependency_names(list: Seq<Seq<char>>) -> Seq<Seq<char>> {
    list.map_values(|value: Seq<char>| dependency_name(value))
}

/// The optional dependencies whose packages are not required.
pub open spec fn not_required(required: Seq<Seq<char>>, optional: Seq<Seq<char>>) -> Seq<Seq<char>> {
    optional.filter(
        |value: Seq<char>| !set_of(dependency_names(required)).contains(dependency_name(value)),
    )
}

fn relation_package_name(value: &str) -> (result: String)
    ensures
        result@ == dependency_name(value@),
{
    let characters = chars(value);
    let end = find(characters.as_slice(), CharClass::NameEnd);
    let name = slice_subrange(characters.as_slice(), 0, end);
    assert(name@ == value@.take(end as int));
    string(trimmed(name))
}

fn name_set(list: &Vec<String>) -> (result: TextSet)
    ensures
        result@ == set_of(dependency_names(list.deep_view())),
{
    let ghost names = dependency_names(list.deep_view());
    let mut set = TextSet::new();
    assert(set@ =~= names.take(0).to_set());
    for index in 0..list.len()
        invariant
            names == dependency_names(list.deep_view()),
            set@ == names.take(index as int).to_set(),
    {
        let name = relation_package_name(list[index].as_str());
        proof {
            assert(names[index as int] == name@);
            lemma_set_grows(names, index as int);
        }
        set.insert(name);
    }
    assert(names.take(names.len() as int) == names);
    set
}

/// Remove the optional dependencies whose packages are required.
pub fn remove_required_optional(required: &Vec<String>, optional: &Vec<String>) -> (result: Vec<
    String,
>)
    ensures
        result.deep_view() == not_required(required.deep_view(), optional.deep_view()),
{
    let names = name_set(required);
    let ghost needed = required.deep_view();
    let ghost all = optional.deep_view();
    let mut kept: Vec<String> = Vec::new();
    assert(kept.deep_view() =~= not_required(needed, all.take(0))) by {
        reveal(Seq::filter);
    }
    for index in 0..optional.len()
        invariant
            needed == required.deep_view(),
            all == optional.deep_view(),
            names@ == set_of(dependency_names(needed)),
            kept.deep_view() == not_required(needed, all.take(index as int)),
    {
        let ghost before = kept.deep_view();
        proof {
            assert(all.take(index + 1).drop_last() == all.take(index as int));
            assert(all.take(index + 1).last() == optional@[index as int]@);
            reveal(Seq::filter);
        }
        let name = relation_package_name(optional[index].as_str());
        if !names.contains(name.as_str()) {
            let text = optional[index].clone();
            kept.push(text);
            assert(kept.deep_view() =~= before.push(text@));
        }
    }
    assert(all.take(all.len() as int) == all);
    kept
}

/// Join two lists without duplicates.
pub fn unique_joined(left: &Vec<String>, right: &Vec<String>) -> (result: Vec<String>)
    ensures
        result.deep_view() == with_all_unique(
            with_all_unique(seq![], left.deep_view()),
            right.deep_view(),
        ),
{
    let mut joined: Vec<String> = Vec::new();
    assert(joined.deep_view() =~= seq![]);
    push_all_unique(&mut joined, left);
    push_all_unique(&mut joined, right);
    joined
}

// ---------------------------------------------------------------------------
// Relations
// ---------------------------------------------------------------------------
/// The relation groups of some fields of a package.
pub open spec fn field_groups(metadata: MetadataModel, fields: Seq<RelationField>) -> Outcome<
    Seq<Seq<RelationModel>>,
>
    decreases fields.len(),
{
    if fields.len() == 0 {
        Ok(seq![])
    } else {
        match field_groups(metadata, fields.drop_last()) {
            Err(message) => Err(message),
            Ok(groups) => match listed_text(metadata.relations, fields.last()) {
                None => Ok(groups),
                Some(source) => match relations_of(source) {
                    Err(message) => Err(message),
                    Ok(more) => Ok(groups + more),
                },
            },
        }
    }
}

/// The fields that become required dependencies.
pub open spec fn required_fields() -> Seq<RelationField> {
    seq![RelationField::PreDepends, RelationField::Depends]
}

/// The fields that become conflicts.
pub open spec fn conflict_fields() -> Seq<RelationField> {
    seq![RelationField::Conflicts, RelationField::Breaks]
}

/// The warning about a choice between alternatives.
pub open spec fn selection_warning(selection: SelectionModel) -> Seq<char> {
    "Selected '"@ + selection.selected + "' from Debian alternatives; other choices were: "@ + join(
        selection.other_choices,
        ", "@,
    ) + "."@
}

/// Warnings with those about choices between alternatives.
pub open spec fn with_selections(warnings: Seq<Seq<char>>, selections: Seq<SelectionModel>) -> Seq<
    Seq<char>,
>
    decreases selections.len(),
{
    if selections.len() == 0 {
        warnings
    } else {
        with_unique(
            with_selections(warnings, selections.drop_last()),
            selection_warning(selections.last()),
        )
    }
}

/// The resolutions of the relation fields, in the order of their merge.
pub struct FieldResolutions {
    pub required: ResolutionModel,
    pub recommended: ResolutionModel,
    pub suggested: ResolutionModel,
    pub provides: ResolutionModel,
    pub conflicts: ResolutionModel,
    pub replaces: ResolutionModel,
}

/// All resolutions as one.
pub open spec fn merged_fields(fields: FieldResolutions) -> ResolutionModel {
    merged_resolution(
        merged_resolution(
            merged_resolution(
                merged_resolution(
                    merged_resolution(
                        merged_resolution(empty_resolution(), fields.required),
                        fields.recommended,
                    ),
                    fields.suggested,
                ),
                fields.provides,
            ),
            fields.conflicts,
        ),
        fields.replaces,
    )
}

/// The relations that resolutions give.
pub open spec fn relations_of_fields(fields: FieldResolutions) -> RelationsModel {
    let all = merged_fields(fields);
    RelationsModel {
        required: fields.required.dependencies,
        optional: not_required(
            fields.required.dependencies,
            with_all_unique(
                with_all_unique(seq![], fields.recommended.dependencies),
                fields.suggested.dependencies,
            ),
        ),
        provides: fields.provides.dependencies,
        conflicts: fields.conflicts.dependencies,
        replaces: fields.replaces.dependencies,
        warnings: with_selections(all.warnings, all.selections),
    }
}

/// The resolution of the groups of some fields, or the fault of a field.
pub open spec fn resolved_fields(
    metadata: MetadataModel,
    resolver: ResolverModel,
    fields: Seq<RelationField>,
    check_availability: bool,
    reason: Option<Seq<char>>,
) -> Outcome<ResolutionModel> {
    match field_groups(metadata, fields) {
        Err(message) => Err(message),
        Ok(groups) => Ok(resolver.resolution(groups, check_availability, reason)),
    }
}

/// The Arch relations of a Debian package.
pub open spec fn arch_relations(metadata: MetadataModel, resolver: ResolverModel) -> Outcome<
    RelationsModel,
> {
    match resolved_fields(metadata, resolver, required_fields(), true, None) {
        Err(message) => Err(message),
        Ok(required) => match resolved_fields(
            metadata,
            resolver,
            seq![RelationField::Recommends],
            true,
            Some("recommended by the Debian package"@),
        ) {
            Err(message) => Err(message),
            Ok(recommended) => match resolved_fields(
                metadata,
                resolver,
                seq![RelationField::Suggests],
                true,
                Some("suggested by the Debian package"@),
            ) {
                Err(message) => Err(message),
                Ok(suggested) => match resolved_fields(
                    metadata,
                    resolver,
                    seq![RelationField::Provides],
                    false,
                    None,
                ) {
                    Err(message) => Err(message),
                    Ok(provides) => match resolved_fields(
                        metadata,
                        resolver,
                        conflict_fields(),
                        false,
                        None,
                    ) {
                        Err(message) => Err(message),
                        Ok(conflicts) => match resolved_fields(
                            metadata,
                            resolver,
                            seq![RelationField::Replaces],
                            false,
                            None,
                        ) {
                            Err(message) => Err(message),
                            Ok(replaces) => Ok(
                                relations_of_fields(
                                    FieldResolutions {
                                        required,
                                        recommended,
                                        suggested,
                                        provides,
                                        conflicts,
                                        replaces,
                                    },
                                ),
                            ),
                        },
                    },
                },
            },
        },
    }
}

proof fn lemma_fields_prefix(metadata: MetadataModel, fields: Seq<RelationField>, length: int)
    requires
        0 <= length <= fields.len(),
        field_groups(metadata, fields.take(length)) is Err,
    ensures
        field_groups(metadata, fields) == field_groups(metadata, fields.take(length)),
    decreases fields.len(),
{
    if length < fields.len() {
        assert(fields.drop_last().take(length) == fields.take(length));
        lemma_fields_prefix(metadata, fields.drop_last(), length);
    } else {
        assert(fields.take(length) == fields);
    }
}

fn collect_relations(metadata: &DebianMetadata, fields: &[RelationField]) -> (result: Result<
    RelationSet,
>)
    ensures
        outcome(result) == field_groups(metadata.deep_view(), fields@),
{
    let ghost model = metadata.deep_view();
    let mut set = RelationSet::empty();
    for index in 0..fields.len()
        invariant
            model == metadata.deep_view(),
            field_groups(model, fields@.take(index as int)) == Ok::<
                Seq<Seq<RelationModel>>,
                Seq<char>,
            >(set.deep_view()),
    {
        proof {
            assert(fields@.take(index + 1).drop_last() == fields@.take(index as int));
            assert(fields@.take(index + 1).last() == fields@[index as int]);
            if field_groups(model, fields@.take(index + 1)) is Err {
                lemma_fields_prefix(model, fields@, index + 1);
            }
        }
        if let Some(source) = metadata.relation_source(fields[index]) {
            set.append(RelationSet::parse(source)?);
        }
    }
    assert(fields@.take(fields@.len() as int) == fields@);
    Ok(set)
}

fn push_selections(warnings: &mut Vec<String>, selections: &Vec<AlternativeSelection>)
    ensures
        final(warnings).deep_view() == with_selections(
            old(warnings).deep_view(),
            selections.deep_view(),
        ),
{
    let ghost start = warnings.deep_view();
    let ghost all = selections.deep_view();
    for index in 0..selections.len()
        invariant
            all == selections.deep_view(),
            warnings.deep_view() == with_selections(start, all.take(index as int)),
    {
        let selection = &selections[index];
        proof {
            assert(all.take(index + 1).drop_last() == all.take(index as int));
            assert(all.take(index + 1).last() == selection.deep_view());
        }
        let text = String::from_str("Selected '").concat(selection.selected.as_str()).concat(
            "' from Debian alternatives; other choices were: ",
        ).concat(joined_strings(&selection.other_choices, ", ").as_str()).concat(".");
        push_unique(warnings, text);
    }
    assert(all.take(all.len() as int) == all);
}

proof fn lemma_selections_concat(
    warnings: Seq<Seq<char>>,
    first: Seq<SelectionModel>,
    second: Seq<SelectionModel>,
)
    ensures
        with_selections(with_selections(warnings, first), second) == with_selections(
            warnings,
            first + second,
        ),
    decreases second.len(),
{
    if second.len() == 0 {
        assert(first + second =~= first);
    } else {
        lemma_selections_concat(warnings, first, second.drop_last());
        assert((first + second).drop_last() =~= first + second.drop_last());
        assert((first + second).last() == second.last());
    }
}

/// The six resolutions of a package.
struct Resolutions {
    required: Resolution,
    recommended: Resolution,
    suggested: Resolution,
    provides: Resolution,
    conflicts: Resolution,
    replaces: Resolution,
}

impl DeepView for Resolutions {
    type V = FieldResolutions;

    closed spec fn deep_view(&self) -> FieldResolutions {
        FieldResolutions {
            required: self.required.deep_view(),
            recommended: self.recommended.deep_view(),
            suggested: self.suggested.deep_view(),
            provides: self.provides.deep_view(),
            conflicts: self.conflicts.deep_view(),
            replaces: self.replaces.deep_view(),
        }
    }
}

fn collect_warnings(all: &Resolutions) -> (result: Vec<String>)
    ensures
        result.deep_view() == with_selections(
            merged_fields(all.deep_view()).warnings,
            merged_fields(all.deep_view()).selections,
        ),
{
    let mut warnings: Vec<String> = Vec::new();
    assert(warnings.deep_view() =~= seq![]);
    push_all_unique(&mut warnings, &all.required.warnings);
    push_all_unique(&mut warnings, &all.recommended.warnings);
    push_all_unique(&mut warnings, &all.suggested.warnings);
    push_all_unique(&mut warnings, &all.provides.warnings);
    push_all_unique(&mut warnings, &all.conflicts.warnings);
    push_all_unique(&mut warnings, &all.replaces.warnings);
    let ghost merged = merged_fields(all.deep_view());
    let ghost start = warnings.deep_view();
    assert(start == merged.warnings);
    let ghost one = all.required.deep_view().selections;
    let ghost two = all.recommended.deep_view().selections;
    let ghost three = all.suggested.deep_view().selections;
    let ghost four = all.provides.deep_view().selections;
    let ghost five = all.conflicts.deep_view().selections;
    let ghost six = all.replaces.deep_view().selections;
    push_selections(&mut warnings, &all.required.alternative_selections);
    push_selections(&mut warnings, &all.recommended.alternative_selections);
    push_selections(&mut warnings, &all.suggested.alternative_selections);
    push_selections(&mut warnings, &all.provides.alternative_selections);
    push_selections(&mut warnings, &all.conflicts.alternative_selections);
    push_selections(&mut warnings, &all.replaces.alternative_selections);
    proof {
        let empty = Seq::<SelectionModel>::empty();
        assert(empty + one =~= one);
        lemma_selections_concat(start, one, two);
        lemma_selections_concat(start, one + two, three);
        lemma_selections_concat(start, one + two + three, four);
        lemma_selections_concat(start, one + two + three + four, five);
        lemma_selections_concat(start, one + two + three + four + five, six);
        assert(merged.selections =~= one + two + three + four + five + six);
    }
    warnings
}

/// Resolve all relation fields of a Debian package.
pub fn resolve_relations(metadata: &DebianMetadata, resolver: &DependencyResolver<'_>) -> (result:
    Result<ResolvedRelations>)
    ensures
        outcome(result) == arch_relations(metadata.deep_view(), resolver@),
{
    let required_list: [RelationField; 2] = [RelationField::PreDepends, RelationField::Depends];
    let recommended_list: [RelationField; 1] = [RelationField::Recommends];
    let suggested_list: [RelationField; 1] = [RelationField::Suggests];
    let provides_list: [RelationField; 1] = [RelationField::Provides];
    let conflicts_list: [RelationField; 2] = [RelationField::Conflicts, RelationField::Breaks];
    let replaces_list: [RelationField; 1] = [RelationField::Replaces];
    proof {
        assert(required_list@ =~= required_fields());
        assert(recommended_list@ =~= seq![RelationField::Recommends]);
        assert(suggested_list@ =~= seq![RelationField::Suggests]);
        assert(provides_list@ =~= seq![RelationField::Provides]);
        assert(conflicts_list@ =~= conflict_fields());
        assert(replaces_list@ =~= seq![RelationField::Replaces]);
    }
    let required_set = collect_relations(metadata, vstd::array::array_as_slice(&required_list))?;
    let required = resolver.resolve_required(&required_set);
    let recommended_set = collect_relations(
        metadata,
        vstd::array::array_as_slice(&recommended_list),
    )?;
    let recommended = resolver.resolve_optional(
        &recommended_set,
        "recommended by the Debian package",
    );
    let suggested_set = collect_relations(metadata, vstd::array::array_as_slice(&suggested_list))?;
    let suggested = resolver.resolve_optional(&suggested_set, "suggested by the Debian package");
    let provides_set = collect_relations(metadata, vstd::array::array_as_slice(&provides_list))?;
    let provides = resolver.resolve_names(&provides_set);
    let conflicts_set = collect_relations(metadata, vstd::array::array_as_slice(&conflicts_list))?;
    let conflicts = resolver.resolve_names(&conflicts_set);
    let replaces_set = collect_relations(metadata, vstd::array::array_as_slice(&replaces_list))?;
    let replaces = resolver.resolve_names(&replaces_set);
    let all = Resolutions { required, recommended, suggested, provides, conflicts, replaces };
    let warnings = collect_warnings(&all);
    let optional = unique_joined(&all.recommended.dependencies, &all.suggested.dependencies);
    let optional = remove_required_optional(&all.required.dependencies, &optional);
    Ok(
        ResolvedRelations {
            required: all.required.dependencies,
            optional,
            provides: all.provides.dependencies,
            conflicts: all.conflicts.dependencies,
            replaces: all.replaces.dependencies,
            warnings,
        },
    )
}

// ---------------------------------------------------------------------------
// Laws
// ---------------------------------------------------------------------------
/// No optional dependency names a package that is required.
pub proof fn optional_packages_are_not_required(
    required: Seq<Seq<char>>,
    optional: Seq<Seq<char>>,
    index: int,
    place: int,
)
    requires
        0 <= index < not_required(required, optional).len(),
        0 <= place < required.len(),
    ensures
        dependency_name(not_required(required, optional)[index]) != dependency_name(
            required[place],
        ),
{
    let names = dependency_names(required);
    optional.lemma_filter_pred(
        |value: Seq<char>| !set_of(names).contains(dependency_name(value)),
        index,
    );
    assert(names[place] == dependency_name(required[place]));
    assert(names.contains(names[place]));
}

} // verus!
