//! The selection of Arch packages for Debian relations.

use vstd::prelude::*;

use crate::collection::{TextMap, TextSet};
use crate::dependency::catalog::{CatalogModel, PackageCatalog};
use crate::dependency::constraint::{limit_text, merge_constraints, merged_limit, write_limit};
use crate::dependency::mapping::{
    built_in_name, built_in_package_mapping, MappingModel, PackageMapping,
};
use crate::dependency::relation::{
    bad_relation_name, is_package_name, validate_relation_name, ConstraintModel, PackageQualifier,
    QualifierModel, Relation, RelationGroup, RelationModel, RelationSet, VersionConstraint,
};
use crate::dependency::relation_set::{
    counts_for_architecture, counts_for_profiles, relations_of,
};
use crate::error::{outcome, AppError, Outcome, Result};
use crate::lists::{
    begins_with_list, copied, first_place, push_all_unique, push_unique, set_of, slice_set,
    str_views, unique_additions_keep_the_start, unique_additions_keep_their_order,
    unique_additions_stay_unique, with_all_unique, with_unique,
};
use crate::pieces::{trim, trimmed};
use crate::text::{alphanumeric, chars, equal, is_alphanumeric, string};

verus! {

// ---------------------------------------------------------------------------
// Results
// ---------------------------------------------------------------------------
/// The selected package and the unused alternatives from one relation group.
#[derive(Clone, Debug, PartialEq, Eq)]
pub struct AlternativeSelection {
    pub selected: String,
    pub other_choices: Vec<String>,
}

/// Deterministic dependency resolution output.
#[derive(Clone, Debug, PartialEq, Eq)]
pub struct Resolution {
    /// Arch dependency strings in first-occurrence order.
    pub dependencies: Vec<String>,
    /// Conversion warnings in stable order, without duplicates.
    pub warnings: Vec<String>,
    /// Decisions for groups that had more than one active alternative.
    pub alternative_selections: Vec<AlternativeSelection>,
}

/// The mathematical value of an [`AlternativeSelection`].
pub struct SelectionModel {
    pub selected: Seq<char>,
    pub other_choices: Seq<Seq<char>>,
}

/// The mathematical value of a [`Resolution`].
pub struct ResolutionModel {
    pub dependencies: Seq<Seq<char>>,
    pub warnings: Seq<Seq<char>>,
    pub selections: Seq<SelectionModel>,
}

impl DeepView for AlternativeSelection {
    type V = SelectionModel;

    open spec fn deep_view(&self) -> SelectionModel {
        SelectionModel {
            selected: self.selected@,
            other_choices: self.other_choices.deep_view(),
        }
    }
}

impl DeepView for Resolution {
    type V = ResolutionModel;

    open spec fn deep_view(&self) -> ResolutionModel {
        ResolutionModel {
            dependencies: self.dependencies.deep_view(),
            warnings: self.warnings.deep_view(),
            selections: self.alternative_selections.deep_view(),
        }
    }
}

/// Two resolution results as one, without duplicate dependencies and warnings.
pub open spec fn merged_resolution(first: ResolutionModel, second: ResolutionModel) -> ResolutionModel {
    ResolutionModel {
        dependencies: with_all_unique(first.dependencies, second.dependencies),
        warnings: with_all_unique(first.warnings, second.warnings),
        selections: first.selections + second.selections,
    }
}

/// The result of a resolution of nothing.
pub open spec fn empty_resolution() -> ResolutionModel {
    ResolutionModel { dependencies: seq![], warnings: seq![], selections: seq![] }
}

impl Default for Resolution {
    fn default() -> (result: Self)
        ensures
            result.deep_view() == empty_resolution(),
    {
        let result = Resolution {
            dependencies: Vec::new(),
            warnings: Vec::new(),
            alternative_selections: Vec::new(),
        };
        assert(result.deep_view().dependencies =~= seq![]);
        assert(result.deep_view().warnings =~= seq![]);
        assert(result.deep_view().selections =~= seq![]);
        result
    }
}

impl Resolution {
    /// Add another result and remove duplicate output strings and warnings.
    pub fn merge(&mut self, other: Self)
        ensures
            final(self).deep_view() == merged_resolution(old(self).deep_view(), other.deep_view()),
    {
        let ghost first = self.alternative_selections.deep_view();
        push_all_unique(&mut self.dependencies, &other.dependencies);
        push_all_unique(&mut self.warnings, &other.warnings);
        let mut selections = other.alternative_selections;
        self.alternative_selections.append(&mut selections);
        assert(self.alternative_selections.deep_view() =~= first
            + other.alternative_selections.deep_view());
    }
}

// ---------------------------------------------------------------------------
// Candidates
// ---------------------------------------------------------------------------
/// What the resolution of relations depends on.
pub struct ResolverModel {
    pub catalog: CatalogModel,
    pub target: Seq<char>,
    pub profiles: Set<Seq<char>>,
    pub mappings: Map<Seq<char>, MappingModel>,
}

/// An Arch package that can stand for a relation.
pub struct CandidateModel {
    pub name: Seq<char>,
    pub original_name: Seq<char>,
    pub version: Option<ConstraintModel>,
    pub unknown_mapping: bool,
    pub dropped_version: bool,
}

/// A package that was selected, with its version limit.
pub struct SelectedModel {
    pub name: Seq<char>,
    pub version: Option<ConstraintModel>,
}

impl ResolverModel {
    /// The mapping of a Debian name: a custom one, a built-in one, or the same
    /// name.
    pub open spec fn mapping_of(self, name: Seq<char>) -> MappingModel {
        if self.mappings.contains_key(name) {
            self.mappings[name]
        } else {
            match built_in_name(name) {
                Some(arch_name) => MappingModel { arch_name, version_compatible: false },
                None => MappingModel { arch_name: name, version_compatible: false },
            }
        }
    }

    /// The name has a mapping, or pacman knows it.
    pub open spec fn mapping_is_known(self, name: Seq<char>) -> bool {
        self.mappings.contains_key(name) || built_in_name(name) is Some || self.catalog.knows(name)
    }

    /// The Arch package that stands for a relation.
    pub open spec fn candidate_of(self, relation: RelationModel) -> CandidateModel {
        let mapping = self.mapping_of(relation.name);
        CandidateModel {
            name: mapping.arch_name,
            original_name: relation.name,
            version: if mapping.version_compatible {
                relation.version
            } else {
                None
            },
            unknown_mapping: !self.mapping_is_known(relation.name),
            dropped_version: relation.version is Some && !mapping.version_compatible,
        }
    }

    /// The relation counts for the target architecture and the profiles.
    pub open spec fn is_active(self, relation: RelationModel) -> bool {
        counts_for_architecture(relation, self.target) && counts_for_profiles(
            relation,
            self.profiles,
        )
    }

    /// The alternatives of a group that count.
    pub open spec fn active_of(self, group: Seq<RelationModel>) -> Seq<RelationModel> {
        group.filter(|relation: RelationModel| self.is_active(relation))
    }

    /// The Arch packages that can stand for the alternatives of a group.
    pub open spec fn candidates_of(self, group: Seq<RelationModel>) -> Seq<CandidateModel> {
        self.active_of(group).map_values(|relation: RelationModel| self.candidate_of(relation))
    }

    /// The preferred candidate: the first one that is installed, else the
    /// first one that is available, else the first one.
    pub open spec fn preferred(self, candidates: Seq<CandidateModel>) -> int {
        let installed = first_in(candidates, self.catalog.installed);
        let available = first_in(candidates, self.catalog.available);
        if installed < candidates.len() {
            installed
        } else if available < candidates.len() {
            available
        } else {
            0
        }
    }
}

/// The position of the first candidate whose name is in a set, or the number
/// of the candidates.
pub open spec fn first_in(candidates: Seq<CandidateModel>, names: Set<Seq<char>>) -> int
    decreases candidates.len(),
{
    if candidates.len() == 0 || names.contains(candidates[0].name) {
        0
    } else {
        1 + first_in(candidates.drop_first(), names)
    }
}

/// The names of all candidates but one.
pub open spec fn other_names(candidates: Seq<CandidateModel>, selected: int) -> Seq<Seq<char>> {
    candidates.remove(selected).map_values(|candidate: CandidateModel| candidate.name)
}

// ---------------------------------------------------------------------------
// Resolution
// ---------------------------------------------------------------------------
/// The state of a resolution after some groups.
pub struct Progress {
    pub warnings: Seq<Seq<char>>,
    pub selections: Seq<SelectionModel>,
    pub selected: Seq<SelectedModel>,
}

/// A list with a text, when a condition holds and the list does not hold it.
pub open spec fn with_unique_if(
    list: Seq<Seq<char>>,
    condition: bool,
    text: Seq<char>,
) -> Seq<Seq<char>> {
    if condition {
        with_unique(list, text)
    } else {
        list
    }
}

pub open spec fn unknown_name_warning(name: Seq<char>) -> Seq<char> {
    "no Debian-to-Arch mapping is known for '"@ + name + "'; kept the same package name"@
}

pub open spec fn dropped_version_warning(name: Seq<char>) -> Seq<char> {
    "dropped the Debian version constraint for '"@ + name
        + "' because Arch versions are not marked compatible"@
}

pub open spec fn qualifier_warning(name: Seq<char>) -> Seq<char> {
    "removed the foreign architecture qualifier from '"@ + name + "'"@
}

pub open spec fn unavailable_warning(name: Seq<char>) -> Seq<char> {
    "selected Arch dependency '"@ + name
        + "' is not installed or available in the local pacman databases"@
}

/// The relation names a foreign architecture.
pub open spec fn has_foreign_qualifier(relation: RelationModel) -> bool {
    relation.qualifier matches Some(QualifierModel::Architecture(_))
}

/// The position of a package among the selected ones, or their number.
pub open spec fn selected_position(selected: Seq<SelectedModel>, name: Seq<char>) -> int
    decreases selected.len(),
{
    if selected.len() == 0 || selected[0].name == name {
        0
    } else {
        1 + selected_position(selected.drop_first(), name)
    }
}

impl ResolverModel {
    /// The warnings after the selection of one candidate.
    pub open spec fn selection_warnings(
        self,
        warnings: Seq<Seq<char>>,
        relation: RelationModel,
        candidate: CandidateModel,
        check_availability: bool,
    ) -> Seq<Seq<char>> {
        let original = candidate.original_name;
        let first = with_unique_if(
            warnings,
            candidate.unknown_mapping,
            unknown_name_warning(original),
        );
        let second = with_unique_if(
            first,
            candidate.dropped_version,
            dropped_version_warning(original),
        );
        let third = with_unique_if(
            second,
            has_foreign_qualifier(relation),
            qualifier_warning(original),
        );
        with_unique_if(
            third,
            check_availability && self.catalog.availability_known && self.catalog.installed_known
                && !self.catalog.knows(candidate.name),
            unavailable_warning(candidate.name),
        )
    }

    /// The state after one more group.
    pub open spec fn after_group(
        self,
        group: Seq<RelationModel>,
        check_availability: bool,
        progress: Progress,
    ) -> Progress {
        let active = self.active_of(group);
        let candidates = self.candidates_of(group);
        if active.len() == 0 {
            progress
        } else {
            let index = if check_availability {
                self.preferred(candidates)
            } else {
                0
            };
            let candidate = candidates[index];
            let selections = if candidates.len() > 1 {
                progress.selections.push(
                    SelectionModel {
                        selected: candidate.name,
                        other_choices: other_names(candidates, index),
                    },
                )
            } else {
                progress.selections
            };
            let warnings = self.selection_warnings(
                progress.warnings,
                active[index],
                candidate,
                check_availability,
            );
            let at = selected_position(progress.selected, candidate.name);
            if at < progress.selected.len() {
                let (version, warning) = merged_limit(
                    progress.selected[at].version,
                    candidate.version,
                );
                Progress {
                    warnings: match warning {
                        Some(text) => with_unique(warnings, text),
                        None => warnings,
                    },
                    selections,
                    selected: progress.selected.update(
                        at,
                        SelectedModel { name: candidate.name, version },
                    ),
                }
            } else {
                Progress {
                    warnings,
                    selections,
                    selected: progress.selected.push(
                        SelectedModel { name: candidate.name, version: candidate.version },
                    ),
                }
            }
        }
    }

    /// The state after a list of groups.
    pub open spec fn after_groups(
        self,
        groups: Seq<Seq<RelationModel>>,
        check_availability: bool,
    ) -> Progress
        decreases groups.len(),
    {
        if groups.len() == 0 {
            Progress { warnings: self.catalog.warnings, selections: seq![], selected: seq![] }
        } else {
            self.after_group(
                groups.last(),
                check_availability,
                self.after_groups(groups.drop_last(), check_availability),
            )
        }
    }

    /// The resolution of a list of groups.
    pub open spec fn resolution(
        self,
        groups: Seq<Seq<RelationModel>>,
        check_availability: bool,
        reason: Option<Seq<char>>,
    ) -> ResolutionModel {
        let progress = self.after_groups(groups, check_availability);
        ResolutionModel {
            dependencies: progress.selected.map_values(
                |selected: SelectedModel| dependency_text(selected, reason),
            ),
            warnings: progress.warnings,
            selections: progress.selections,
        }
    }
}

/// A selected package as an Arch dependency, with an optional reason.
pub open spec fn dependency_text(selected: SelectedModel, reason: Option<Seq<char>>) -> Seq<char> {
    let rendered = match selected.version {
        None => selected.name,
        Some(limit) => selected.name + limit_text(limit),
    };
    match reason {
        Some(text) => if trim(text).len() == 0 {
            rendered
        } else {
            rendered + ": "@ + trim(text)
        },
        None => rendered,
    }
}

// ---------------------------------------------------------------------------
// Resolver
// ---------------------------------------------------------------------------
/// The rule for Arch package names.
pub open spec fn is_arch_package_name(name: Seq<char>) -> bool {
    name.len() > 0 && forall|index: int|
        0 <= index < name.len() ==> is_arch_name_character(#[trigger] name[index])
}

pub open spec fn is_arch_name_character(character: char) -> bool {
    ||| is_alphanumeric(character)
    ||| character == '@'
    ||| character == '.'
    ||| character == '_'
    ||| character == '+'
    ||| character == '-'
}

pub fn arch_package_name(name: &[char]) -> (result: bool)
    ensures
        result == is_arch_package_name(name@),
{
    if name.len() == 0 {
        return false;
    }
    for index in 0..name.len()
        invariant
            forall|at: int| 0 <= at < index ==> is_arch_name_character(#[trigger] name@[at]),
    {
        let character = name[index];
        if !(alphanumeric(character) || character == '@' || character == '.' || character == '_'
            || character == '+' || character == '-') {
            assert(!is_arch_name_character(name@[index as int]));
            return false;
        }
    }
    true
}

/// The Debian architecture of a machine.
pub open spec fn debian_architecture_of(machine: Seq<char>) -> Seq<char> {
    if machine == "x86_64"@ {
        "amd64"@
    } else if machine == "x86"@ {
        "i386"@
    } else if machine == "aarch64"@ {
        "arm64"@
    } else if machine == "arm"@ {
        "armhf"@
    } else if machine == "powerpc64"@ {
        "ppc64"@
    } else if machine == "riscv64"@ {
        "riscv64"@
    } else if machine == "s390x"@ {
        "s390x"@
    } else {
        "all"@
    }
}

/// Get the Debian architecture of a machine.
pub fn host_debian_architecture(machine: &str) -> (result: &'static str)
    ensures
        result@ == debian_architecture_of(machine@),
{
    if equal(machine, "x86_64") {
        "amd64"
    } else if equal(machine, "x86") {
        "i386"
    } else if equal(machine, "aarch64") {
        "arm64"
    } else if equal(machine, "arm") {
        "armhf"
    } else if equal(machine, "powerpc64") {
        "ppc64"
    } else if equal(machine, "riscv64") {
        "riscv64"
    } else if equal(machine, "s390x") {
        "s390x"
    } else {
        "all"
    }
}

/// Resolve parsed Debian relations against one immutable package catalog.
pub struct DependencyResolver<'catalog> {
    catalog: &'catalog PackageCatalog,
    target_architecture: String,
    active_profiles: TextSet,
    mappings: TextMap<PackageMapping>,
}

impl<'catalog> View for DependencyResolver<'catalog> {
    type V = ResolverModel;

    closed spec fn view(&self) -> ResolverModel {
        ResolverModel {
            catalog: self.catalog@,
            target: self.target_architecture@,
            profiles: self.active_profiles@,
            mappings: self.mappings@,
        }
    }
}

struct MappedCandidate {
    name: String,
    original_name: String,
    version: Option<VersionConstraint>,
    unknown_mapping: bool,
    dropped_version: bool,
}

impl DeepView for MappedCandidate {
    type V = CandidateModel;

    closed spec fn deep_view(&self) -> CandidateModel {
        CandidateModel {
            name: self.name@,
            original_name: self.original_name@,
            version: self.version.deep_view(),
            unknown_mapping: self.unknown_mapping,
            dropped_version: self.dropped_version,
        }
    }
}

struct SelectedDependency {
    name: String,
    version: Option<VersionConstraint>,
}

impl DeepView for SelectedDependency {
    type V = SelectedModel;

    closed spec fn deep_view(&self) -> SelectedModel {
        SelectedModel { name: self.name@, version: self.version.deep_view() }
    }
}

impl SelectedDependency {
    fn render(&self, reason: Option<&str>) -> (result: String)
        ensures
            result@ == dependency_text(self.deep_view(), reason.deep_view()),
    {
        let rendered = match &self.version {
            None => self.name.clone(),
            Some(limit) => self.name.clone().concat(write_limit(limit).as_str()),
        };
        match reason {
            None => rendered,
            Some(text) => {
                let characters = chars(text);
                let useful = trimmed(characters.as_slice());
                if useful.len() == 0 {
                    rendered
                } else {
                    rendered.concat(": ").concat(string(useful).as_str())
                }
            },
        }
    }
}

fn position_of(selected: &Vec<SelectedDependency>, name: &str) -> (result: usize)
    ensures
        result == selected_position(selected.deep_view(), name@),
        result <= selected@.len(),
        result < selected@.len() ==> selected@[result as int].name@ == name@,
{
    let ghost all = selected.deep_view();
    let mut at: usize = 0;
    assert(all.skip(0) == all);
    while at < selected.len()
        invariant
            all == selected.deep_view(),
            at <= selected@.len(),
            selected_position(all, name@) == at + selected_position(all.skip(at as int), name@),
        decreases selected@.len() - at,
    {
        assert(all.skip(at as int)[0] == selected@[at as int].deep_view());
        if equal(selected[at].name.as_str(), name) {
            return at;
        }
        assert(all.skip(at as int).drop_first() == all.skip(at + 1));
        at += 1;
    }
    at
}

/// Add a text to a list when a condition holds.
fn push_unique_if(list: &mut Vec<String>, condition: bool, start: &str, name: &str, end: &str)
    ensures
        final(list).deep_view() == with_unique_if(
            old(list).deep_view(),
            condition,
            start@ + name@ + end@,
        ),
{
    if condition {
        push_unique(list, String::from_str(start).concat(name).concat(end));
    }
}

impl<'catalog> DependencyResolver<'catalog> {
    /// Create a resolver for the Debian architecture that corresponds to the
    /// machine.  Use [`Self::with_target_architecture`] for a cross-build.
    pub fn new(catalog: &'catalog PackageCatalog, machine: &str) -> (result: Self)
        ensures
            result@ == (ResolverModel {
                catalog: catalog@,
                target: debian_architecture_of(machine@),
                profiles: Set::empty(),
                mappings: Map::empty(),
            }),
    {
        DependencyResolver {
            catalog,
            target_architecture: String::from_str(host_debian_architecture(machine)),
            active_profiles: TextSet::new(),
            mappings: TextMap::new(),
        }
    }

    /// Set the Debian output architecture used for restriction evaluation.
    pub fn with_target_architecture(self, architecture: &str) -> (result: Self)
        ensures
            result@ == (ResolverModel { target: architecture@, ..self@ }),
    {
        DependencyResolver { target_architecture: String::from_str(architecture), ..self }
    }

    /// Set active Debian build profiles used for restriction evaluation.
    pub fn with_active_profiles(self, profiles: &[&str]) -> (result: Self)
        ensures
            result@ == (ResolverModel { profiles: set_of(str_views(profiles@)), ..self@ }),
    {
        DependencyResolver {
            active_profiles: slice_set(profiles),
            ..self
        }
    }

    /// Add or replace one mapping.  Custom mappings take priority over the
    /// built-in mapping table.
    pub fn add_mapping(&mut self, debian_name: &str, mapping: PackageMapping) -> (result: Result<
        (),
    >)
        ensures
            outcome(result) == if !is_package_name(debian_name@) {
                Err::<(), Seq<char>>(bad_relation_name(debian_name@))
            } else if !is_arch_package_name(mapping.arch_name@) {
                Err(
                    "invalid Arch package name '"@ + mapping.arch_name@
                        + "' in dependency mapping"@,
                )
            } else {
                Ok(())
            },
            result is Ok ==> final(self)@ == (ResolverModel {
                mappings: old(self)@.mappings.insert(debian_name@, mapping.deep_view()),
                ..old(self)@
            }),
            result is Err ==> final(self)@ == old(self)@,
    {
        let name_characters = chars(debian_name);
        validate_relation_name(name_characters.as_slice())?;
        let arch_characters = chars(mapping.arch_name.as_str());
        if !arch_package_name(arch_characters.as_slice()) {
            return Err(
                AppError::new(
                    String::from_str("invalid Arch package name '").concat(
                        mapping.arch_name.as_str(),
                    ).concat("' in dependency mapping"),
                ),
            );
        }
        self.mappings.insert(String::from_str(debian_name), mapping);
        Ok(())
    }

    fn map_candidate(&self, relation: &Relation) -> (result: MappedCandidate)
        ensures
            result.deep_view() == self@.candidate_of(relation.deep_view()),
    {
        let name = relation.name.as_str();
        let (arch_name, version_compatible, known) = match self.mappings.get(name) {
            Some(mapping) => (mapping.arch_name.clone(), mapping.version_compatible, true),
            None => match built_in_package_mapping(name) {
                Some((arch_name, version_compatible)) => (
                    String::from_str(arch_name),
                    version_compatible,
                    true,
                ),
                None => (String::from_str(name), false, self.catalog.contains(name)),
            },
        };
        let version = match &relation.version {
            Some(version) => if version_compatible {
                Some(version.clone())
            } else {
                None
            },
            None => None,
        };
        MappedCandidate {
            name: arch_name,
            original_name: relation.name.clone(),
            version,
            unknown_mapping: !known,
            dropped_version: relation.version.is_some() && !version_compatible,
        }
    }

    fn active_alternatives<'a>(&self, group: &'a RelationGroup) -> (result: Vec<&'a Relation>)
        ensures
            result.deep_view() == self@.active_of(group.deep_view()),
    {
        let mut active: Vec<&'a Relation> = Vec::new();
        let ghost all = group.deep_view();
        assert(active.deep_view() =~= self@.active_of(all.take(0))) by {
            reveal(Seq::filter);
        }
        for index in 0..group.alternatives.len()
            invariant
                all == group.deep_view(),
                active.deep_view() == self@.active_of(all.take(index as int)),
        {
            let relation = &group.alternatives[index];
            let ghost before = active.deep_view();
            proof {
                assert(all.take(index + 1).drop_last() == all.take(index as int));
                assert(all.take(index + 1).last() == relation.deep_view());
                reveal(Seq::filter);
            }
            if relation.matches_architecture(self.target_architecture.as_str())
                && relation.matches_profiles(&self.active_profiles) {
                active.push(relation);
                assert(active.deep_view() =~= before.push(relation.deep_view()));
            }
        }
        assert(all.take(all.len() as int) == all);
        active
    }

    fn map_candidates(&self, active: &Vec<&Relation>) -> (result: Vec<MappedCandidate>)
        ensures
            result.deep_view() == active.deep_view().map_values(
                |relation: RelationModel| self@.candidate_of(relation),
            ),
    {
        let mut candidates: Vec<MappedCandidate> = Vec::new();
        for index in 0..active.len()
            invariant
                candidates@.len() == index,
                forall|at: int|
                    0 <= at < index ==> (#[trigger] candidates@[at]).deep_view()
                        == self@.candidate_of(active@[at].deep_view()),
        {
            let candidate = self.map_candidate(active[index]);
            candidates.push(candidate);
        }
        assert(candidates.deep_view() =~= active.deep_view().map_values(
            |relation: RelationModel| self@.candidate_of(relation),
        ));
        candidates
    }

    fn first_installed(&self, candidates: &Vec<MappedCandidate>) -> (result: usize)
        ensures
            result == first_in(candidates.deep_view(), self@.catalog.installed),
    {
        let ghost all = candidates.deep_view();
        let ghost names = self@.catalog.installed;
        let mut at: usize = 0;
        assert(all.skip(0) == all);
        while at < candidates.len()
            invariant
                all == candidates.deep_view(),
                names == self@.catalog.installed,
                at <= candidates@.len(),
                first_in(all, names) == at + first_in(all.skip(at as int), names),
            decreases candidates@.len() - at,
        {
            assert(all.skip(at as int)[0] == candidates@[at as int].deep_view());
            if self.catalog.is_installed(candidates[at].name.as_str()) {
                return at;
            }
            assert(all.skip(at as int).drop_first() == all.skip(at + 1));
            at += 1;
        }
        at
    }

    fn first_available(&self, candidates: &Vec<MappedCandidate>) -> (result: usize)
        ensures
            result == first_in(candidates.deep_view(), self@.catalog.available),
    {
        let ghost all = candidates.deep_view();
        let ghost names = self@.catalog.available;
        let mut at: usize = 0;
        assert(all.skip(0) == all);
        while at < candidates.len()
            invariant
                all == candidates.deep_view(),
                names == self@.catalog.available,
                at <= candidates@.len(),
                first_in(all, names) == at + first_in(all.skip(at as int), names),
            decreases candidates@.len() - at,
        {
            assert(all.skip(at as int)[0] == candidates@[at as int].deep_view());
            if self.catalog.is_available(candidates[at].name.as_str()) {
                return at;
            }
            assert(all.skip(at as int).drop_first() == all.skip(at + 1));
            at += 1;
        }
        at
    }

    fn select(&self, candidates: &Vec<MappedCandidate>) -> (result: usize)
        requires
            candidates@.len() > 0,
        ensures
            result == self@.preferred(candidates.deep_view()),
            result < candidates@.len(),
    {
        let installed = self.first_installed(candidates);
        if installed < candidates.len() {
            return installed;
        }
        let available = self.first_available(candidates);
        if available < candidates.len() {
            return available;
        }
        0
    }

    /// Resolve required dependencies and pre-dependencies.
    pub fn resolve_required(&self, relations: &RelationSet) -> (result: Resolution)
        ensures
            result.deep_view() == self@.resolution(relations.deep_view(), true, None),
    {
        self.resolve(relations, true, None)
    }

    /// Parse and resolve several required relation fields as one set.
    pub fn resolve_required_sources(&self, sources: &[&str]) -> (result: Result<Resolution>)
        ensures
            outcome(result) == match groups_of_sources(str_views(sources@)) {
                Err(message) => Err(message),
                Ok(groups) => Ok::<ResolutionModel, Seq<char>>(
                    self@.resolution(groups, true, None),
                ),
            },
    {
        let mut combined = RelationSet::empty();
        let ghost all = str_views(sources@);
        for index in 0..sources.len()
            invariant
                all == str_views(sources@),
                groups_of_sources(all.take(index as int)) == Ok::<
                    Seq<Seq<RelationModel>>,
                    Seq<char>,
                >(combined.deep_view()),
        {
            proof {
                assert(all.take(index + 1).drop_last() == all.take(index as int));
                assert(all.take(index + 1).last() == sources@[index as int]@);
                if relations_of(sources@[index as int]@) is Err {
                    lemma_sources_prefix(all, index + 1);
                }
            }
            combined.append(RelationSet::parse(sources[index])?);
        }
        assert(all.take(all.len() as int) == all);
        Ok(self.resolve_required(&combined))
    }

    /// Resolve recommendations or suggestions as Arch optional dependencies.
    /// Each output string has the form `dependency: reason`.
    pub fn resolve_optional(&self, relations: &RelationSet, reason: &str) -> (result: Resolution)
        ensures
            result.deep_view() == self@.resolution(relations.deep_view(), true, Some(reason@)),
    {
        self.resolve(relations, true, Some(reason))
    }

    /// Resolve name-only relations such as Provides, Conflicts, and Replaces.
    /// Availability is not required because these names can be virtual or can
    /// describe packages that are not in a configured repository.
    pub fn resolve_names(&self, relations: &RelationSet) -> (result: Resolution)
        ensures
            result.deep_view() == self@.resolution(relations.deep_view(), false, None),
    {
        self.resolve(relations, false, None)
    }

    fn resolve_group(
        &self,
        group: &RelationGroup,
        check_availability: bool,
        warnings: &mut Vec<String>,
        selections: &mut Vec<AlternativeSelection>,
        selected: &mut Vec<SelectedDependency>,
    )
        ensures
            (Progress {
                warnings: final(warnings).deep_view(),
                selections: final(selections).deep_view(),
                selected: final(selected).deep_view(),
            }) == self@.after_group(
                group.deep_view(),
                check_availability,
                (Progress {
                    warnings: old(warnings).deep_view(),
                    selections: old(selections).deep_view(),
                    selected: old(selected).deep_view(),
                }),
            ),
    {
        let active = self.active_alternatives(group);
        if active.len() == 0 {
            return ;
        }
        let mut candidates = self.map_candidates(&active);
        let ghost candidate_models = candidates.deep_view();
        assert(candidate_models == self@.candidates_of(group.deep_view()));
        let index: usize = if check_availability {
            self.select(&candidates)
        } else {
            0
        };
        let count: usize = candidates.len();
        let foreign = match &active[index].qualifier {
            Some(PackageQualifier::Architecture(_)) => true,
            _ => false,
        };
        assert(foreign == has_foreign_qualifier(active.deep_view()[index as int]));
        let candidate = candidates.remove(index);
        assert(candidate.deep_view() == candidate_models[index as int]);
        if count > 1 {
            let ghost before = selections.deep_view();
            let other_choices = names_of(&candidates);
            proof {
                assert(candidates.deep_view() =~= candidate_models.remove(index as int));
                assert(other_choices.deep_view() == other_names(candidate_models, index as int));
            }
            let selection = AlternativeSelection {
                selected: candidate.name.clone(),
                other_choices,
            };
            selections.push(selection);
            assert(selections.deep_view() =~= before.push(selection.deep_view()));
        }
        let original = candidate.original_name.as_str();
        push_unique_if(
            warnings,
            candidate.unknown_mapping,
            "no Debian-to-Arch mapping is known for '",
            original,
            "'; kept the same package name",
        );
        push_unique_if(
            warnings,
            candidate.dropped_version,
            "dropped the Debian version constraint for '",
            original,
            "' because Arch versions are not marked compatible",
        );
        push_unique_if(
            warnings,
            foreign,
            "removed the foreign architecture qualifier from '",
            original,
            "'",
        );
        let unavailable = check_availability && self.catalog.availability_is_known()
            && self.catalog.installed_state_is_known() && !self.catalog.contains(
            candidate.name.as_str(),
        );
        push_unique_if(
            warnings,
            unavailable,
            "selected Arch dependency '",
            candidate.name.as_str(),
            "' is not installed or available in the local pacman databases",
        );
        let ghost old_selected = selected.deep_view();
        let at = position_of(selected, candidate.name.as_str());
        if at < selected.len() {
            let existing = selected.remove(at);
            let mut version = existing.version;
            let warning = merge_constraints(&mut version, candidate.version);
            selected.insert(at, SelectedDependency { name: existing.name, version });
            assert(selected.deep_view() =~= old_selected.update(
                at as int,
                SelectedModel { name: candidate.name@, version: version.deep_view() },
            ));
            if let Some(text) = warning {
                push_unique(warnings, text);
            }
        } else {
            let dependency = SelectedDependency {
                name: candidate.name,
                version: candidate.version,
            };
            selected.push(dependency);
            assert(selected.deep_view() =~= old_selected.push(dependency.deep_view()));
        }
    }

    fn resolve(
        &self,
        relations: &RelationSet,
        check_availability: bool,
        reason: Option<&str>,
    ) -> (result: Resolution)
        ensures
            result.deep_view() == self@.resolution(
                relations.deep_view(),
                check_availability,
                reason.deep_view(),
            ),
    {
        let ghost groups = relations.deep_view();
        let mut warnings = copied(self.catalog.warnings());
        let mut selections: Vec<AlternativeSelection> = Vec::new();
        let mut selected: Vec<SelectedDependency> = Vec::new();
        assert(selections.deep_view() =~= Seq::<SelectionModel>::empty());
        assert(selected.deep_view() =~= Seq::<SelectedModel>::empty());
        for index in 0..relations.groups.len()
            invariant
                groups == relations.deep_view(),
                self@.after_groups(groups.take(index as int), check_availability) == (Progress {
                    warnings: warnings.deep_view(),
                    selections: selections.deep_view(),
                    selected: selected.deep_view(),
                }),
        {
            proof {
                assert(groups.take(index + 1).drop_last() == groups.take(index as int));
                assert(groups.take(index + 1).last()
                    == relations.groups@[index as int].deep_view());
            }
            self.resolve_group(
                &relations.groups[index],
                check_availability,
                &mut warnings,
                &mut selections,
                &mut selected,
            );
        }
        assert(groups.take(groups.len() as int) == groups);
        let mut dependencies: Vec<String> = Vec::new();
        for index in 0..selected.len()
            invariant
                dependencies@.len() == index,
                forall|at: int|
                    0 <= at < index ==> (#[trigger] dependencies@[at])@ == dependency_text(
                        selected@[at].deep_view(),
                        reason.deep_view(),
                    ),
        {
            let text = selected[index].render(reason);
            dependencies.push(text);
        }
        proof {
            let ghost reason_text = reason.deep_view();
            assert(dependencies.deep_view() =~= selected.deep_view().map_values(
                |one: SelectedModel| dependency_text(one, reason_text),
            ));
        }
        Resolution { dependencies, warnings, alternative_selections: selections }
    }
}

fn names_of(candidates: &Vec<MappedCandidate>) -> (result: Vec<String>)
    ensures
        result.deep_view() == candidates.deep_view().map_values(
            |candidate: CandidateModel| candidate.name,
        ),
{
    let mut names: Vec<String> = Vec::new();
    for index in 0..candidates.len()
        invariant
            names@.len() == index,
            forall|at: int| 0 <= at < index ==> (#[trigger] names@[at])@ == candidates@[at].name@,
    {
        names.push(candidates[index].name.clone());
    }
    assert(names.deep_view() =~= candidates.deep_view().map_values(
        |candidate: CandidateModel| candidate.name,
    ));
    names
}

/// The groups of several relation lists, one after the other.
pub open spec fn groups_of_sources(sources: Seq<Seq<char>>) -> Outcome<Seq<Seq<RelationModel>>>
    decreases sources.len(),
{
    if sources.len() == 0 {
        Ok(seq![])
    } else {
        match groups_of_sources(sources.drop_last()) {
            Err(message) => Err(message),
            Ok(groups) => match relations_of(sources.last()) {
                Err(message) => Err(message),
                Ok(more) => Ok(groups + more),
            },
        }
    }
}

proof fn lemma_sources_prefix(sources: Seq<Seq<char>>, length: int)
    requires
        0 <= length <= sources.len(),
        groups_of_sources(sources.take(length)) is Err,
    ensures
        groups_of_sources(sources) == groups_of_sources(sources.take(length)),
    decreases sources.len(),
{
    if length < sources.len() {
        assert(sources.drop_last().take(length) == sources.take(length));
        lemma_sources_prefix(sources.drop_last(), length);
    } else {
        assert(sources.take(length) == sources);
    }
}

// ---------------------------------------------------------------------------
// Laws
// ---------------------------------------------------------------------------
/// The names of the selected packages are distinct.
pub open spec fn distinct_names(selected: Seq<SelectedModel>) -> bool {
    forall|first: int, second: int|
        0 <= first < second < selected.len() ==> (#[trigger] selected[first]).name != (
        #[trigger] selected[second]).name
}

proof fn lemma_selected_position(selected: Seq<SelectedModel>, name: Seq<char>)
    ensures
        0 <= selected_position(selected, name) <= selected.len(),
        selected_position(selected, name) < selected.len() ==> selected[selected_position(
            selected,
            name,
        )].name == name,
        forall|at: int|
            0 <= at < selected_position(selected, name) ==> (#[trigger] selected[at]).name != name,
    decreases selected.len(),
{
    if selected.len() > 0 && selected[0].name != name {
        lemma_selected_position(selected.drop_first(), name);
        let rest = selected_position(selected.drop_first(), name);
        assert forall|at: int| 0 <= at < 1 + rest implies (#[trigger] selected[at]).name
            != name by {
            if at > 0 {
                assert(selected.drop_first()[at - 1] == selected[at]);
            }
        }
        if rest < selected.drop_first().len() {
            assert(selected.drop_first()[rest] == selected[rest + 1]);
        }
    }
}

/// Every package is selected at most once: relations that lead to the same
/// package become one dependency with a merged version limit.
pub proof fn each_package_is_selected_once(
    resolver: ResolverModel,
    groups: Seq<Seq<RelationModel>>,
    check_availability: bool,
)
    ensures
        distinct_names(resolver.after_groups(groups, check_availability).selected),
    decreases groups.len(),
{
    if groups.len() > 0 {
        each_package_is_selected_once(resolver, groups.drop_last(), check_availability);
        let before = resolver.after_groups(groups.drop_last(), check_availability).selected;
        let candidates = resolver.candidates_of(groups.last());
        if candidates.len() > 0 {
            let index = if check_availability {
                resolver.preferred(candidates)
            } else {
                0
            };
            lemma_selected_position(before, candidates[index].name);
        }
    }
}

/// No warning is reported twice.
pub proof fn warnings_are_reported_once(
    resolver: ResolverModel,
    groups: Seq<Seq<RelationModel>>,
    check_availability: bool,
    reason: Option<Seq<char>>,
)
    requires
        resolver.catalog.warnings.no_duplicates(),
    ensures
        resolver.resolution(groups, check_availability, reason).warnings.no_duplicates(),
    decreases groups.len(),
{
    if groups.len() > 0 {
        warnings_are_reported_once(resolver, groups.drop_last(), check_availability, reason);
    }
}

/// The merged result of two resolutions has no dependency and no warning
/// twice.
pub proof fn merged_resolutions_stay_unique(first: ResolutionModel, second: ResolutionModel)
    requires
        first.dependencies.no_duplicates(),
        first.warnings.no_duplicates(),
    ensures
        merged_resolution(first, second).dependencies.no_duplicates(),
        merged_resolution(first, second).warnings.no_duplicates(),
{
    unique_additions_stay_unique(first.dependencies, second.dependencies);
    unique_additions_stay_unique(first.warnings, second.warnings);
}

proof fn lemma_first_in(candidates: Seq<CandidateModel>, names: Set<Seq<char>>)
    ensures
        0 <= first_in(candidates, names) <= candidates.len(),
        first_in(candidates, names) < candidates.len() ==> names.contains(
            candidates[first_in(candidates, names)].name,
        ),
        forall|at: int|
            0 <= at < first_in(candidates, names) ==> !names.contains(
                (#[trigger] candidates[at]).name,
            ),
    decreases candidates.len(),
{
    if candidates.len() > 0 && !names.contains(candidates[0].name) {
        lemma_first_in(candidates.drop_first(), names);
        let rest = first_in(candidates.drop_first(), names);
        assert forall|at: int| 0 <= at < 1 + rest implies !names.contains(
            (#[trigger] candidates[at]).name,
        ) by {
            if at > 0 {
                assert(candidates.drop_first()[at - 1] == candidates[at]);
            }
        }
        if rest < candidates.drop_first().len() {
            assert(candidates.drop_first()[rest] == candidates[rest + 1]);
        }
    }
}

/// An installed alternative wins over one that is only available, which wins
/// over an unknown one.  Among alternatives of one sort the first one wins.
pub proof fn the_best_known_alternative_wins(
    resolver: ResolverModel,
    candidates: Seq<CandidateModel>,
    other: int,
)
    requires
        0 <= other < candidates.len(),
    ensures
        0 <= resolver.preferred(candidates) < candidates.len(),
        ({
            let chosen = resolver.preferred(candidates);
            let installed = resolver.catalog.installed;
            let available = resolver.catalog.available;
            &&& installed.contains(candidates[other].name) ==> installed.contains(
                candidates[chosen].name,
            ) && chosen <= other
            &&& available.contains(candidates[other].name) ==> installed.contains(
                candidates[chosen].name,
            ) || (available.contains(candidates[chosen].name) && chosen <= other)
            &&& !resolver.catalog.knows(candidates[chosen].name) ==> chosen == 0
        }),
{
    lemma_first_in(candidates, resolver.catalog.installed);
    lemma_first_in(candidates, resolver.catalog.available);
}

/// A package with the name is selected.
pub open spec fn is_selected(selected: Seq<SelectedModel>, name: Seq<char>) -> bool {
    exists|at: int| 0 <= at < selected.len() && (#[trigger] selected[at]).name == name
}

proof fn lemma_unique_text(list: Seq<Seq<char>>, text: Seq<char>, other: Seq<char>)
    ensures
        with_unique(list, text).contains(text),
        list.contains(other) ==> with_unique(list, text).contains(other),
{
    if !list.contains(text) {
        let longer = list.push(text);
        assert(longer[list.len() as int] == text);
        if list.contains(other) {
            let at = choose|at: int| 0 <= at < list.len() && list[at] == other;
            assert(longer[at] == other);
        }
    }
}

/// What one group adds stays: a selected package stays selected, and a
/// reported warning stays reported.
pub proof fn later_groups_lose_nothing(
    resolver: ResolverModel,
    group: Seq<RelationModel>,
    check_availability: bool,
    progress: Progress,
    name: Seq<char>,
    warning: Seq<char>,
)
    ensures
        is_selected(progress.selected, name) ==> is_selected(
            resolver.after_group(group, check_availability, progress).selected,
            name,
        ),
        progress.warnings.contains(warning) ==> resolver.after_group(
            group,
            check_availability,
            progress,
        ).warnings.contains(warning),
{
    let candidates = resolver.candidates_of(group);
    if resolver.active_of(group).len() > 0 {
        let index = if check_availability {
            resolver.preferred(candidates)
        } else {
            0
        };
        let candidate = candidates[index];
        let after = resolver.after_group(group, check_availability, progress);
        lemma_selected_position(progress.selected, candidate.name);
        if is_selected(progress.selected, name) {
            let at = choose|at: int|
                0 <= at < progress.selected.len() && (#[trigger] progress.selected[at]).name
                    == name;
            assert(after.selected[at].name == name);
        }
        lemma_selection_keeps(
            resolver,
            progress.warnings,
            resolver.active_of(group)[index],
            candidate,
            check_availability,
            warning,
        );
        let at = selected_position(progress.selected, candidate.name);
        if at < progress.selected.len() {
            let merged = merged_limit(progress.selected[at].version, candidate.version);
            if merged.1 is Some {
                lemma_unique_text(
                    resolver.selection_warnings(
                        progress.warnings,
                        resolver.active_of(group)[index],
                        candidate,
                        check_availability,
                    ),
                    merged.1->Some_0,
                    warning,
                );
            }
        }
    }
}

proof fn lemma_selection_keeps(
    resolver: ResolverModel,
    warnings: Seq<Seq<char>>,
    relation: RelationModel,
    candidate: CandidateModel,
    check_availability: bool,
    warning: Seq<char>,
)
    ensures
        warnings.contains(warning) ==> resolver.selection_warnings(
            warnings,
            relation,
            candidate,
            check_availability,
        ).contains(warning),
        candidate.unknown_mapping ==> resolver.selection_warnings(
            warnings,
            relation,
            candidate,
            check_availability,
        ).contains(unknown_name_warning(candidate.original_name)),
{
    let original = candidate.original_name;
    let unknown = unknown_name_warning(original);
    let first = with_unique_if(warnings, candidate.unknown_mapping, unknown);
    lemma_unique_text(warnings, unknown, warning);
    let dropped = dropped_version_warning(original);
    let second = with_unique_if(first, candidate.dropped_version, dropped);
    lemma_unique_text(first, dropped, warning);
    lemma_unique_text(first, dropped, unknown);
    let qualifier = qualifier_warning(original);
    let third = with_unique_if(second, has_foreign_qualifier(relation), qualifier);
    lemma_unique_text(second, qualifier, warning);
    lemma_unique_text(second, qualifier, unknown);
    lemma_unique_text(third, unavailable_warning(candidate.name), warning);
    lemma_unique_text(third, unavailable_warning(candidate.name), unknown);
}

/// A relation to a package that neither a mapping nor pacman knows keeps its
/// name, and a warning says so.
pub proof fn unknown_names_are_kept_with_a_warning(
    resolver: ResolverModel,
    groups: Seq<Seq<RelationModel>>,
    check_availability: bool,
    index: int,
)
    requires
        0 <= index < groups.len(),
        groups[index].len() == 1,
        resolver.is_active(groups[index][0]),
        !resolver.mapping_is_known(groups[index][0].name),
    ensures
        is_selected(
            resolver.after_groups(groups, check_availability).selected,
            groups[index][0].name,
        ),
        resolver.after_groups(groups, check_availability).warnings.contains(
            unknown_name_warning(groups[index][0].name),
        ),
    decreases groups.len(),
{
    let relation = groups[index][0];
    let before = resolver.after_groups(groups.drop_last(), check_availability);
    if index < groups.len() - 1 {
        unknown_names_are_kept_with_a_warning(
            resolver,
            groups.drop_last(),
            check_availability,
            index,
        );
        later_groups_lose_nothing(
            resolver,
            groups.last(),
            check_availability,
            before,
            relation.name,
            unknown_name_warning(relation.name),
        );
    } else {
        let group = groups[index];
        let active = resolver.active_of(group);
        assert(active =~= group) by {
            reveal(Seq::filter);
            assert(group.drop_last() =~= seq![]);
        }
        let candidates = resolver.candidates_of(group);
        let candidate = resolver.candidate_of(relation);
        assert(candidates =~= seq![candidate]);
        lemma_first_in(candidates, resolver.catalog.installed);
        lemma_first_in(candidates, resolver.catalog.available);
        lemma_selected_position(before.selected, candidate.name);
        lemma_selection_keeps(
            resolver,
            before.warnings,
            relation,
            candidate,
            check_availability,
            unknown_name_warning(relation.name),
        );
        let after = resolver.after_group(group, check_availability, before);
        let at = selected_position(before.selected, candidate.name);
        assert(after.selected[at].name == relation.name);
        if at < before.selected.len() {
            let merged = merged_limit(before.selected[at].version, candidate.version);
            if merged.1 is Some {
                lemma_unique_text(
                    resolver.selection_warnings(
                        before.warnings,
                        relation,
                        candidate,
                        check_availability,
                    ),
                    merged.1->Some_0,
                    unknown_name_warning(relation.name),
                );
            }
        }
    }
}

impl ResolverModel {
    /// The package that a group selects, if one of its alternatives counts.
    pub open spec fn chosen_name(
        self,
        group: Seq<RelationModel>,
        check_availability: bool,
    ) -> Option<Seq<char>> {
        let candidates = self.candidates_of(group);
        if self.active_of(group).len() == 0 {
            None
        } else if check_availability {
            Some(candidates[self.preferred(candidates)].name)
        } else {
            Some(candidates[0].name)
        }
    }

    /// The packages that groups select, one after the other.
    pub open spec fn chosen_names(
        self,
        groups: Seq<Seq<RelationModel>>,
        check_availability: bool,
    ) -> Seq<Seq<char>>
        decreases groups.len(),
    {
        if groups.len() == 0 {
            seq![]
        } else {
            let before = self.chosen_names(groups.drop_last(), check_availability);
            match self.chosen_name(groups.last(), check_availability) {
                Some(name) => before.push(name),
                None => before,
            }
        }
    }
}

/// The names of the selected packages.
pub open spec fn selected_names(selected: Seq<SelectedModel>) -> Seq<Seq<char>> {
    selected.map_values(|package: SelectedModel| package.name)
}

proof fn lemma_selected_names(
    resolver: ResolverModel,
    groups: Seq<Seq<RelationModel>>,
    check_availability: bool,
)
    ensures
        selected_names(resolver.after_groups(groups, check_availability).selected)
            == with_all_unique(seq![], resolver.chosen_names(groups, check_availability)),
    decreases groups.len(),
{
    if groups.len() == 0 {
        assert(selected_names(resolver.after_groups(groups, check_availability).selected) =~= seq![]);
    } else {
        let rest = groups.drop_last();
        let group = groups.last();
        lemma_selected_names(resolver, rest, check_availability);
        let before = resolver.after_groups(rest, check_availability).selected;
        let after = resolver.after_groups(groups, check_availability).selected;
        let chosen = resolver.chosen_names(rest, check_availability);
        if let Some(name) = resolver.chosen_name(group, check_availability) {
            let at = selected_position(before, name);
            let names = selected_names(before);
            assert(chosen.push(name).drop_last() =~= chosen);
            lemma_selected_position(before, name);
            if at < before.len() {
                assert(names[at] == name);
                assert(selected_names(after) =~= names);
            } else {
                if names.contains(name) {
                    let place = choose|place: int| 0 <= place < names.len() && names[place] == name;
                    assert(before[place].name == name);
                }
                assert(selected_names(after) =~= names.push(name));
            }
        }
    }
}

/// The dependencies of a resolution stand in the order in which a group first
/// selects their packages, and every package that a group selects is among them.
pub proof fn packages_stand_in_the_order_of_their_selection(
    resolver: ResolverModel,
    groups: Seq<Seq<RelationModel>>,
    check_availability: bool,
    reason: Option<Seq<char>>,
)
    ensures
        ({
            let selected = resolver.after_groups(groups, check_availability).selected;
            let chosen = resolver.chosen_names(groups, check_availability);
            let dependencies = resolver.resolution(groups, check_availability, reason).dependencies;
            &&& dependencies.len() == selected.len()
            &&& forall|index: int|
                0 <= index < selected.len() ==> (#[trigger] dependencies[index])
                    == dependency_text(selected[index], reason)
            &&& selected_names(selected).to_set() == chosen.to_set()
            &&& forall|one: int, other: int|
                0 <= one < other < selected.len() ==> first_place(
                    chosen,
                    (#[trigger] selected[one]).name,
                ) < first_place(chosen, (#[trigger] selected[other]).name) < chosen.len()
        }),
{
    let selected = resolver.after_groups(groups, check_availability).selected;
    let chosen = resolver.chosen_names(groups, check_availability);
    let names = selected_names(selected);
    lemma_selected_names(resolver, groups, check_availability);
    unique_additions_stay_unique(seq![], chosen);
    assert(Seq::<Seq<char>>::empty().to_set().union(chosen.to_set()) =~= chosen.to_set());
    assert forall|one: int, other: int| 0 <= one < other < selected.len() implies first_place(
        chosen,
        (#[trigger] selected[one]).name,
    ) < first_place(chosen, (#[trigger] selected[other]).name) < chosen.len() by {
        unique_additions_keep_their_order(chosen, one, other);
        assert(names[one] == selected[one].name);
        assert(names[other] == selected[other].name);
    }
}

proof fn lemma_selection_keeps_the_start(
    resolver: ResolverModel,
    warnings: Seq<Seq<char>>,
    relation: RelationModel,
    candidate: CandidateModel,
    check_availability: bool,
    start: Seq<Seq<char>>,
)
    requires
        begins_with_list(warnings, start),
    ensures
        begins_with_list(
            resolver.selection_warnings(warnings, relation, candidate, check_availability),
            start,
        ),
{
    let original = candidate.original_name;
    let unknown = unknown_name_warning(original);
    let first = with_unique_if(warnings, candidate.unknown_mapping, unknown);
    unique_additions_keep_the_start(warnings, start, unknown);
    let dropped = dropped_version_warning(original);
    let second = with_unique_if(first, candidate.dropped_version, dropped);
    unique_additions_keep_the_start(first, start, dropped);
    let qualifier = qualifier_warning(original);
    let third = with_unique_if(second, has_foreign_qualifier(relation), qualifier);
    unique_additions_keep_the_start(second, start, qualifier);
    unique_additions_keep_the_start(third, start, unavailable_warning(candidate.name));
}

/// The warnings of the catalog come first in a resolution.
pub proof fn catalog_warnings_come_first(
    resolver: ResolverModel,
    groups: Seq<Seq<RelationModel>>,
    check_availability: bool,
    reason: Option<Seq<char>>,
)
    ensures
        begins_with_list(
            resolver.resolution(groups, check_availability, reason).warnings,
            resolver.catalog.warnings,
        ),
    decreases groups.len(),
{
    let start = resolver.catalog.warnings;
    if groups.len() == 0 {
        assert(start.take(start.len() as int) =~= start);
    } else {
        let rest = groups.drop_last();
        let group = groups.last();
        catalog_warnings_come_first(resolver, rest, check_availability, reason);
        let before = resolver.after_groups(rest, check_availability);
        let candidates = resolver.candidates_of(group);
        if resolver.active_of(group).len() > 0 {
            let index = if check_availability {
                resolver.preferred(candidates)
            } else {
                0
            };
            let relation = resolver.active_of(group)[index];
            let candidate = candidates[index];
            let warnings = resolver.selection_warnings(
                before.warnings,
                relation,
                candidate,
                check_availability,
            );
            lemma_selection_keeps_the_start(
                resolver,
                before.warnings,
                relation,
                candidate,
                check_availability,
                start,
            );
            let at = selected_position(before.selected, candidate.name);
            if at < before.selected.len() {
                let merged = merged_limit(before.selected[at].version, candidate.version);
                if merged.1 is Some {
                    unique_additions_keep_the_start(warnings, start, merged.1->Some_0);
                }
            }
        }
    }
}

} // verus!
