//! Typed metadata from a control record.

use vstd::prelude::*;
use vstd::slice::slice_subrange;

use crate::control::arch_version::{arch_version_text_of, debian_version_to_arch};
use crate::control::description::description_of;
use crate::control::paragraph::{field_value, unfolded_value, DebianControl, Fields};
use crate::dependency::relation::{is_package_name, package_name};
use crate::error::{outcome, AppError, Outcome, Result};
use crate::number::{number_value, parse_number};
use crate::pieces::{find_last, last_occurrence, trim, trimmed};
use crate::text::{chars, ends_with, equal, has_suffix, string};

verus! {

// ---------------------------------------------------------------------------
// Relation fields
// ---------------------------------------------------------------------------
/// A Debian relationship field that can contain package relations.
#[derive(Clone, Copy, Debug, PartialEq, Eq, Structural, PartialOrd, Ord, Hash)]
pub enum RelationField {
    PreDepends,
    Depends,
    Recommends,
    Suggests,
    Enhances,
    Provides,
    Conflicts,
    Breaks,
    Replaces,
}

impl RelationField {
    /// The canonical Debian field name.
    pub open spec fn name(self) -> Seq<char> {
        match self {
            RelationField::PreDepends => "Pre-Depends"@,
            RelationField::Depends => "Depends"@,
            RelationField::Recommends => "Recommends"@,
            RelationField::Suggests => "Suggests"@,
            RelationField::Enhances => "Enhances"@,
            RelationField::Provides => "Provides"@,
            RelationField::Conflicts => "Conflicts"@,
            RelationField::Breaks => "Breaks"@,
            RelationField::Replaces => "Replaces"@,
        }
    }

    /// Get the canonical Debian field name.
    pub fn as_str(self) -> (result: &'static str)
        ensures
            result@ == self.name(),
    {
        match self {
            RelationField::PreDepends => "Pre-Depends",
            RelationField::Depends => "Depends",
            RelationField::Recommends => "Recommends",
            RelationField::Suggests => "Suggests",
            RelationField::Enhances => "Enhances",
            RelationField::Provides => "Provides",
            RelationField::Conflicts => "Conflicts",
            RelationField::Breaks => "Breaks",
            RelationField::Replaces => "Replaces",
        }
    }

    /// All supported relationship fields in stable output order.
    pub const ALL: [RelationField; 9] = [
        RelationField::PreDepends,
        RelationField::Depends,
        RelationField::Recommends,
        RelationField::Suggests,
        RelationField::Enhances,
        RelationField::Provides,
        RelationField::Conflicts,
        RelationField::Breaks,
        RelationField::Replaces,
    ];
}

// ---------------------------------------------------------------------------
// Model
// ---------------------------------------------------------------------------
/// Typed metadata needed to build an Arch package.
#[derive(Clone, Debug, PartialEq, Eq)]
pub struct DebianMetadata {
    /// Exact Debian binary package name.
    pub name: String,
    /// Debian source package name, or `name` when `Source` is absent.
    pub source: String,
    /// Exact Debian version for provenance metadata.
    pub debian_version: String,
    /// Complete Arch version, including an optional epoch and package release.
    pub full_version: String,
    /// Short Debian description.  An empty or dot-only description is absent.
    pub description: Option<String>,
    /// Extended Debian description, when it has useful text.
    pub long_description: Option<String>,
    /// Debian homepage value.
    pub url: Option<String>,
    /// Mapped Arch architecture.
    pub architecture: String,
    /// Exact Debian architecture for provenance metadata.
    pub debian_architecture: String,
    /// Debian `Installed-Size` value in KiB.
    pub installed_size: Option<u64>,
    /// Nonstandard Debian license field, when present.
    pub license: Option<String>,
    /// Debian maintainer value, when present.
    pub maintainer: Option<String>,
    /// The relation fields that are present and their unfolded texts.
    pub relations: Vec<(RelationField, String)>,
}

/// The mathematical value of a [`DebianMetadata`].
pub struct MetadataModel {
    pub name: Seq<char>,
    pub source: Seq<char>,
    pub debian_version: Seq<char>,
    pub full_version: Seq<char>,
    pub description: Option<Seq<char>>,
    pub long_description: Option<Seq<char>>,
    pub url: Option<Seq<char>>,
    pub architecture: Seq<char>,
    pub debian_architecture: Seq<char>,
    pub installed_size: Option<u64>,
    pub license: Option<Seq<char>>,
    pub maintainer: Option<Seq<char>>,
    pub relations: Seq<(RelationField, Seq<char>)>,
}

/// The fields and texts of a list of relations.
pub open spec fn relation_views(
    relations: Seq<(RelationField, String)>,
) -> Seq<(RelationField, Seq<char>)> {
    relations.map_values(|relation: (RelationField, String)| (relation.0, relation.1@))
}

impl DeepView for DebianMetadata {
    type V = MetadataModel;

    open spec fn deep_view(&self) -> MetadataModel {
        MetadataModel {
            name: self.name@,
            source: self.source@,
            debian_version: self.debian_version@,
            full_version: self.full_version@,
            description: self.description.deep_view(),
            long_description: self.long_description.deep_view(),
            url: self.url.deep_view(),
            architecture: self.architecture@,
            debian_architecture: self.debian_architecture@,
            installed_size: self.installed_size,
            license: self.license.deep_view(),
            maintainer: self.maintainer.deep_view(),
            relations: relation_views(self.relations@),
        }
    }
}

/// The value of a field that must be there.
pub open spec fn required_value(fields: Fields, name: Seq<char>) -> Outcome<Seq<char>> {
    match unfolded_value(fields, name) {
        None => Err("required control field '"@ + name + "' is missing"@),
        Some(value) => if trim(value).len() == 0 {
            Err("required control field '"@ + name + "' is empty"@)
        } else {
            Ok(value)
        },
    }
}

/// The value of a field that can be absent.  Blank values count as absent.
pub open spec fn optional_value(fields: Fields, name: Seq<char>) -> Option<Seq<char>> {
    match unfolded_value(fields, name) {
        Some(value) if trim(value).len() > 0 => Some(value),
        _ => None,
    }
}

/// A package name in a control field.
pub open spec fn checked_name(name: Seq<char>, field: Seq<char>) -> Outcome<Seq<char>> {
    if is_package_name(name) {
        Ok(name)
    } else {
        Err("invalid Debian "@ + field + " package name '"@ + name + "'"@)
    }
}

/// A source name without the version in parentheses behind it.
pub open spec fn without_source_version(source: Seq<char>) -> Seq<char> {
    if has_suffix(source, ")"@) {
        match last_occurrence(source, " ("@, source.len() as int) {
            Some(at) => source.take(at),
            None => source,
        }
    } else {
        source
    }
}

/// The source package name of a record for a package.
pub open spec fn source_name_of(fields: Fields, package: Seq<char>) -> Outcome<Seq<char>> {
    match optional_value(fields, "Source"@) {
        Some(value) => checked_name(without_source_version(trim(value)), "Source"@),
        None => Ok(package),
    }
}

/// The installed size of a record.
pub open spec fn installed_size_of(fields: Fields) -> Outcome<Option<u64>> {
    match optional_value(fields, "Installed-Size"@) {
        None => Ok(None),
        Some(value) => match number_value(value, u64::MAX as int) {
            Ok(size) => Ok(Some(size as u64)),
            Err(fault) => Err(
                "invalid Installed-Size value '"@ + value + "'; expected KiB as an integer"@
                    + ": "@ + fault.description(),
            ),
        },
    }
}

/// The text of a relation field, if it has any.
pub open spec fn relation_text(fields: Fields, field: RelationField) -> Option<Seq<char>> {
    match unfolded_value(fields, field.name()) {
        Some(value) if value.len() > 0 => Some(value),
        _ => None,
    }
}

/// The relation fields that are present, in the order of a list.
pub open spec fn present_relations(
    fields: Fields,
    order: Seq<RelationField>,
) -> Seq<(RelationField, Seq<char>)>
    decreases order.len(),
{
    if order.len() == 0 {
        seq![]
    } else {
        let before = present_relations(fields, order.drop_last());
        match relation_text(fields, order.last()) {
            Some(text) => before.push((order.last(), text)),
            None => before,
        }
    }
}

/// The first text for a field in a list.
pub open spec fn listed_text(
    relations: Seq<(RelationField, Seq<char>)>,
    field: RelationField,
) -> Option<Seq<char>>
    decreases relations.len(),
{
    if relations.len() == 0 {
        None
    } else if relations[0].0 == field {
        Some(relations[0].1)
    } else {
        listed_text(relations.drop_first(), field)
    }
}

/// The Arch name of a Debian architecture.
pub open spec fn arch_architecture(architecture: Seq<char>) -> Option<Seq<char>> {
    if architecture == "all"@ {
        Some("any"@)
    } else if architecture == "amd64"@ {
        Some("x86_64"@)
    } else if architecture == "i386"@ {
        Some("i686"@)
    } else if architecture == "arm64"@ {
        Some("aarch64"@)
    } else if architecture == "armhf"@ {
        Some("armv7h"@)
    } else if architecture == "armel"@ {
        Some("arm"@)
    } else if architecture == "ppc64el"@ {
        Some("ppc64le"@)
    } else if architecture == "ppc64"@ {
        Some("ppc64"@)
    } else if architecture == "riscv64"@ {
        Some("riscv64"@)
    } else if architecture == "s390x"@ {
        Some("s390x"@)
    } else {
        None
    }
}

/// The Arch name of a Debian architecture, or the message that there is none.
pub open spec fn architecture_of(architecture: Seq<char>) -> Outcome<Seq<char>> {
    match arch_architecture(architecture) {
        Some(name) => Ok(name),
        None => Err(
            "unsupported Debian architecture '"@ + architecture
                + "'; provide an explicit mapping"@,
        ),
    }
}

/// The package name, the Debian version, the Arch version, the Debian
/// architecture and the Arch architecture of a record.
pub open spec fn identity_of(fields: Fields) -> Outcome<
    (Seq<char>, Seq<char>, Seq<char>, Seq<char>, Seq<char>),
> {
    match required_value(fields, "Package"@) {
        Err(message) => Err(message),
        Ok(name) => match checked_name(name, "Package"@) {
            Err(message) => Err(message),
            Ok(_) => match required_value(fields, "Version"@) {
                Err(message) => Err(message),
                Ok(version) => match arch_version_text_of(version) {
                    Err(message) => Err(message),
                    Ok(full) => match required_value(fields, "Architecture"@) {
                        Err(message) => Err(message),
                        Ok(debian) => match architecture_of(debian) {
                            Err(message) => Err(message),
                            Ok(arch) => Ok((name, version, full, debian, arch)),
                        },
                    },
                },
            },
        },
    }
}

/// The metadata of a record.
pub open spec fn metadata_of(fields: Fields) -> Outcome<MetadataModel> {
    match identity_of(fields) {
        Err(message) => Err(message),
        Ok((name, debian_version, full_version, debian_architecture, architecture)) =>
        match source_name_of(fields, name) {
            Err(message) => Err(message),
            Ok(source) => match installed_size_of(fields) {
                Err(message) => Err(message),
                Ok(installed_size) => {
                    let description = description_of(field_value(fields, "Description"@));
                    Ok(
                        MetadataModel {
                            name,
                            source,
                            debian_version,
                            full_version,
                            description: description.summary,
                            long_description: description.long,
                            url: optional_value(fields, "Homepage"@),
                            architecture,
                            debian_architecture,
                            installed_size,
                            license: optional_value(fields, "License"@),
                            maintainer: optional_value(fields, "Maintainer"@),
                            relations: present_relations(fields, RelationField::ALL@),
                        },
                    )
                },
            },
        },
    }
}

// ---------------------------------------------------------------------------
// Conversion
// ---------------------------------------------------------------------------
fn is_blank(value: &str) -> (result: bool)
    ensures
        result == (trim(value@).len() == 0),
{
    let characters = chars(value);
    trimmed(characters.as_slice()).len() == 0
}

fn required_unfolded(control: &DebianControl, field: &str) -> (result: Result<String>)
    ensures
        outcome(result) == required_value(control.deep_view(), field@),
{
    match control.get_unfolded(field) {
        None => Err(
            AppError::new(
                String::from_str("required control field '").concat(field).concat("' is missing"),
            ),
        ),
        Some(value) => if is_blank(value.as_str()) {
            Err(
                AppError::new(
                    String::from_str("required control field '").concat(field).concat("' is empty"),
                ),
            )
        } else {
            Ok(value)
        },
    }
}

fn optional_unfolded(control: &DebianControl, field: &str) -> (result: Option<String>)
    ensures
        result.deep_view() == optional_value(control.deep_view(), field@),
{
    match control.get_unfolded(field) {
        Some(value) => if is_blank(value.as_str()) {
            None
        } else {
            Some(value)
        },
        None => None,
    }
}

fn validate_package_name(name: &[char], field: &str) -> (result: Result<()>)
    ensures
        match result {
            Ok(_) => checked_name(name@, field@) == Ok::<Seq<char>, Seq<char>>(name@),
            Err(error) => checked_name(name@, field@) == Err::<Seq<char>, Seq<char>>(error@),
        },
{
    if package_name(name) {
        Ok(())
    } else {
        Err(
            AppError::new(
                String::from_str("invalid Debian ").concat(field).concat(" package name '").concat(
                    string(name).as_str(),
                ).concat("'"),
            ),
        )
    }
}

fn parse_source_name(source: &str) -> (result: Result<String>)
    ensures
        outcome(result) == checked_name(without_source_version(trim(source@)), "Source"@),
{
    let characters = chars(source);
    let text = trimmed(characters.as_slice());
    let name = if ends_with(text, ")") {
        match find_last(text, " (") {
            Some(at) => {
                let name = slice_subrange(text, 0, at);
                assert(name@ == text@.take(at as int));
                name
            },
            None => text,
        }
    } else {
        text
    };
    validate_package_name(name, "Source")?;
    Ok(string(name))
}

fn parse_installed_size(control: &DebianControl) -> (result: Result<Option<u64>>)
    ensures
        match result {
            Ok(size) => installed_size_of(control.deep_view()) == Ok::<Option<u64>, Seq<char>>(
                size,
            ),
            Err(error) => installed_size_of(control.deep_view()) == Err::<Option<u64>, Seq<char>>(
                error@,
            ),
        },
{
    match optional_unfolded(control, "Installed-Size") {
        None => Ok(None),
        Some(value) => {
            let characters = chars(value.as_str());
            match parse_number(characters.as_slice(), u64::MAX) {
                Ok(size) => Ok(Some(size)),
                Err(fault) => Err(
                    AppError::new(
                        String::from_str("invalid Installed-Size value '").concat(
                            value.as_str(),
                        ).concat("'; expected KiB as an integer").concat(": ").concat(
                            fault.describe(),
                        ),
                    ),
                ),
            }
        },
    }
}

fn read_relations(control: &DebianControl) -> (result: Vec<(RelationField, String)>)
    ensures
        relation_views(result@) == present_relations(control.deep_view(), RelationField::ALL@),
{
    let mut relations: Vec<(RelationField, String)> = Vec::new();
    let order = RelationField::ALL;
    let ghost all = order@;
    assert(all.take(0) == Seq::<RelationField>::empty());
    assert(relation_views(relations@) =~= seq![]);
    for index in 0..9usize
        invariant
            all == order@,
            all.len() == 9,
            relation_views(relations@) == present_relations(
                control.deep_view(),
                all.take(index as int),
            ),
    {
        let field = order[index];
        proof {
            assert(all.take(index + 1).drop_last() == all.take(index as int));
            assert(all.take(index + 1).last() == field);
        }
        if let Some(value) = control.get_unfolded(field.as_str()) {
            let ghost before = relation_views(relations@);
            let ghost text = value@;
            if value.as_str().unicode_len() > 0 {
                relations.push((field, value));
                assert(relation_views(relations@) =~= before.push((field, text)));
            }
        }
    }
    assert(all.take(9) == all);
    relations
}

impl DebianMetadata {
    /// Validate and convert one parsed control record.
    ///
    /// `Package`, `Version`, and `Architecture` are required because an Arch
    /// package cannot be built without them.
    pub fn from_control(control: &DebianControl) -> (result: Result<Self>)
        ensures
            outcome(result) == metadata_of(control.deep_view()),
    {
        let name = required_unfolded(control, "Package")?;
        let name_characters = chars(name.as_str());
        validate_package_name(name_characters.as_slice(), "Package")?;
        let debian_version = required_unfolded(control, "Version")?;
        let full_version = debian_version_to_arch(debian_version.as_str())?;
        let debian_architecture = required_unfolded(control, "Architecture")?;
        let architecture = String::from_str(map_architecture(debian_architecture.as_str())?);
        let source = match optional_unfolded(control, "Source") {
            Some(source) => parse_source_name(source.as_str())?,
            None => name.clone(),
        };
        let description = control.description();
        let installed_size = parse_installed_size(control)?;
        let relations = read_relations(control);
        Ok(
            DebianMetadata {
                name,
                source,
                debian_version,
                full_version,
                description: description.summary,
                long_description: description.long,
                url: optional_unfolded(control, "Homepage"),
                architecture,
                debian_architecture,
                installed_size,
                license: optional_unfolded(control, "License"),
                maintainer: optional_unfolded(control, "Maintainer"),
                relations,
            },
        )
    }

    /// Get the unfolded source text of a relationship field.
    pub fn relation_source(&self, field: RelationField) -> (result: Option<&str>)
        ensures
            result.deep_view() == listed_text(self.deep_view().relations, field),
    {
        let ghost all = relation_views(self.relations@);
        assert(all.skip(0) == all);
        for index in 0..self.relations.len()
            invariant
                all == relation_views(self.relations@),
                listed_text(all, field) == listed_text(all.skip(index as int), field),
        {
            assert(all.skip(index as int)[0] == all[index as int]);
            if self.relations[index].0 == field {
                return Some(self.relations[index].1.as_str());
            }
            assert(all.skip(index as int).drop_first() == all.skip(index + 1));
        }
        None
    }

    /// List the present relationship fields in stable field order.
    pub fn relation_sources(&self) -> (result: Vec<(RelationField, &str)>)
        ensures
            result@.map_values(|relation: (RelationField, &str)| (relation.0, relation.1@))
                == self.deep_view().relations,
    {
        let mut result: Vec<(RelationField, &str)> = Vec::new();
        for index in 0..self.relations.len()
            invariant
                result@.len() == index,
                forall|at: int|
                    0 <= at < index ==> (#[trigger] result@[at]).0 == self.relations@[at].0
                        && result@[at].1@ == self.relations@[at].1@,
        {
            result.push((self.relations[index].0, self.relations[index].1.as_str()));
        }
        assert(result@.map_values(|relation: (RelationField, &str)| (relation.0, relation.1@))
            =~= self.deep_view().relations);
        result
    }
}

/// Map a Debian binary architecture to the matching Arch architecture.
pub fn map_architecture(architecture: &str) -> (result: Result<&'static str>)
    ensures
        outcome(result) == architecture_of(architecture@),
{
    if equal(architecture, "all") {
        Ok("any")
    } else if equal(architecture, "amd64") {
        Ok("x86_64")
    } else if equal(architecture, "i386") {
        Ok("i686")
    } else if equal(architecture, "arm64") {
        Ok("aarch64")
    } else if equal(architecture, "armhf") {
        Ok("armv7h")
    } else if equal(architecture, "armel") {
        Ok("arm")
    } else if equal(architecture, "ppc64el") {
        Ok("ppc64le")
    } else if equal(architecture, "ppc64") {
        Ok("ppc64")
    } else if equal(architecture, "riscv64") {
        Ok("riscv64")
    } else if equal(architecture, "s390x") {
        Ok("s390x")
    } else {
        Err(
            AppError::new(
                String::from_str("unsupported Debian architecture '").concat(architecture).concat(
                    "'; provide an explicit mapping",
                ),
            ),
        )
    }
}

// ---------------------------------------------------------------------------
// Laws
// ---------------------------------------------------------------------------
proof fn lemma_listed_push(
    relations: Seq<(RelationField, Seq<char>)>,
    entry: (RelationField, Seq<char>),
    field: RelationField,
)
    ensures
        listed_text(relations.push(entry), field) == if listed_text(relations, field) is Some {
            listed_text(relations, field)
        } else if entry.0 == field {
            Some(entry.1)
        } else {
            None
        },
    decreases relations.len(),
{
    let longer = relations.push(entry);
    if relations.len() == 0 {
        assert(longer.drop_first() =~= relations);
    } else {
        assert(longer.drop_first() =~= relations.drop_first().push(entry));
        lemma_listed_push(relations.drop_first(), entry, field);
    }
}

proof fn lemma_listed_present(fields: Fields, order: Seq<RelationField>, field: RelationField)
    ensures
        listed_text(present_relations(fields, order), field) == if order.contains(field) {
            relation_text(fields, field)
        } else {
            None
        },
    decreases order.len(),
{
    if order.len() > 0 {
        let before = present_relations(fields, order.drop_last());
        lemma_listed_present(fields, order.drop_last(), field);
        assert(order =~= order.drop_last().push(order.last()));
        if order.drop_last().contains(field) {
            let at = choose|at: int| 0 <= at < order.len() - 1 && order.drop_last()[at] == field;
            assert(order[at] == field);
        }
        if order.last() == field {
            assert(order[order.len() - 1] == field);
        }
        if order.contains(field) && order.last() != field {
            let at = choose|at: int| 0 <= at < order.len() && order[at] == field;
            assert(order.drop_last()[at] == field);
        }
        if let Some(text) = relation_text(fields, order.last()) {
            lemma_listed_push(before, (order.last(), text), field);
        }
    }
}

/// The metadata gives back every relation field of the control record.
pub proof fn metadata_keeps_every_relation(fields: Fields, field: RelationField)
    requires
        metadata_of(fields) is Ok,
    ensures
        listed_text(metadata_of(fields)->Ok_0.relations, field) == relation_text(fields, field),
{
    let order = RelationField::ALL@;
    lemma_listed_present(fields, order, field);
    assert(order[0] == RelationField::PreDepends);
    assert(order[1] == RelationField::Depends);
    assert(order[2] == RelationField::Recommends);
    assert(order[3] == RelationField::Suggests);
    assert(order[4] == RelationField::Enhances);
    assert(order[5] == RelationField::Provides);
    assert(order[6] == RelationField::Conflicts);
    assert(order[7] == RelationField::Breaks);
    assert(order[8] == RelationField::Replaces);
    assert(order.contains(field));
}

proof fn lemma_last_occurrence(text: Seq<char>, part: Seq<char>, at: int, limit: int)
    requires
        0 <= at <= limit,
        at + part.len() <= text.len(),
        text.subrange(at, at + part.len()) == part,
        forall|later: int|
            at < later && later + part.len() <= text.len() ==> #[trigger] text.subrange(
                later,
                later + part.len(),
            ) != part,
    ensures
        last_occurrence(text, part, limit) == Some(at),
    decreases limit,
{
    if limit > at {
        lemma_last_occurrence(text, part, at, limit - 1);
    }
}

/// A source package is named without the version in parentheses behind it.
pub proof fn source_names_lack_their_version(name: Seq<char>, version: Seq<char>)
    requires
        !version.contains(' '),
    ensures
        without_source_version(name + " ("@ + version + ")"@) == name,
        !has_suffix(name, ")"@) ==> without_source_version(name) == name,
{
    let text = name + " ("@ + version + ")"@;
    let part = " ("@;
    reveal_strlit(" (");
    reveal_strlit(")");
    assert(text.skip(text.len() - 1) =~= ")"@);
    let at = name.len() as int;
    assert(text.subrange(at, at + 2) =~= part);
    assert forall|later: int| at < later && later + part.len() <= text.len() implies
        #[trigger] text.subrange(later, later + part.len()) != part by {
        assert(text.subrange(later, later + 2)[0] == text[later]);
        assert(part[0] == ' ');
        if later == at + 1 {
            assert(text[later] == '(');
        } else {
            assert(text[later] == version[later - at - 2]);
            assert(version.contains(version[later - at - 2]));
        }
    }
    lemma_last_occurrence(text, part, at, text.len() as int);
    assert(text.take(at) =~= name);
}

} // verus!
