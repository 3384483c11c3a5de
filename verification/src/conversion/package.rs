//! The metadata of an Arch package.

use vstd::prelude::*;

use crate::control::arch_version::{arch_version_of, ArchVersion};
use crate::control::metadata::{DebianMetadata, MetadataModel};
use crate::conversion::relations::{RelationsModel, ResolvedRelations};
use crate::error::{failure, outcome, Outcome, Result};
use crate::number::{decimal, decimal_text};
use crate::pieces::{
    keep_nonempty, lemma_split_join, lemma_split_whole, nonempty, split, split_at_class, texts,
    trim, trim_each, trimmed_each,
};
use crate::text::{chars, string, CharClass};

verus! {

/// The metadata of an Arch package that comes from a Debian package.
#[derive(Debug, Clone, PartialEq, Eq)]
pub struct ArchPackageMetadata {
    pub pkgname: String,
    pub pkgbase: String,
    pub full_version: String,
    pub version: String,
    pub release: String,
    pub epoch: Option<u64>,
    pub description: Option<String>,
    pub url: Option<String>,
    pub builddate: u64,
    pub packager: String,
    pub installed_size: u64,
    pub architecture: String,
    pub licenses: Vec<String>,
    pub depends: Vec<String>,
    pub optional_depends: Vec<String>,
    pub provides: Vec<String>,
    pub conflicts: Vec<String>,
    pub replaces: Vec<String>,
    pub backups: Vec<String>,
    pub debian_package: String,
    pub debian_version: String,
    pub debian_architecture: String,
}

/// The mathematical value of [`ArchPackageMetadata`].
pub struct PackageModel {
    pub pkgname: Seq<char>,
    pub pkgbase: Seq<char>,
    pub full_version: Seq<char>,
    pub version: Seq<char>,
    pub release: Seq<char>,
    pub epoch: Option<u64>,
    pub description: Option<Seq<char>>,
    pub url: Option<Seq<char>>,
    pub builddate: u64,
    pub packager: Seq<char>,
    pub installed_size: u64,
    pub architecture: Seq<char>,
    pub licenses: Seq<Seq<char>>,
    pub depends: Seq<Seq<char>>,
    pub optional_depends: Seq<Seq<char>>,
    pub provides: Seq<Seq<char>>,
    pub conflicts: Seq<Seq<char>>,
    pub replaces: Seq<Seq<char>>,
    pub backups: Seq<Seq<char>>,
    pub debian_package: Seq<char>,
    pub debian_version: Seq<char>,
    pub debian_architecture: Seq<char>,
}

impl DeepView for ArchPackageMetadata {
    type V = PackageModel;

    open spec fn deep_view(&self) -> PackageModel {
        PackageModel {
            pkgname: self.pkgname@,
            pkgbase: self.pkgbase@,
            full_version: self.full_version@,
            version: self.version@,
            release: self.release@,
            epoch: self.epoch,
            description: self.description.deep_view(),
            url: self.url.deep_view(),
            builddate: self.builddate,
            packager: self.packager@,
            installed_size: self.installed_size,
            architecture: self.architecture@,
            licenses: self.licenses.deep_view(),
            depends: self.depends.deep_view(),
            optional_depends: self.optional_depends.deep_view(),
            provides: self.provides.deep_view(),
            conflicts: self.conflicts.deep_view(),
            replaces: self.replaces.deep_view(),
            backups: self.backups.deep_view(),
            debian_package: self.debian_package@,
            debian_version: self.debian_version@,
            debian_architecture: self.debian_architecture@,
        }
    }
}

/// The licenses that a Debian field names.
pub open spec fn licenses_of(source: Option<Seq<char>>) -> Seq<Seq<char>> {
    match source {
        Some(value) => nonempty(trim_each(split(value, CharClass::Exactly(',')))),
        None => seq![],
    }
}

/// List the licenses that a Debian field names.
pub fn parse_licenses(source: Option<&str>) -> (result: Vec<String>)
    ensures
        result.deep_view() == licenses_of(source.deep_view()),
{
    let mut licenses: Vec<String> = Vec::new();
    let value = match source {
        Some(value) => value,
        None => {
            assert(licenses.deep_view() =~= seq![]);
            return licenses;
        },
    };
    let characters = chars(value);
    let parts = split_at_class(characters.as_slice(), CharClass::Exactly(','));
    let parts = keep_nonempty(&trimmed_each(&parts));
    let ghost all = texts(parts@);
    for index in 0..parts.len()
        invariant
            all == texts(parts@),
            licenses@.len() == index,
            forall|at: int| 0 <= at < index ==> (#[trigger] licenses@[at])@ == all[at],
    {
        let license = string(parts[index]);
        assert(all[index as int] == parts@[index as int]@);
        licenses.push(license);
    }
    assert(licenses.deep_view() =~= all);
    licenses
}

/// A time as archive tools take it.
pub open spec fn archive_time(value: u64) -> Outcome<i64> {
    if value > i64::MAX {
        Err("SOURCE_DATE_EPOCH is too large for archive timestamps."@)
    } else {
        Ok(value as i64)
    }
}

/// An optional time as archive tools take it.
pub open spec fn archive_epoch(value: Option<u64>) -> Outcome<Option<i64>> {
    match value {
        None => Ok(None),
        Some(seconds) => match archive_time(seconds) {
            Err(message) => Err(message),
            Ok(time) => Ok(Some(time)),
        },
    }
}

/// Convert an optional time for archive tools.
pub fn epoch_to_i64(value: Option<u64>) -> (result: Result<Option<i64>>)
    ensures
        match result {
            Ok(time) => archive_epoch(value) == Ok::<Option<i64>, Seq<char>>(time),
            Err(error) => archive_epoch(value) == Err::<Option<i64>, Seq<char>>(error@),
        },
{
    match value {
        None => Ok(None),
        Some(seconds) => if seconds > i64::MAX as u64 {
            Err(failure("SOURCE_DATE_EPOCH is too large for archive timestamps."))
        } else {
            Ok(Some(seconds as i64))
        },
    }
}

/// The metadata of the Arch package of a Debian package.
pub open spec fn package_of(
    debian: MetadataModel,
    relations: RelationsModel,
    installed_size: u64,
    backups: Seq<Seq<char>>,
    packager: Seq<char>,
    builddate: u64,
) -> Outcome<PackageModel> {
    match arch_version_of(debian.debian_version) {
        Err(message) => Err(message),
        Ok(version) => Ok(
            PackageModel {
                pkgname: debian.name,
                pkgbase: debian.source,
                full_version: debian.full_version,
                version: version.pkgver,
                release: decimal(version.pkgrel as nat),
                epoch: version.epoch,
                description: debian.description,
                url: debian.url,
                builddate,
                packager,
                installed_size,
                architecture: debian.architecture,
                licenses: licenses_of(debian.license),
                depends: relations.required,
                optional_depends: relations.optional,
                provides: relations.provides,
                conflicts: relations.conflicts,
                replaces: relations.replaces,
                backups,
                debian_package: debian.name,
                debian_version: debian.debian_version,
                debian_architecture: debian.debian_architecture,
            },
        ),
    }
}

/// The file name of a package.
pub open spec fn package_file_name(package: PackageModel) -> Seq<char> {
    package.pkgname + "-"@ + package.version + "-"@ + package.release + "-"@ + package.architecture
        + ".pkg.tar.zst"@
}

fn optional_copy(text: &Option<String>) -> (result: Option<String>)
    ensures
        result.deep_view() == text.deep_view(),
{
    match text {
        Some(value) => Some(value.clone()),
        None => None,
    }
}

/// Put together the metadata of the Arch package of a Debian package.
pub fn package_metadata(
    debian: &DebianMetadata,
    relations: ResolvedRelations,
    installed_size: u64,
    backups: Vec<String>,
    packager: &str,
    builddate: u64,
) -> (result: Result<ArchPackageMetadata>)
    ensures
        outcome(result) == package_of(
            debian.deep_view(),
            relations.deep_view(),
            installed_size,
            backups.deep_view(),
            packager@,
            builddate,
        ),
        result matches Ok(package) ==> {
            &&& package.pkgname@ == debian.name@
            &&& package.pkgbase@ == debian.source@
            &&& package.full_version@ == debian.full_version@
            &&& package.description.deep_view() == debian.description.deep_view()
            &&& package.url.deep_view() == debian.url.deep_view()
            &&& package.builddate == builddate
            &&& package.packager@ == packager@
            &&& package.installed_size == installed_size
            &&& package.architecture@ == debian.architecture@
            &&& package.depends.deep_view() == relations.required.deep_view()
            &&& package.optional_depends.deep_view() == relations.optional.deep_view()
            &&& package.provides.deep_view() == relations.provides.deep_view()
            &&& package.conflicts.deep_view() == relations.conflicts.deep_view()
            &&& package.replaces.deep_view() == relations.replaces.deep_view()
            &&& package.backups.deep_view() == backups.deep_view()
            &&& package.debian_package@ == debian.name@
            &&& package.debian_version@ == debian.debian_version@
            &&& package.debian_architecture@ == debian.debian_architecture@
        },
{
    let version = ArchVersion::from_debian(debian.debian_version.as_str())?;
    let licenses = match &debian.license {
        Some(value) => parse_licenses(Some(value.as_str())),
        None => parse_licenses(None),
    };
    Ok(
        ArchPackageMetadata {
            pkgname: debian.name.clone(),
            pkgbase: debian.source.clone(),
            full_version: debian.full_version.clone(),
            version: version.pkgver,
            release: decimal_text(version.pkgrel),
            epoch: version.epoch,
            description: optional_copy(&debian.description),
            url: optional_copy(&debian.url),
            builddate,
            packager: String::from_str(packager),
            installed_size,
            architecture: debian.architecture.clone(),
            licenses,
            depends: relations.required,
            optional_depends: relations.optional,
            provides: relations.provides,
            conflicts: relations.conflicts,
            replaces: relations.replaces,
            backups,
            debian_package: debian.name.clone(),
            debian_version: debian.debian_version.clone(),
            debian_architecture: debian.debian_architecture.clone(),
        },
    )
}

impl ArchPackageMetadata {
    /// The name of the package file.
    pub fn output_file_name(&self) -> (result: String)
        ensures
            result@ == package_file_name(self.deep_view()),
    {
        self.pkgname.clone().concat("-").concat(self.version.as_str()).concat("-").concat(
            self.release.as_str(),
        ).concat("-").concat(self.architecture.as_str()).concat(".pkg.tar.zst")
    }
}

// ---------------------------------------------------------------------------
// Laws
// ---------------------------------------------------------------------------
/// Each part of the metadata comes from its own source.
pub proof fn packages_keep_their_sources(
    debian: MetadataModel,
    relations: RelationsModel,
    installed_size: u64,
    backups: Seq<Seq<char>>,
    packager: Seq<char>,
    builddate: u64,
)
    ensures
        package_of(debian, relations, installed_size, backups, packager, builddate) matches Ok(
            package,
        ) ==> {
            &&& package.pkgname == debian.name
            &&& package.pkgbase == debian.source
            &&& package.full_version == debian.full_version
            &&& package.description == debian.description
            &&& package.url == debian.url
            &&& package.builddate == builddate
            &&& package.packager == packager
            &&& package.installed_size == installed_size
            &&& package.architecture == debian.architecture
            &&& package.depends == relations.required
            &&& package.optional_depends == relations.optional
            &&& package.provides == relations.provides
            &&& package.conflicts == relations.conflicts
            &&& package.replaces == relations.replaces
            &&& package.backups == backups
            &&& package.debian_package == debian.name
            &&& package.debian_version == debian.debian_version
            &&& package.debian_architecture == debian.debian_architecture
        },
        package_of(debian, relations, installed_size, backups, packager, builddate) is Ok
            <==> arch_version_of(debian.debian_version) is Ok,
{
}

/// Commas separate licenses: each part that is not blank is one, and without a
/// field there is none.
pub proof fn commas_separate_licenses(left: Seq<char>, right: Seq<char>)
    ensures
        licenses_of(Some(left.push(',') + right)) == licenses_of(Some(left)) + licenses_of(
            Some(right),
        ),
        !left.contains(',') && trim(left).len() > 0 ==> licenses_of(Some(left)) == seq![trim(left)],
        !left.contains(',') && trim(left).len() == 0 ==> licenses_of(Some(left)).len() == 0,
        licenses_of(None).len() == 0,
{
    let class = CharClass::Exactly(',');
    lemma_split_join(left, ',', right, class);
    let one = trim_each(split(left, class));
    let two = trim_each(split(right, class));
    assert(trim_each(split(left, class) + split(right, class)) =~= one + two);
    let pred = |part: Seq<char>| part.len() > 0;
    Seq::filter_distributes_over_add(one, two, pred);
    if !left.contains(',') {
        assert forall|index: int| 0 <= index < left.len() implies !class.has(
            #[trigger] left[index],
        ) by {
            assert(left.contains(left[index]));
        }
        lemma_split_whole(left, class);
        assert(one =~= seq![trim(left)]);
        reveal(Seq::filter);
        assert(one.drop_last() =~= seq![]);
        assert(one.drop_last().filter(pred) =~= seq![]);
        if trim(left).len() > 0 {
            assert(nonempty(one) =~= seq![trim(left)]);
        }
    }
}

} // verus!
