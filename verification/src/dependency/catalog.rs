//! The package names of the local pacman databases and the mapping of names.

use vstd::prelude::*;
use vstd::utf8::{decode_utf8, valid_utf8};

use crate::collection::TextSet;
use crate::encoding::{decode, decode_lossy, lemma_decoded, lossy_text, utf8_fault};
use crate::error::{outcome, Result};
use crate::lists::{
    lemma_set_grows, push_all_unique, set_of, slice_set, str_views, with_all_unique,
    unique_additions_stay_unique,
};
use crate::pieces::{
    keep_nonempty, lines, nonempty, split_lines, texts, trim, trim_each, trimmed, trimmed_each,
};
use crate::process::{suffix_detail, with_detail};
use crate::text::{chars, string};

verus! {

// ---------------------------------------------------------------------------
// Catalog
// ---------------------------------------------------------------------------
/// The lines of a text that hold more than white space, trimmed.
pub open spec fn nonempty_lines(source: Seq<char>) -> Seq<Seq<char>> {
    nonempty(trim_each(lines(source)))
}

pub fn line_set(source: &str) -> (result: TextSet)
    ensures
        result@ == set_of(nonempty_lines(source@)),
{
    let characters = chars(source);
    let all = split_lines(characters.as_slice());
    let parts = keep_nonempty(&trimmed_each(&all));
    let mut set = TextSet::new();
    let ghost names = texts(parts@);
    assert(set@ =~= names.take(0).to_set());
    for index in 0..parts.len()
        invariant
            names == texts(parts@),
            set@ == names.take(index as int).to_set(),
    {
        set.insert(string(parts[index]));
        proof {
            lemma_set_grows(names, index as int);
        }
    }
    assert(names.take(names.len() as int) == names);
    set
}

/// The mathematical value of a [`PackageCatalog`].
pub struct CatalogModel {
    pub available: Set<Seq<char>>,
    pub installed: Set<Seq<char>>,
    pub warnings: Seq<Seq<char>>,
    pub availability_known: bool,
    pub installed_known: bool,
}

impl CatalogModel {
    /// The package is in the sync database or is installed.
    pub open spec fn knows(self, name: Seq<char>) -> bool {
        self.available.contains(name) || self.installed.contains(name)
    }
}

/// Names read from the local pacman databases.
#[derive(Clone, Debug, PartialEq, Eq)]
pub struct PackageCatalog {
    available: TextSet,
    installed: TextSet,
    warnings: Vec<String>,
    available_query_succeeded: bool,
    installed_query_succeeded: bool,
}

impl View for PackageCatalog {
    type V = CatalogModel;

    closed spec fn view(&self) -> CatalogModel {
        CatalogModel {
            available: self.available@,
            installed: self.installed@,
            warnings: self.warnings.deep_view(),
            availability_known: self.available_query_succeeded,
            installed_known: self.installed_query_succeeded,
        }
    }
}

impl DeepView for PackageCatalog {
    type V = CatalogModel;

    open spec fn deep_view(&self) -> CatalogModel {
        self@
    }
}

/// How a pacman query ended.
#[derive(Clone, Debug, PartialEq, Eq)]
pub enum PacmanReply {
    /// The pacman command does not exist.
    Missing,
    /// The command could not be run; the text describes the reason.
    Unusable(String),
    /// The command ended without success. The status is described by a text.
    Failed { status: String, stderr: Vec<u8> },
    /// The command ended with success.
    Succeeded { stdout: Vec<u8> },
}

/// What a pacman query says: the names, the warnings, and whether it succeeded.
pub struct QueryModel {
    pub names: Set<Seq<char>>,
    pub warnings: Seq<Seq<char>>,
    pub succeeded: bool,
}

/// A query that gave no names, with a warning that says why.
pub open spec fn unusable_query(warning: Seq<char>) -> QueryModel {
    QueryModel { names: Set::empty(), warnings: seq![warning], succeeded: false }
}

/// The reply of a pacman query as package names and warnings.
pub open spec fn query_of(reply: PacmanReply, label: Seq<char>) -> QueryModel {
    match reply {
        PacmanReply::Missing => unusable_query(
            "pacman is not available; dependency availability could not be checked"@,
        ),
        PacmanReply::Unusable(reason) => unusable_query(
            "could not read "@ + label + " pacman packages: "@ + reason@,
        ),
        PacmanReply::Failed { status, stderr } => unusable_query(
            "pacman could not list "@ + label + " packages (status "@ + status@ + ")"@
                + with_detail(trim(lossy_text(stderr@))),
        ),
        PacmanReply::Succeeded { stdout } => if valid_utf8(stdout@) {
            QueryModel {
                names: set_of(nonempty_lines(decode_utf8(stdout@))),
                warnings: seq![],
                succeeded: true,
            }
        } else {
            unusable_query(
                "pacman returned non-UTF-8 "@ + label + " package names: "@ + utf8_fault(stdout@),
            )
        },
    }
}

/// The query gave package names: it succeeded, and its output is text.
pub open spec fn is_usable(reply: PacmanReply) -> bool {
    reply matches PacmanReply::Succeeded { stdout } && valid_utf8(stdout@)
}

struct PacmanQuery {
    names: TextSet,
    warnings: Vec<String>,
    succeeded: bool,
}

impl DeepView for PacmanQuery {
    type V = QueryModel;

    closed spec fn deep_view(&self) -> QueryModel {
        QueryModel {
            names: self.names@,
            warnings: self.warnings.deep_view(),
            succeeded: self.succeeded,
        }
    }
}

fn one_warning(warning: String) -> (result: PacmanQuery)
    ensures
        result.deep_view() == unusable_query(warning@),
{
    let mut warnings: Vec<String> = Vec::new();
    warnings.push(warning);
    let result = PacmanQuery { names: TextSet::new(), warnings, succeeded: false };
    assert(result.deep_view().warnings =~= seq![warning@]);
    result
}

/// Read the reply of a pacman query.
fn read_pacman_query(reply: &PacmanReply, label: &str) -> (result: PacmanQuery)
    ensures
        result.deep_view() == query_of(*reply, label@),
{
    match reply {
        PacmanReply::Missing => one_warning(
            String::from_str(
                "pacman is not available; dependency availability could not be checked",
            ),
        ),
        PacmanReply::Unusable(reason) => one_warning(
            String::from_str("could not read ").concat(label).concat(" pacman packages: ").concat(
                reason.as_str(),
            ),
        ),
        PacmanReply::Failed { status, stderr } => {
            let text = decode_lossy(stderr.as_slice());
            let characters = chars(text.as_str());
            let detail = string(trimmed(characters.as_slice()));
            let start = String::from_str("pacman could not list ").concat(label).concat(
                " packages (status ",
            ).concat(status.as_str()).concat(")");
            one_warning(start.concat(suffix_detail(detail.as_str()).as_str()))
        },
        PacmanReply::Succeeded { stdout } => match decode(stdout.as_slice()) {
            Ok(text) => {
                proof {
                    lemma_decoded(text@, stdout@);
                }
                let warnings: Vec<String> = Vec::new();
                assert(warnings.deep_view() =~= Seq::<Seq<char>>::empty());
                PacmanQuery { names: line_set(text.as_str()), warnings, succeeded: true }
            },
            Err(description) => one_warning(
                String::from_str("pacman returned non-UTF-8 ").concat(label).concat(
                    " package names: ",
                ).concat(description.as_str()),
            ),
        },
    }
}

/// The catalog that two pacman queries give.
pub open spec fn catalog_of(available: QueryModel, installed: QueryModel) -> CatalogModel {
    CatalogModel {
        available: available.names,
        installed: installed.names,
        warnings: with_all_unique(available.warnings, installed.warnings),
        availability_known: available.succeeded,
        installed_known: installed.succeeded,
    }
}

/// The catalog that the replies to the two pacman queries give.
pub open spec fn loaded_catalog(available: PacmanReply, installed: PacmanReply) -> CatalogModel {
    catalog_of(query_of(available, "available"@), query_of(installed, "installed"@))
}

impl PackageCatalog {
    /// Build the catalog from the replies to `pacman -Slq` and `pacman -Qq`.
    ///
    /// A missing or unusable pacman command produces an empty set and a
    /// warning.  It does not stop conversion, so the result is never an error.
    pub fn load(available: &PacmanReply, installed: &PacmanReply) -> (result: Result<Self>)
        ensures
            result is Ok,
            outcome(result) == Ok::<CatalogModel, Seq<char>>(
                loaded_catalog(*available, *installed),
            ),
    {
        let available_query = read_pacman_query(available, "available");
        let installed_query = read_pacman_query(installed, "installed");
        let mut warnings = available_query.warnings;
        push_all_unique(&mut warnings, &installed_query.warnings);
        Ok(
            PackageCatalog {
                available: available_query.names,
                installed: installed_query.names,
                warnings,
                available_query_succeeded: available_query.succeeded,
                installed_query_succeeded: installed_query.succeeded,
            },
        )
    }

    /// Build a deterministic catalog without starting pacman.
    pub fn from_packages(available: &[&str], installed: &[&str]) -> (result: Self)
        ensures
            result@ == (CatalogModel {
                available: set_of(str_views(available@)),
                installed: set_of(str_views(installed@)),
                warnings: seq![],
                availability_known: true,
                installed_known: true,
            }),
    {
        let warnings: Vec<String> = Vec::new();
        assert(warnings.deep_view() =~= Seq::<Seq<char>>::empty());
        PackageCatalog {
            available: slice_set(available),
            installed: slice_set(installed),
            warnings,
            available_query_succeeded: true,
            installed_query_succeeded: true,
        }
    }

    /// Build a catalog from the exact stdout of `pacman -Slq` and `pacman -Qq`.
    pub fn from_pacman_output(available: &str, installed: &str) -> (result: Self)
        ensures
            result@ == (CatalogModel {
                available: set_of(nonempty_lines(available@)),
                installed: set_of(nonempty_lines(installed@)),
                warnings: seq![],
                availability_known: true,
                installed_known: true,
            }),
    {
        let warnings: Vec<String> = Vec::new();
        assert(warnings.deep_view() =~= Seq::<Seq<char>>::empty());
        PackageCatalog {
            available: line_set(available),
            installed: line_set(installed),
            warnings,
            available_query_succeeded: true,
            installed_query_succeeded: true,
        }
    }

    /// Test whether a package is in the sync database or is installed.
    pub fn contains(&self, name: &str) -> (result: bool)
        ensures
            result == self@.knows(name@),
    {
        self.available.contains(name) || self.installed.contains(name)
    }

    /// Test whether a package is installed.
    pub fn is_installed(&self, name: &str) -> (result: bool)
        ensures
            result == self@.installed.contains(name@),
    {
        self.installed.contains(name)
    }

    /// Test whether a package is in a configured sync database.
    pub fn is_available(&self, name: &str) -> (result: bool)
        ensures
            result == self@.available.contains(name@),
    {
        self.available.contains(name)
    }

    /// Warnings produced while the catalog was loaded.
    pub fn warnings(&self) -> (result: &Vec<String>)
        ensures
            result.deep_view() == self@.warnings,
    {
        &self.warnings
    }

    /// Return `true` when the sync database query completed successfully.
    pub fn availability_is_known(&self) -> (result: bool)
        ensures
            result == self@.availability_known,
    {
        self.available_query_succeeded
    }

    /// Return `true` when the installed database query completed successfully.
    pub fn installed_state_is_known(&self) -> (result: bool)
        ensures
            result == self@.installed_known,
    {
        self.installed_query_succeeded
    }
}

// ---------------------------------------------------------------------------
// Laws
// ---------------------------------------------------------------------------
/// A loaded catalog repeats no warning.
pub proof fn loaded_warnings_are_unique(available: PacmanReply, installed: PacmanReply)
    ensures
        loaded_catalog(available, installed).warnings.no_duplicates(),
{
    unique_additions_stay_unique(
        query_of(available, "available"@).warnings,
        query_of(installed, "installed"@).warnings,
    );
}

/// A query that gives no package names leaves its set empty and unknown, and a
/// warning says so.  A query that gives names leaves exactly those, and without
/// any other query there is nothing to warn of.
pub proof fn unusable_queries_only_warn(available: PacmanReply, installed: PacmanReply)
    ensures
        ({
            let catalog = loaded_catalog(available, installed);
            &&& catalog.availability_known == is_usable(available)
            &&& catalog.installed_known == is_usable(installed)
            &&& is_usable(available) ==> catalog.available == set_of(
                nonempty_lines(decode_utf8(available->stdout@)),
            )
            &&& is_usable(installed) ==> catalog.installed == set_of(
                nonempty_lines(decode_utf8(installed->stdout@)),
            )
            &&& !is_usable(available) ==> catalog.available == Set::<Seq<char>>::empty()
            &&& !is_usable(installed) ==> catalog.installed == Set::<Seq<char>>::empty()
            &&& catalog.warnings.len() == 0 <==> is_usable(available) && is_usable(installed)
        }),
{
    let first = query_of(available, "available"@).warnings;
    let second = query_of(installed, "installed"@).warnings;
    let all = with_all_unique(first, second);
    unique_additions_stay_unique(first, second);
    if is_usable(available) && is_usable(installed) {
        assert(all =~= seq![]);
    } else if !is_usable(available) {
        assert(first[0] == first.last());
        assert(all.to_set().contains(first[0]));
    } else {
        assert(second[0] == second.last());
        assert(all.to_set().contains(second[0]));
    }
}

} // verus!
