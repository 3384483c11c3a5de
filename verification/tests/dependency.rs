use std::cmp::Ordering;

use debtap_rs::collection::TextSet;
use debtap_rs::dependency::catalog::PacmanReply;
use debtap_rs::dependency::resolver::host_debian_architecture;
use debtap_rs::dependency::{
    built_in_package_mapping, compare_debian_versions, DependencyResolver, PackageCatalog, PackageMapping, PackageQualifier,
    RelationSet, VersionConstraint, VersionOperator,
};

#[test]
fn parses_complete_relation_syntax() {
    let parsed = RelationSet::parse(
        "libfoo:any (<< 2:3.0-1) [amd64 arm64] <!nocheck> | libbar:native, baz-qux (>> 1.0)",
    )
    .unwrap();
    assert_eq!(parsed.groups.len(), 2);
    let relation = &parsed.groups[0].alternatives[0];
    assert_eq!(relation.name, "libfoo");
    assert_eq!(relation.qualifier, Some(PackageQualifier::Any));
    assert_eq!(
        relation.version,
        Some(VersionConstraint {
            operator: VersionOperator::LessThan,
            version: "2:3.0-1".to_owned(),
        })
    );
    assert_eq!(relation.architecture_restrictions.len(), 2);
    assert!(relation.matches_architecture("amd64"));
    assert!(!relation.matches_architecture("i386"));
    assert!(relation.matches_profiles(&TextSet::new()));
}

#[test]
fn evaluates_negative_architecture_and_profile_restrictions() {
    let parsed = RelationSet::parse("libfoo [!arm64] <stage1 !nocheck>").unwrap();
    let relation = &parsed.groups[0].alternatives[0];
    assert!(relation.matches_architecture("amd64"));
    assert!(!relation.matches_architecture("arm64"));
    let mut profiles = TextSet::new();
    profiles.insert("stage1".to_owned());
    assert!(relation.matches_profiles(&profiles));
    profiles.insert("nocheck".to_owned());
    assert!(!relation.matches_profiles(&profiles));
}

#[test]
fn rejects_malformed_relations() {
    for source in [
        "libfoo |",
        "libfoo (>=)",
        "libfoo (>= 1",
        "libfoo [amd64 !arm64]",
        "Bad_Name",
        "libfoo:",
    ] {
        assert!(RelationSet::parse(source).is_err(), "accepted {source}");
    }
}

#[test]
fn catalog_deduplicates_pacman_output() {
    let catalog = PackageCatalog::from_pacman_output("gtk3\nglib2\ngtk3\n", "glibc\n");
    assert!(catalog.is_available("gtk3"));
    assert!(catalog.is_installed("glibc"));
    assert!(!catalog.contains("missing"));
}

#[test]
fn selects_an_installed_alternative_then_an_available_one() {
    let catalog = PackageCatalog::from_packages(&["glib2", "kde-cli-tools"], &["kde-cli-tools"]);
    let resolver = DependencyResolver::new(&catalog, "x86_64");
    let relations =
        RelationSet::parse("libglib2.0-bin | kde-cli-tools | kde-runtime | trash-cli").unwrap();
    let resolution = resolver.resolve_required(&relations);
    assert_eq!(resolution.dependencies, ["kde-cli-tools"]);
    assert_eq!(resolution.alternative_selections.len(), 1);
    assert_eq!(
        resolution.alternative_selections[0].other_choices,
        ["glib2", "kde-runtime", "trash-cli"]
    );
}

#[test]
fn maps_and_deduplicates_chatgpt_dependencies() {
    let catalog = PackageCatalog::from_packages(
        &["gtk3", "at-spi2-core", "glibc", "glib2", "mesa", "gcc-libs"],
        &[],
    );
    let resolver = DependencyResolver::new(&catalog, "x86_64");
    let relations = RelationSet::parse(
        "libgtk-3-0, libatspi2.0-0, libatk1.0-0 (>= 2.32), libc6 (>= 2.30), libc6 (>= 2.35), libgbm1, libglib2.0-0, libgcc-s1, libstdc++6",
    )
    .unwrap();
    let resolution = resolver.resolve_required(&relations);
    assert_eq!(
        resolution.dependencies,
        ["gtk3", "at-spi2-core", "glibc", "mesa", "glib2", "gcc-libs"]
    );
    assert!(!resolution
        .dependencies
        .iter()
        .any(|dependency| dependency.contains("2.35")));
}

#[test]
fn includes_opencode_secret_and_uuid_mappings() {
    let catalog = PackageCatalog::from_packages(
        &["libsecret", "util-linux-libs", "libappindicator"],
        &[],
    );
    let resolver = DependencyResolver::new(&catalog, "x86_64");
    let required =
        resolver.resolve_required(&RelationSet::parse("libuuid1, libsecret-1-0").unwrap());
    let optional = resolver.resolve_optional(
        &RelationSet::parse("libappindicator3-1").unwrap(),
        "Debian recommends",
    );
    assert_eq!(required.dependencies, ["util-linux-libs", "libsecret"]);
    assert_eq!(
        optional.dependencies,
        ["libappindicator: Debian recommends"]
    );
}

#[test]
fn retains_and_merges_only_explicitly_compatible_versions() {
    let catalog = PackageCatalog::from_packages(&["foo"], &[]);
    let mut resolver = DependencyResolver::new(&catalog, "x86_64");
    resolver
        .add_mapping("libfoo", PackageMapping::new("foo", true))
        .unwrap();
    let relations = RelationSet::parse("libfoo (>= 2.30), libfoo (>= 2.35)").unwrap();
    let resolution = resolver.resolve_required(&relations);
    assert_eq!(resolution.dependencies, ["foo>=2.35"]);
}

#[test]
fn warns_and_keeps_unknown_valid_names() {
    let catalog = PackageCatalog::from_packages(&[], &[]);
    let resolver = DependencyResolver::new(&catalog, "x86_64");
    let resolution = resolver.resolve_required(&RelationSet::parse("some-runtime").unwrap());
    assert_eq!(resolution.dependencies, ["some-runtime"]);
    assert!(resolution
        .warnings
        .iter()
        .any(|warning| warning.contains("no Debian-to-Arch mapping")));
}

#[test]
fn compares_debian_versions_for_stronger_limits() {
    assert_eq!(compare_debian_versions("2.35", "2.30"), Ordering::Greater);
    assert_eq!(compare_debian_versions("1.0~rc1", "1.0"), Ordering::Less);
    assert_eq!(
        compare_debian_versions("2:1.0-1", "1:9.0-9"),
        Ordering::Greater
    );
    assert_eq!(compare_debian_versions("1.01", "1.1"), Ordering::Equal);
}

#[test]
fn faulty_relations_are_named() {
    for (source, message) in [
        ("Bad_Name", "invalid Debian relation package name 'Bad_Name'"),
        ("libfoo:", "invalid Debian package qualifier ''"),
        ("libfoo (!! 1)", "invalid Debian version operator '!!'"),
        ("libfoo ()", "a Debian version constraint has no operator"),
        ("libfoo (>=)", "a Debian version constraint has no version"),
        (
            "libfoo [amd64 !arm64]",
            "relation 'libfoo [amd64 !arm64]' mixes positive and negative architecture restrictions",
        ),
        (
            "libfoo (= 1) (= 2)",
            "relation 'libfoo (= 1) (= 2)' has more than one version constraint",
        ),
        (
            "libfoo [a] [b]",
            "relation 'libfoo [a] [b]' has more than one architecture restriction",
        ),
        ("libfoo []", "empty architecture restriction"),
        ("libfoo <>", "empty build profile restriction"),
        ("libfoo |", "empty alternative after a vertical bar"),
        ("libfoo, , libbar", "empty relation group after a comma"),
    ] {
        assert_eq!(
            RelationSet::parse(source).unwrap_err().to_string(),
            message,
            "{source}"
        );
    }
    for source in ["libfoo (>= 1", "libfoo )", "libfoo [a", "libfoo ? x"] {
        assert!(RelationSet::parse(source).is_err(), "{source}");
    }
    assert!(RelationSet::parse("").unwrap().is_empty());
}

#[test]
fn relation_sets_are_appended() {
    let mut first = RelationSet::parse("libfoo").unwrap();
    first.append(RelationSet::parse("libbar | libbaz").unwrap());
    assert_eq!(first, RelationSet::parse("libfoo, libbar | libbaz").unwrap());
}

#[test]
fn versions_have_the_order_of_debian() {
    let ascending = [
        "1.0~~", "1.0~~a", "1.0~", "1.0", "1.0a", "1.0b", "1.0+", "1.1", "1.2", "1.10", "2", "1:0",
    ];
    for (left, one) in ascending.iter().enumerate() {
        for (right, two) in ascending.iter().enumerate() {
            assert_eq!(compare_debian_versions(one, two), left.cmp(&right), "{one} {two}");
        }
    }
    assert_eq!(compare_debian_versions("1a1", "1a+"), Ordering::Less);
    assert_eq!(compare_debian_versions("0:1", "1"), Ordering::Equal);
    assert_eq!(compare_debian_versions("1-1", "1"), Ordering::Greater);
    assert_eq!(compare_debian_versions("1-0", "1"), Ordering::Equal);
    assert_eq!(
        compare_debian_versions("99999999999999999999999999", "100000000000000000000000000"),
        Ordering::Less
    );
}

#[test]
fn dropped_limits_and_foreign_qualifiers_are_reported() {
    let catalog = PackageCatalog::from_packages(&["glibc"], &["gtk3"]);
    let resolver = DependencyResolver::new(&catalog, "x86_64");
    let relations = RelationSet::parse("libc6:armhf (>= 2.3)").unwrap();
    let resolution = resolver.resolve_required(&relations);
    assert_eq!(resolution.dependencies, ["glibc"]);
    assert_eq!(
        resolution.warnings,
        [
            "dropped the Debian version constraint for 'libc6' because Arch versions are not marked compatible",
            "removed the foreign architecture qualifier from 'libc6'",
        ]
    );
    let resolution = resolver.resolve_required(&RelationSet::parse("libsecret-1-0").unwrap());
    assert_eq!(
        resolution.warnings,
        ["selected Arch dependency 'libsecret' is not installed or available in the local pacman databases"]
    );
    assert!(resolver
        .resolve_names(&RelationSet::parse("libsecret-1-0").unwrap())
        .warnings
        .is_empty());
}

#[test]
fn incompatible_limits_keep_the_first() {
    let catalog = PackageCatalog::from_packages(&["foo"], &[]);
    let mut resolver = DependencyResolver::new(&catalog, "x86_64");
    resolver
        .add_mapping("libfoo", PackageMapping::new("foo", true))
        .unwrap();
    let resolution =
        resolver.resolve_required(&RelationSet::parse("libfoo (>= 1), libfoo (<= 2)").unwrap());
    assert_eq!(resolution.dependencies, ["foo>=1"]);
    assert_eq!(
        resolution.warnings,
        ["could not combine incompatible version limits '>=1' and '<=2'; kept the first limit"]
    );
    assert!(resolver.add_mapping("Bad_Name", PackageMapping::new("foo", true)).is_err());
    assert!(resolver.add_mapping("libfoo", PackageMapping::new("no name", true)).is_err());
}

#[test]
fn relations_for_other_targets_are_left_out() {
    let catalog = PackageCatalog::from_packages(&["one", "two", "three"], &[]);
    let resolver = DependencyResolver::new(&catalog, "x86_64")
        .with_target_architecture("arm64")
        .with_active_profiles(&["cross"]);
    let relations =
        RelationSet::parse("one [amd64], two [any-arm64], three <cross>, four <!cross>").unwrap();
    assert_eq!(resolver.resolve_required(&relations).dependencies, ["two", "three"]);
    assert_eq!(
        DependencyResolver::new(&catalog, "x86_64")
            .resolve_required(&relations)
            .dependencies,
        ["one", "four"]
    );
}

#[test]
fn sources_are_resolved_together() {
    let catalog = PackageCatalog::from_packages(&["gtk3", "glibc"], &[]);
    let resolver = DependencyResolver::new(&catalog, "x86_64");
    let resolution = resolver
        .resolve_required_sources(&["libgtk-3-0", "libc6, libgtk-3-0"])
        .unwrap();
    assert_eq!(resolution.dependencies, ["gtk3", "glibc"]);
    assert!(resolver.resolve_required_sources(&["libfoo", "("]).is_err());
    let mut merged = resolution.clone();
    merged.merge(resolution.clone());
    assert_eq!(merged.dependencies, resolution.dependencies);
}

#[test]
fn pacman_replies_become_a_catalog() {
    let load = |available: PacmanReply, installed: PacmanReply| {
        PackageCatalog::load(&available, &installed)
    };
    let failed = PacmanReply::Failed {
        status: "exit status: 1".to_string(),
        stderr: b"no database\n".to_vec(),
    };
    let catalog = load(failed, PacmanReply::Unusable("denied".to_string())).unwrap();
    assert_eq!(
        catalog.warnings(),
        &[
            "pacman could not list available packages (status exit status: 1): no database",
            "could not read installed pacman packages: denied",
        ]
    );
    assert!(!catalog.availability_is_known());
    assert!(!catalog.installed_state_is_known());
    let catalog = load(PacmanReply::Missing, PacmanReply::Missing).unwrap();
    assert_eq!(catalog.warnings().len(), 1);
}

#[test]
fn output_that_is_not_text_is_only_a_warning() {
    let unreadable = PacmanReply::Succeeded { stdout: vec![0xff] };
    let readable = PacmanReply::Succeeded { stdout: b" glibc \n\nzlib\n".to_vec() };
    let fault = std::str::from_utf8(&[0xff]).unwrap_err().to_string();
    let catalog = PackageCatalog::load(&unreadable, &readable).unwrap();
    assert_eq!(
        catalog.warnings(),
        &[format!("pacman returned non-UTF-8 available package names: {fault}")]
    );
    assert!(!catalog.availability_is_known());
    assert!(catalog.installed_state_is_known());
    assert!(!catalog.is_available("glibc"));
    assert!(catalog.is_installed("glibc") && catalog.is_installed("zlib"));

    let catalog = PackageCatalog::load(&readable, &unreadable).unwrap();
    assert_eq!(
        catalog.warnings(),
        &[format!("pacman returned non-UTF-8 installed package names: {fault}")]
    );
    assert!(catalog.availability_is_known() && catalog.is_available("zlib"));
    assert!(!catalog.installed_state_is_known() && !catalog.is_installed("zlib"));
    assert!(PackageCatalog::load(&readable, &readable).unwrap().warnings().is_empty());
}

#[test]
fn the_order_of_sections_does_not_matter() {
    let parse = |source: &str| RelationSet::parse(source);
    let (v, a, p) = ("(>= 1)", "[amd64 arm64]", "<!nocheck>");
    let expected = parse(&format!("ab:any {v} {a} {p}")).unwrap();
    for order in [[v, p, a], [a, v, p], [a, p, v], [p, v, a], [p, a, v]] {
        let source = format!("ab:any {} {} {}", order[0], order[1], order[2]);
        assert_eq!(parse(&source).unwrap(), expected, "{source}");
    }
    assert!(parse(&format!("ab {v} {a} {v}")).is_err());
    assert!(parse(&format!("ab {a} {p} {a}")).is_err());
    let repeated = parse(&format!("ab:any {v} {a} {p} {p}")).unwrap();
    let lists = &repeated.groups[0].alternatives[0].profile_restrictions;
    assert_eq!(lists.len(), 2);
    assert_eq!(lists[0], lists[1]);
    assert_eq!(
        lists[..1],
        expected.groups[0].alternatives[0].profile_restrictions[..]
    );
}

#[test]
fn packages_and_warnings_keep_their_order() {
    let catalog = PackageCatalog::load(
        &PacmanReply::Unusable("denied".to_string()),
        &PacmanReply::Missing,
    )
    .unwrap();
    let resolver = DependencyResolver::new(&catalog, "x86_64");
    let relations = RelationSet::parse("zz-unknown, libc6, aa-unknown, zz-unknown").unwrap();
    let resolution = resolver.resolve_required(&relations);
    assert_eq!(resolution.dependencies, ["zz-unknown", "glibc", "aa-unknown"]);
    assert_eq!(resolution.warnings[..2], catalog.warnings()[..]);
    assert_eq!(resolution.warnings.len(), 4);
    assert_eq!(resolver.resolve_required(&relations), resolution);
}

#[test]
fn some_names_have_a_built_in_mapping() {
    assert_eq!(built_in_package_mapping("libc6").map(|found| found.0), Some("glibc"));
    assert!(built_in_package_mapping("no-such-name").is_none());
    assert_eq!(host_debian_architecture("x86_64"), "amd64");
    assert_eq!(host_debian_architecture("aarch64"), "arm64");
}
