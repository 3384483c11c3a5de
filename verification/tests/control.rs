use debtap_rs::control::{
    debian_version_to_arch, map_architecture, ArchVersion, DebianControl, DebianDescription,
    DebianMetadata, RelationField,
};

const CHATGPT_CONTROL: &str = "Package: chatgpt\nVersion: 26.803.81509\nArchitecture: amd64\nDepends: libgtk-3-0,\n libc6 (>= 2.35)\nInstalled-Size: 1284968\nHomepage: https://example.invalid\nDescription: ChatGPT by OpenAI\n ChatGPT is an AI assistant.\n .\n A second paragraph.\n";

#[test]
fn parses_folded_fields_and_descriptions() {
    let control = DebianControl::parse(CHATGPT_CONTROL).unwrap();
    assert_eq!(control.get("depends"), Some("libgtk-3-0,\nlibc6 (>= 2.35)"));
    assert_eq!(
        control.get_unfolded("DEPENDS").as_deref(),
        Some("libgtk-3-0, libc6 (>= 2.35)")
    );
    assert_eq!(
        control.description(),
        DebianDescription {
            summary: Some("ChatGPT by OpenAI".to_owned()),
            long: Some("ChatGPT is an AI assistant.\n\nA second paragraph.".to_owned()),
        }
    );
}

#[test]
fn dot_only_description_is_absent() {
    let control = DebianControl::parse(
        "Package: opencode\nVersion: 1.18.3\nArchitecture: amd64\nDescription:\n .\n",
    )
    .unwrap();
    let metadata = DebianMetadata::from_control(&control).unwrap();
    assert_eq!(metadata.description, None);
    assert_eq!(metadata.long_description, None);
}

#[test]
fn builds_typed_metadata() {
    let control = DebianControl::parse(CHATGPT_CONTROL).unwrap();
    let metadata = DebianMetadata::from_control(&control).unwrap();
    assert_eq!(metadata.name, "chatgpt");
    assert_eq!(metadata.source, "chatgpt");
    assert_eq!(metadata.full_version, "26.803.81509-1");
    assert_eq!(metadata.architecture, "x86_64");
    assert_eq!(metadata.debian_architecture, "amd64");
    assert_eq!(metadata.installed_size, Some(1_284_968));
    assert_eq!(
        metadata.relation_source(RelationField::Depends),
        Some("libgtk-3-0, libc6 (>= 2.35)")
    );
}

#[test]
fn removes_source_version() {
    let control = DebianControl::parse(
        "Package: binary-name\nSource: source-name (2:1.0-1)\nVersion: 1.0\nArchitecture: all\n",
    )
    .unwrap();
    let metadata = DebianMetadata::from_control(&control).unwrap();
    assert_eq!(metadata.source, "source-name");
    assert_eq!(metadata.architecture, "any");
}

#[test]
fn converts_epoch_and_escapes_arch_forbidden_characters() {
    assert_eq!(
        debian_version_to_arch("2:1.0~rc1-3").unwrap(),
        "2:1.0~rc1%2D3-1"
    );
    assert_eq!(debian_version_to_arch("0:1.0-1").unwrap(), "1.0%2D1-1");
    assert_eq!(debian_version_to_arch("1:2/3:4").unwrap(), "1:2%2F3%3A4-1");
}

#[test]
fn rejects_missing_required_fields_and_bad_records() {
    let missing = DebianControl::parse("Package: example\nVersion: 1\n").unwrap();
    assert!(DebianMetadata::from_control(&missing).is_err());
    assert!(DebianControl::parse(" orphan continuation\n").is_err());
    assert!(DebianControl::parse("Package: one\n\nPackage: two\n").is_err());
    assert!(DebianControl::parse("Package: one\nPackage: two\n").is_err());
}

#[test]
fn maps_all_supported_architectures() {
    let cases = [
        ("all", "any"),
        ("amd64", "x86_64"),
        ("i386", "i686"),
        ("arm64", "aarch64"),
        ("armhf", "armv7h"),
        ("armel", "arm"),
        ("ppc64el", "ppc64le"),
        ("ppc64", "ppc64"),
        ("riscv64", "riscv64"),
        ("s390x", "s390x"),
    ];
    for (debian, arch) in cases {
        assert_eq!(map_architecture(debian).unwrap(), arch);
    }
    assert!(map_architecture("mips64el").is_err());
}

fn parse_fault(text: &str) -> String {
    DebianControl::parse(text).unwrap_err().to_string()
}

fn metadata_fault(text: &str) -> String {
    DebianMetadata::from_control(&DebianControl::parse(text).unwrap())
        .unwrap_err()
        .to_string()
}

#[test]
fn faulty_paragraphs_are_named() {
    for (text, message) in [
        ("Package: a\0b\n", "the Debian control record contains a NUL byte"),
        ("", "the Debian control record is empty"),
        ("\n\n", "the Debian control record is empty"),
        (" x\n", "control continuation line 1 has no field"),
        ("Package\n", "control line 1 does not contain a field separator"),
        ("Pack age: x\n", "invalid control field name 'Pack age' at line 1"),
        ("A: 1\na: 2\n", "control field 'a' occurs more than once"),
        (
            "A: 1\n\nB: 2\n",
            "the binary package control file has more than one paragraph (line 3)",
        ),
        (
            "A: 1\n\n x\n",
            "unexpected continuation line after the control paragraph at line 3",
        ),
    ] {
        assert_eq!(parse_fault(text), message, "{text:?}");
    }
}

#[test]
fn faulty_metadata_is_named() {
    for (text, message) in [
        ("Version: 1\n", "required control field 'Package' is missing"),
        ("Package:\nVersion: 1\n", "required control field 'Package' is empty"),
        (
            "Package: Big\nVersion: 1\nArchitecture: all\n",
            "invalid Debian Package package name 'Big'",
        ),
        (
            "Package: ab\nSource: x_y\nVersion: 1\nArchitecture: all\n",
            "invalid Debian Source package name 'x_y'",
        ),
        (
            "Package: ab\nVersion: 1\nArchitecture: mips\n",
            "unsupported Debian architecture 'mips'; provide an explicit mapping",
        ),
        (
            "Package: ab\nVersion: a1\nArchitecture: all\n",
            "Debian version 'a1' must start with a digit after its optional epoch",
        ),
    ] {
        assert_eq!(metadata_fault(text), message, "{text:?}");
    }
    assert!(metadata_fault("Package: ab\nVersion: 1\nArchitecture: all\nInstalled-Size: many\n")
        .starts_with("invalid Installed-Size value 'many'; expected KiB as an integer: "));
}

#[test]
fn faulty_versions_are_refused() {
    for version in ["", "1 2", "1\u{7}", "x", ":1", "a:1", "1:", "1*", "99999999999999999999:1"] {
        assert!(debian_version_to_arch(version).is_err(), "{version}");
    }
    let version = ArchVersion::from_debian("7:1%2-3").unwrap();
    assert_eq!(version.epoch, Some(7));
    assert_eq!(version.pkgver, "1%252%2D3");
    assert_eq!(version.pkgrel, 1);
    assert_eq!(version.to_string(), "7:1%252%2D3-1");
}

#[test]
fn different_versions_stay_different() {
    let versions = ["1.0", "1.0-1", "1:1.0", "1.0%2D1", "1:1:0", "1.0~1", "1.0/1"];
    let mut texts: Vec<String> = versions
        .iter()
        .map(|version| debian_version_to_arch(version).unwrap())
        .collect();
    texts.sort();
    texts.dedup();
    assert_eq!(texts.len(), versions.len());
}

#[test]
fn every_relation_field_is_kept_in_its_order() {
    let control = DebianControl::parse(
        "Package: ab\nVersion: 1\nArchitecture: all\nReplaces: r\nPre-Depends: p\nEnhances: e\nBreaks:\n",
    )
    .unwrap();
    let metadata = DebianMetadata::from_control(&control).unwrap();
    let sources: Vec<(&str, &str)> = metadata
        .relation_sources()
        .iter()
        .map(|(field, source)| (field.as_str(), *source))
        .collect();
    assert_eq!(
        sources,
        [("Pre-Depends", "p"), ("Enhances", "e"), ("Replaces", "r")]
    );
    assert_eq!(metadata.relation_source(RelationField::Breaks), None);
    assert_eq!(RelationField::ALL.len(), 9);
}

#[test]
fn fields_are_listed_by_their_names() {
    let control = DebianControl::parse("B: 2\nA:  1 \n").unwrap();
    assert_eq!(control.fields(), [("a", "1"), ("b", "2")]);
    assert_eq!(control.get("missing"), None);
}
