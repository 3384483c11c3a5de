use debtap_rs::archive::PackageOptions;
use debtap_rs::cli::{ConvertOptions, PkgbuildMode};
use debtap_rs::compatibility::CompatibilityReport;
use debtap_rs::conversion::{
    convert, epoch_to_i64, output_directory, parse_licenses, payload_architecture, pkgbuild_text,
    pkginfo_lines, pkginfo_text, reject_reserved_payload_files, remove_required_optional, unique_joined, unique_warnings,
    update_catalog, Conversion, ConversionReply, ReservedPaths,
};
use debtap_rs::dependency::catalog::PacmanReply;
use debtap_rs::dependency::PackageCatalog;
use debtap_rs::installer::{parse_annotations, PackageAnnotations};
use debtap_rs::scripts::{
    generate_install_script, record_triggers, MaintainerScripts, ScriptOutput, ScriptPolicy,
};
use debtap_rs::transform::TransformReport;

const CONTROL: &str = "Package: fixture-app\nSource: fixture-source (2:1.2.3-4)\nVersion: 2:1.2.3-4\nArchitecture: amd64\nDepends: libgtk-3-0, libc6 (>= 2.30),\n libc6 (>= 2.35), libsecret-1-0\nRecommends: libappindicator3-1\nInstalled-Size: 1\nMaintainer: Fixture Maintainer <fixture@example.invalid>\nHomepage: https://example.invalid/fixture\nLicense: MIT\nDescription: Small integration fixture\n This folded long description proves that the real CLI reads Deb822 continuations.\n .\n It also has a second paragraph.\n";

fn strings(list: &[&str]) -> Vec<String> {
    list.iter().map(|text| text.to_string()).collect()
}

fn options() -> ConvertOptions {
    ConvertOptions {
        input: b"fixture-app.deb".to_vec(),
        output_dir: Some(b"/output-one".to_vec()),
        compression_level: 1,
        quiet: true,
        force: false,
        keep_work: false,
        generate_mtree: true,
        wipe_versions: false,
        pseudo_64: false,
        pkgbuild: PkgbuildMode::Skip,
        script_policy: ScriptPolicy::Safe,
        packager: "Integration Test <test@example.invalid>".to_string(),
        source_date_epoch: Some(1_700_000_000),
    }
}

fn next(step: Conversion, reply: ConversionReply) -> Conversion {
    step.advance(reply).expect("next step")
}

fn message(step: Conversion, reply: ConversionReply) -> String {
    step.advance(reply).expect_err("a fault").to_string()
}

fn resolved(options: ConvertOptions) -> Conversion {
    next(
        convert(options),
        ConversionReply::Resolved {
            input: b"/home/fixture-app.deb".to_vec(),
            parent: Some(b"/home".to_vec()),
            is_file: true,
        },
    )
}

fn control(text: &str) -> ConversionReply {
    ConversionReply::Control {
        text: text.to_string(),
        data_member: b"data.tar.gz".to_vec(),
    }
}

fn catalog() -> ConversionReply {
    ConversionReply::Catalog {
        available: PacmanReply::Succeeded {
            stdout: b"glibc\ngtk3\nlibsecret\nlibappindicator\n".to_vec(),
        },
        installed: PacmanReply::Succeeded {
            stdout: b"glibc\n".to_vec(),
        },
    }
}

fn no_reserved_paths() -> ReservedPaths {
    ReservedPaths {
        pkginfo: false,
        buildinfo: false,
        mtree: false,
        install: false,
    }
}

fn transformed() -> ConversionReply {
    ConversionReply::Transformed(TransformReport {
        installed_size: 57,
        backup_paths: strings(&["etc/fixture-app.conf"]),
        warnings: strings(&["layout"]),
    })
}

fn script() -> ConversionReply {
    ConversionReply::Script {
        install: None,
        warnings: strings(&["scripts", "layout"]),
    }
}

fn unsafe_scripts() -> MaintainerScripts {
    MaintainerScripts {
        preinst: None,
        postinst: Some(
            "#!/bin/sh\nset -e\napt-get update\nmkdir -p /etc/apt/sources.list.d\nupdate-alternatives --install /usr/bin/fixture-app fixture-app /opt/fixture-app 1\n"
                .to_string(),
        ),
        prerm: None,
        postrm: None,
    }
}

fn scripted(options: ConvertOptions) -> Conversion {
    let step = next(resolved(options), control(CONTROL));
    let step = next(step, catalog());
    let step = next(step, ConversionReply::Reserved(no_reserved_paths()));
    let step = next(step, transformed());
    let step = next(
        step,
        ConversionReply::Inspected(CompatibilityReport::default()),
    );
    next(step, script())
}

fn described(options: ConvertOptions) -> Conversion {
    next(scripted(options), ConversionReply::Exists(false))
}

#[test]
fn converts_a_deb_with_mapped_dependencies_and_safe_metadata() {
    let Conversion::Probe(job) = scripted(options()) else {
        panic!("a package name is expected");
    };
    assert_eq!(
        job.package,
        b"/output-one/fixture-app-1.2.3%2D4-1-x86_64.pkg.tar.zst"
    );
    assert_eq!(job.install, None);
    let safe = generate_install_script(ScriptPolicy::Safe, &unsafe_scripts());
    assert!(safe
        .warnings
        .iter()
        .any(|warning| warning.contains("Safe mode omitted foreign Debian maintainer code")));
    assert!(safe
        .warnings
        .iter()
        .any(|warning| warning.contains("Debian package-manager commands were not copied")));
    assert_eq!(
        safe.install, None,
        "safe mode copied a Debian maintainer script into the package"
    );
    let pkginfo = pkginfo_lines(&job.metadata);
    for expected in [
        "pkgname = fixture-app",
        "pkgbase = fixture-source",
        "pkgver = 2:1.2.3%2D4-1",
        "pkgdesc = Small integration fixture",
        "url = https://example.invalid/fixture",
        "builddate = 1700000000",
        "packager = Integration Test <test@example.invalid>",
        "arch = x86_64",
        "license = MIT",
        "backup = etc/fixture-app.conf",
        "depend = glibc",
        "depend = gtk3",
        "depend = libsecret",
        "optdepend = libappindicator: recommended by the Debian package",
        "xdata = debian-package=fixture-app",
        "xdata = debian-version=2:1.2.3-4",
        "xdata = debian-architecture=amd64",
        "size = 57",
        "xdata = pkgtype=pkg",
    ] {
        assert!(
            pkginfo.iter().any(|line| line == expected),
            "missing metadata line '{expected}':\n{pkginfo:?}"
        );
    }
    assert!(
        !pkginfo.iter().any(|line| line.starts_with("depend = libc6")),
        "the Debian libc package name was not mapped:\n{pkginfo:?}"
    );
    assert!(
        !pkginfo.iter().any(|line| line.contains(">= 2.35")),
        "a Debian-only version limit was retained:\n{pkginfo:?}"
    );
    let Conversion::Probe(second) = scripted(options()) else {
        panic!("a package name is expected");
    };
    assert_eq!(
        pkginfo,
        pkginfo_lines(&second.metadata),
        "a fixed source date epoch did not produce stable package metadata"
    );
}

#[test]
fn removes_optional_dependencies_that_are_already_required() {
    let required = vec!["alsa-lib".to_string(), "glibc>=2.40".to_string()];
    let optional = vec![
        "alsa-lib: recommended".to_string(),
        "glibc: suggested".to_string(),
        "git: recommended".to_string(),
    ];

    assert_eq!(
        remove_required_optional(&required, &optional),
        vec!["git: recommended"]
    );
}

#[test]
fn a_conversion_writes_its_package() {
    let step = described(options());
    assert!(matches!(step, Conversion::Describe(_)));
    let step = next(step, ConversionReply::Done);
    assert!(matches!(
        step,
        Conversion::Index {
            epoch: Some(1_700_000_000),
            ..
        }
    ));
    let step = next(step, ConversionReply::Done);
    match &step {
        Conversion::Pack { options, .. } => assert_eq!(
            *options,
            PackageOptions {
                zstd_level: 1,
                source_date_epoch: Some(1_700_000_000),
                overwrite: false,
                validate_with_pacman: true,
            }
        ),
        other => panic!("unexpected step {other:?}"),
    }
    let Conversion::Finished { warnings, created } = next(step, ConversionReply::Done) else {
        panic!("the end is expected");
    };
    assert_eq!(
        created,
        [b"/output-one/fixture-app-1.2.3%2D4-1-x86_64.pkg.tar.zst".to_vec()]
    );
    assert!(warnings.contains(&"scripts".to_string()));
    assert_eq!(
        warnings.iter().filter(|warning| *warning == "layout").count(),
        1
    );
}

#[test]
fn a_pkgbuild_names_the_digest_and_the_data_archive() {
    let only = ConvertOptions {
        pkgbuild: PkgbuildMode::Only,
        ..options()
    };
    let step = next(scripted(only), ConversionReply::Exists(true));
    let step = next(step, ConversionReply::Done);
    match &step {
        Conversion::HashInput {
            created, directory, ..
        } => {
            assert!(created.is_empty());
            assert_eq!(directory, b"/output-one/fixture-app-PKGBUILD");
        }
        other => panic!("unexpected step {other:?}"),
    }
    let digest = "0".repeat(64);
    assert_eq!(
        message(step.clone(), ConversionReply::Text("no digest".to_string())),
        "sha256sum returned an invalid digest."
    );
    let step = next(step, ConversionReply::Text(format!("{digest}  file\n")));
    match &step {
        Conversion::WritePkgbuild {
            directory,
            digest: found,
            data_member,
            ..
        } => {
            assert_eq!(directory, b"/output-one/fixture-app-PKGBUILD");
            assert_eq!(*found, digest);
            assert_eq!(data_member, "data.tar.gz");
        }
        other => panic!("unexpected step {other:?}"),
    }
    let Conversion::Finished { created, .. } = next(step, ConversionReply::Written(b"/p".to_vec()))
    else {
        panic!("the end is expected");
    };
    assert_eq!(created, [b"/p".to_vec()]);
}

#[test]
fn a_data_archive_with_an_unreadable_name_has_no_pkgbuild() {
    let only = ConvertOptions {
        pkgbuild: PkgbuildMode::Only,
        ..options()
    };
    let step = next(
        resolved(only),
        ConversionReply::Control {
            text: CONTROL.to_string(),
            data_member: vec![0xff],
        },
    );
    let step = next(step, catalog());
    let step = next(step, ConversionReply::Reserved(no_reserved_paths()));
    let step = next(step, transformed());
    let step = next(
        step,
        ConversionReply::Inspected(CompatibilityReport::default()),
    );
    let step = next(step, script());
    let step = next(step, ConversionReply::Exists(false));
    let step = next(step, ConversionReply::Done);
    assert_eq!(
        message(step, ConversionReply::Text(format!("{}  -", "a".repeat(64)))),
        "The data archive member name is not valid UTF-8."
    );
}

#[test]
fn an_existing_package_stops_the_conversion() {
    assert_eq!(
        message(scripted(options()), ConversionReply::Exists(true)),
        "The output package already exists: /output-one/fixture-app-1.2.3%2D4-1-x86_64.pkg.tar.zst. Use --force to replace it."
    );
    let forced = ConvertOptions {
        force: true,
        generate_mtree: false,
        ..options()
    };
    let step = next(scripted(forced), ConversionReply::Exists(true));
    let step = next(step, ConversionReply::Done);
    assert!(matches!(
        step,
        Conversion::Pack {
            options: PackageOptions {
                overwrite: true,
                ..
            },
            ..
        }
    ));
}

#[test]
fn the_clock_is_read_when_no_time_is_given() {
    let timeless = ConvertOptions {
        source_date_epoch: None,
        ..options()
    };
    let step = scripted(timeless);
    assert!(matches!(step, Conversion::ReadClock { .. }));
    let Conversion::Probe(job) = next(step, ConversionReply::Time(99)) else {
        panic!("a package name is expected");
    };
    assert_eq!(job.metadata.builddate, 99);
    let step = next(Conversion::Probe(job), ConversionReply::Exists(false));
    assert!(matches!(
        next(step, ConversionReply::Done),
        Conversion::Index { epoch: None, .. }
    ));
}

#[test]
fn a_time_must_fit_the_archive() {
    let late = ConvertOptions {
        source_date_epoch: Some(u64::MAX),
        ..options()
    };
    assert_eq!(
        message(described(late), ConversionReply::Done),
        "SOURCE_DATE_EPOCH is too large for archive timestamps."
    );
    assert_eq!(epoch_to_i64(None).expect("none"), None);
    assert_eq!(
        epoch_to_i64(Some(i64::MAX as u64)).expect("largest"),
        Some(i64::MAX)
    );
    assert!(epoch_to_i64(Some(i64::MAX as u64 + 1)).is_err());
}

#[test]
fn the_input_and_its_metadata_are_checked_first() {
    assert_eq!(
        message(
            convert(options()),
            ConversionReply::Resolved {
                input: b"/home".to_vec(),
                parent: Some(b"/".to_vec()),
                is_file: false,
            }
        ),
        "The input is not a regular file: /home"
    );
    assert!(resolved(options()).advance(control(" orphan\n")).is_err());
    assert!(resolved(options())
        .advance(control("Package: ab\nVersion: 1\n"))
        .is_err());
    let step = next(
        resolved(options()),
        control("Package: ab\nVersion: 1\nArchitecture: all\nDepends: a |\n"),
    );
    assert!(step.advance(catalog()).is_err());
}

#[test]
fn reserved_paths_are_refused() {
    let refused = |paths: ReservedPaths| {
        reject_reserved_payload_files(paths)
            .expect_err("reserved")
            .to_string()
    };
    let free = no_reserved_paths();
    assert!(reject_reserved_payload_files(free).is_ok());
    for (paths, name) in [
        (ReservedPaths { pkginfo: true, ..free }, ".PKGINFO"),
        (ReservedPaths { buildinfo: true, ..free }, ".BUILDINFO"),
        (ReservedPaths { mtree: true, ..free }, ".MTREE"),
        (ReservedPaths { install: true, ..free }, ".INSTALL"),
    ] {
        assert_eq!(
            refused(paths),
            format!("The Debian payload contains reserved Arch metadata path '{name}'.")
        );
        let step = next(next(resolved(options()), control(CONTROL)), catalog());
        assert!(step.advance(ConversionReply::Reserved(paths)).is_err());
    }
}

#[test]
fn the_pseudo_mode_changes_one_architecture() {
    let pseudo = ConvertOptions {
        pseudo_64: true,
        ..options()
    };
    let Conversion::LoadCatalog(job) = next(
        resolved(pseudo.clone()),
        control("Package: ab\nVersion: 1\nArchitecture: i386\n"),
    ) else {
        panic!("a catalog is expected");
    };
    assert_eq!(job.debian.architecture, "x86_64");
    assert_eq!(job.debian.debian_architecture, "i386");
    assert_eq!(
        job.warnings,
        ["Pseudo mode changed the output architecture from i686 to x86_64. Payload binaries remain 32-bit."]
    );
    let Conversion::LoadCatalog(job) = next(resolved(pseudo), control(CONTROL)) else {
        panic!("a catalog is expected");
    };
    assert_eq!(job.debian.architecture, "x86_64");
    assert_eq!(
        job.warnings,
        ["Pseudo mode has no effect on Debian architecture 'amd64'."]
    );
}

#[test]
fn the_payload_is_inspected_for_its_own_architecture() {
    let inspected_for = |pseudo_64: bool, architecture: &str| {
        let mut step = resolved(ConvertOptions {
            pseudo_64,
            ..options()
        });
        for reply in [
            control(&format!("Package: ab\nVersion: 1\nArchitecture: {architecture}\n")),
            catalog(),
            ConversionReply::Reserved(no_reserved_paths()),
            transformed(),
        ] {
            step = next(step, reply);
        }
        match step {
            Conversion::InspectPayload { job, architecture } => {
                assert_eq!(payload_architecture(&job.payload.job.debian), architecture);
                architecture
            }
            other => panic!("unexpected step {other:?}"),
        }
    };
    assert_eq!(inspected_for(true, "i386"), "i686");
    assert_eq!(inspected_for(false, "i386"), "i686");
    assert_eq!(inspected_for(true, "amd64"), "x86_64");
    assert_eq!(inspected_for(false, "arm64"), "aarch64");
    assert_eq!(inspected_for(false, "all"), "any");
}

#[test]
fn packing_follows_an_inspection() {
    let mut step = resolved(options());
    let mut inspections = 0;
    for reply in [
        control(CONTROL),
        catalog(),
        ConversionReply::Reserved(no_reserved_paths()),
        transformed(),
        ConversionReply::Inspected(CompatibilityReport::default()),
        script(),
        ConversionReply::Exists(false),
        ConversionReply::Done,
        ConversionReply::Done,
    ] {
        if matches!(step, Conversion::InspectPayload { .. }) {
            inspections += 1;
        }
        step = next(step, reply);
    }
    assert!(matches!(step, Conversion::Pack { .. }));
    assert_eq!(inspections, 1);
}

#[test]
fn progress_is_shown_unless_quiet() {
    let loud = ConvertOptions {
        quiet: false,
        ..options()
    };
    assert_eq!(convert(loud.clone()).progress(), None);
    assert_eq!(
        resolved(loud.clone()).progress().as_deref(),
        Some("Reading Debian package metadata...")
    );
    assert_eq!(resolved(options()).progress(), None);
    let index = next(described(loud), ConversionReply::Done);
    assert_eq!(
        index.progress().as_deref(),
        Some("Generating the package file index...")
    );
    assert_eq!(
        next(index, ConversionReply::Done).progress().as_deref(),
        Some("Writing the Arch package with Zstandard level 1...")
    );
}

#[test]
fn the_output_goes_to_the_chosen_directory_or_beside_the_input() {
    let parent = || Some(b"/home".to_vec());
    assert_eq!(
        output_directory(parent(), &Some(b"/out".to_vec())).expect("chosen"),
        b"/out"
    );
    assert_eq!(output_directory(parent(), &None).expect("beside"), b"/home");
    assert_eq!(
        output_directory(None, &None).unwrap_err().to_string(),
        "The Debian package has no parent directory."
    );
}

#[test]
fn lists_are_cleaned() {
    assert_eq!(parse_licenses(Some(" MIT , , GPL-2 ")), ["MIT", "GPL-2"]);
    assert!(parse_licenses(None).is_empty());
    assert_eq!(
        unique_joined(&strings(&["a", "b", "a"]), &strings(&["b", "c"])),
        ["a", "b", "c"]
    );
    assert_eq!(
        unique_warnings(&strings(&["x", "y", "x"])),
        ["x", "y"]
    );
}

#[test]
fn a_missing_pacman_does_not_stop_the_conversion() {
    let step = next(resolved(options()), control(CONTROL));
    let step = next(
        step,
        ConversionReply::Catalog {
            available: PacmanReply::Missing,
            installed: PacmanReply::Missing,
        },
    );
    let Conversion::ExtractPayload(job) = step else {
        panic!("the payload is expected");
    };
    assert_eq!(job.relations.required, ["gtk3", "glibc", "libsecret"]);
    assert_eq!(
        job.job
            .warnings
            .iter()
            .filter(|warning| warning.contains("pacman is not available"))
            .count(),
        1
    );
}

#[test]
fn the_state_of_the_catalog_is_described() {
    let known = PackageCatalog::from_packages(&["gtk3"], &[]);
    assert_eq!(update_catalog(&known), "The local Pacman catalog is ready.");
    let unknown =
        PackageCatalog::load(&PacmanReply::Missing, &PacmanReply::Missing).expect("catalog");
    assert_eq!(
        update_catalog(&unknown),
        "The built-in dependency map is ready. Pacman package availability is unknown."
    );
}

#[test]
fn a_package_keeps_the_notes_of_its_conversion() {
    let Conversion::Probe(job) = scripted(options()) else {
        panic!("a package name is expected");
    };
    let notes = PackageAnnotations {
        source_sha256: Some("b".repeat(64)),
        warnings: strings(&["First.", "Second."]),
    };
    let text = pkginfo_text(&job.metadata, &notes);
    assert!(text.ends_with("xdata = debforge-warning=Second.\n"));
    assert_eq!(parse_annotations(&text).expect("notes"), notes);
    let none = PackageAnnotations::default();
    let text = pkginfo_text(&job.metadata, &none);
    assert_eq!(parse_annotations(&text).expect("notes"), none);
}

#[test]
fn the_policy_decides_on_maintainer_scripts() {
    let none = MaintainerScripts {
        postinst: None,
        ..unsafe_scripts()
    };
    for policy in [ScriptPolicy::Safe, ScriptPolicy::Skip, ScriptPolicy::Raw] {
        assert_eq!(
            generate_install_script(policy, &none),
            ScriptOutput {
                install: None,
                warnings: Vec::new(),
            }
        );
    }
    let skipped = generate_install_script(ScriptPolicy::Skip, &unsafe_scripts());
    assert_eq!(skipped.install, None);
    assert_eq!(skipped.warnings.len(), 1);
    let harmless = MaintainerScripts {
        prerm: Some("true".to_string()),
        ..none
    };
    assert_eq!(
        generate_install_script(ScriptPolicy::Safe, &harmless).warnings,
        ["Safe mode omitted foreign Debian maintainer code."]
    );
    let raw = generate_install_script(ScriptPolicy::Raw, &harmless);
    assert_eq!(
        raw.install.as_deref(),
        Some("pre_remove() {\n  sh -s remove <<'DEBIAN_SCRIPT'\ntrue\nDEBIAN_SCRIPT\n}\n")
    );
    assert_eq!(raw.warnings.len(), 1);
}

#[test]
fn triggers_are_recorded() {
    let none = MaintainerScripts {
        postinst: None,
        ..unsafe_scripts()
    };
    for policy in [ScriptPolicy::Safe, ScriptPolicy::Skip, ScriptPolicy::Raw] {
        let plain = generate_install_script(policy, &none);
        assert_eq!(record_triggers(plain.clone(), false), plain);
        let noted = record_triggers(plain, true);
        assert_eq!(noted.warnings, ["Debian triggers were not copied."]);
        assert_eq!(noted.install, None);
    }
    let raw = generate_install_script(ScriptPolicy::Raw, &unsafe_scripts());
    let noted = record_triggers(raw.clone(), true);
    assert_eq!(noted.install, raw.install);
    assert_eq!(noted.warnings.len(), 2);
}

#[test]
fn a_script_is_wrapped_whole() {
    let wrapped = |script: &str| {
        let scripts = MaintainerScripts {
            postinst: None,
            prerm: Some(script.to_string()),
            ..unsafe_scripts()
        };
        generate_install_script(ScriptPolicy::Raw, &scripts)
            .install
            .expect("script")
    };
    assert_eq!(
        wrapped("cat <<DEBIAN_SCRIPT\nx\nDEBIAN_SCRIPT\ntrue"),
        "pre_remove() {\n  sh -s remove <<'DEBIAN_SCRIPT_'\ncat <<DEBIAN_SCRIPT\nx\nDEBIAN_SCRIPT\ntrue\nDEBIAN_SCRIPT_\n}\n"
    );
    assert!(wrapped("DEBIAN_SCRIPT_\nDEBIAN_SCRIPT").contains("<<'DEBIAN_SCRIPT__'\n"));
    assert!(wrapped(" DEBIAN_SCRIPT").contains("<<'DEBIAN_SCRIPT'\n"));
}

#[test]
fn warnings_are_shown_once_beside_a_pkgbuild() {
    let with_pkgbuild = ConvertOptions {
        pkgbuild: PkgbuildMode::Only,
        ..options()
    };
    let step = next(described(with_pkgbuild), ConversionReply::Done);
    let step = next(step, ConversionReply::Text(format!("{}  fixture\n", "a".repeat(64))));
    let step = next(step, ConversionReply::Written(b"/output-one/PKGBUILD".to_vec()));
    match step {
        Conversion::Finished { warnings, created } => {
            assert_eq!(created, [b"/output-one/PKGBUILD".to_vec()]);
            assert!(warnings.contains(&"scripts".to_string()));
            for warning in &warnings {
                assert_eq!(warnings.iter().filter(|other| *other == warning).count(), 1);
            }
        }
        other => panic!("unexpected step {other:?}"),
    }
}

#[test]
fn a_pkgbuild_quotes_its_values() {
    let Conversion::Probe(mut job) = scripted(options()) else {
        panic!("a package name is expected");
    };
    job.metadata.description = Some("It's small".to_string());
    let text = pkgbuild_text(&job.metadata, "fixture-app.deb", "00ff", "data.tar.gz");
    for line in [
        "pkgname='fixture-app'",
        "pkgver='1.2.3%2D4'",
        "pkgrel='1'",
        "epoch='2'",
        "pkgdesc='It'\\''s small'",
        "arch=('x86_64')",
        "depends=('gtk3' 'glibc' 'libsecret')",
        "conflicts=()",
        "sha256sums=('00ff')",
        "  ar p 'fixture-app.deb' 'data.tar.gz' | bsdtar -xpf - -C \"$pkgdir\"",
    ] {
        assert!(text.lines().any(|found| found == line), "{line}\n{text}");
    }
}
