use debtap_rs::cli::InstallOptions;
use debtap_rs::installer::annotations::annotation_lines;
use debtap_rs::installer::installation::{
    find_converted_package, query_package_identity, run_privileged_install, verify_helper,
    verify_installed, HelperFacts, OutputEntry,
};
use debtap_rs::installer::receipt::{
    partial_receipt_path, receipt_directory, receipt_path, receipt_text, state_home,
};
use debtap_rs::installer::review::{confirm_installation, show_review, Review};
use debtap_rs::installer::{
    install, is_affirmative, parse_annotations, register_handler, InstallReceipt, Installation,
    InstallationReply, PackageAnnotations, DESKTOP_FILE_ID,
};

#[test]
fn reads_debforge_annotations() {
    let digest = "a".repeat(64);
    let source = format!(
        "pkgname = demo\nxdata = debian-sha256={digest}\nxdata = debforge-warning=Review this.\nxdata = debforge-warning=Review this.\n"
    );
    assert_eq!(
        parse_annotations(&source).expect("annotations"),
        PackageAnnotations {
            source_sha256: Some(digest),
            warnings: vec!["Review this.".to_string()],
        }
    );
}

#[test]
fn confirmation_is_explicit() {
    assert!(is_affirmative("y\n"));
    assert!(is_affirmative("YES"));
    assert!(!is_affirmative(""));
    assert!(!is_affirmative("sure"));
}

fn helper() -> HelperFacts {
    HelperFacts {
        is_link: false,
        is_file: true,
        owner: 0,
        group: 0,
        mode: 0o100755,
    }
}

fn digest(letter: &str) -> String {
    letter.repeat(64)
}

fn printed(letter: &str) -> InstallationReply {
    InstallationReply::Text(format!("{}  /file\n", digest(letter)))
}

fn next(step: Installation, reply: InstallationReply) -> Installation {
    step.advance(reply).expect("next step")
}

fn fault(step: Installation, reply: InstallationReply) -> String {
    step.advance(reply).expect_err("a fault").to_string()
}

fn started(assume_yes: bool) -> Installation {
    install(&InstallOptions {
        input: b"app.deb".to_vec(),
        assume_yes,
    })
}

fn success() -> InstallationReply {
    InstallationReply::Ended {
        code: Some(0),
        status: "exit status: 0".to_string(),
    }
}

fn identified(assume_yes: bool) -> Installation {
    let step = next(
        started(assume_yes),
        InstallationReply::Resolved {
            input: b"/home/app.deb".to_vec(),
            is_file: true,
        },
    );
    let step = next(step, InstallationReply::Helper(helper()));
    let step = next(step, printed("a"));
    let step = next(step, success());
    let step = next(
        step,
        InstallationReply::Entries(vec![OutputEntry {
            path: b"/work/app-1-1-any.pkg.tar.zst".to_vec(),
            is_file: true,
        }]),
    );
    let step = next(step, printed("b"));
    next(step, InstallationReply::Text("app 1-1\n".to_string()))
}

fn reviewed(assume_yes: bool) -> Installation {
    next(
        identified(assume_yes),
        InstallationReply::Text(format!("xdata = debian-sha256={}\n", digest("a"))),
    )
}

#[test]
fn an_installation_goes_through_all_steps() {
    let step = next(
        reviewed(false),
        InstallationReply::Answer(Some("yes\n".to_string())),
    );
    match &step {
        Installation::Authorize { package, receipt } => {
            assert_eq!(package, b"/work/app-1-1-any.pkg.tar.zst");
            assert_eq!(receipt.converted_sha256, digest("b"));
        }
        other => panic!("unexpected step {other:?}"),
    }
    let step = next(step, success());
    let step = next(step, InstallationReply::Text("app 1-1\n".to_string()));
    assert_eq!(
        step,
        Installation::Record {
            receipt: InstallReceipt {
                package_name: "app".to_string(),
                package_version: "1-1".to_string(),
                source_path: b"/home/app.deb".to_vec(),
                source_sha256: digest("a"),
                converted_sha256: digest("b"),
            }
        }
    );
}

#[test]
fn an_installation_needs_consent() {
    for answer in [None, Some("no\n".to_string())] {
        assert_eq!(
            next(reviewed(false), InstallationReply::Answer(answer)),
            Installation::Canceled
        );
    }
    assert!(matches!(
        next(reviewed(true), InstallationReply::Answer(None)),
        Installation::Authorize { .. }
    ));
    assert!(confirm_installation(true).is_ok());
    assert!(confirm_installation(false).is_err());
}

#[test]
fn another_source_is_not_installed() {
    assert_eq!(
        fault(
            identified(true),
            InstallationReply::Text(format!("xdata = debian-sha256={}\n", digest("c")))
        ),
        "The converted package does not contain the expected Debian source digest."
    );
    assert_eq!(
        fault(identified(true), InstallationReply::Text("pkgname = app\n".to_string())),
        "The converted package does not contain the expected Debian source digest."
    );
}

#[test]
fn a_directory_is_not_installed() {
    assert_eq!(
        fault(
            started(true),
            InstallationReply::Resolved {
                input: b"/home".to_vec(),
                is_file: false,
            }
        ),
        "The selected Debian package is not a regular file: /home"
    );
}

#[test]
fn the_helper_belongs_to_root() {
    assert!(verify_helper(&helper()).is_ok());
    for facts in [
        HelperFacts { is_link: true, ..helper() },
        HelperFacts { is_file: false, ..helper() },
        HelperFacts { owner: 1, ..helper() },
        HelperFacts { group: 1, ..helper() },
        HelperFacts { mode: 0o100775, ..helper() },
        HelperFacts { mode: 0o100757, ..helper() },
    ] {
        assert!(verify_helper(&facts).is_err(), "{facts:?}");
    }
}

#[test]
fn one_package_is_found() {
    let entry = |path: &str, is_file: bool| OutputEntry {
        path: path.as_bytes().to_vec(),
        is_file,
    };
    assert_eq!(
        find_converted_package(&vec![
            entry("/o/x.pkg.tar.zst", true),
            entry("/o/y.pkg.tar.zst", false),
            entry("/o/z.partial.pkg.tar.zst", true),
            entry("/o/other", true),
        ])
        .expect("package"),
        b"/o/x.pkg.tar.zst"
    );
    assert_eq!(
        find_converted_package(&Vec::new()).unwrap_err().to_string(),
        "The conversion did not create an installable Arch package."
    );
    assert_eq!(
        find_converted_package(&vec![entry("/a.pkg.tar.zst", true), entry("/b.pkg.tar.xz", true)])
            .unwrap_err()
            .to_string(),
        "The conversion created more than one Arch package. Installation stopped."
    );
}

#[test]
fn package_identities_are_checked() {
    assert_eq!(
        query_package_identity("app 1:2-1\n").expect("identity"),
        ("app".to_string(), "1:2-1".to_string())
    );
    for (output, message) in [
        ("", "Pacman returned an invalid package name."),
        ("a/b 1\n", "Pacman returned an invalid package name."),
        ("app\n", "Pacman returned an invalid package version."),
        ("app 1 2\n", "Pacman returned an invalid package identity."),
    ] {
        assert_eq!(query_package_identity(output).unwrap_err().to_string(), message);
    }
}

#[test]
fn the_installed_version_is_checked() {
    assert!(verify_installed("app 1-1\n", "1-1").is_ok());
    assert_eq!(
        verify_installed("app\n", "1-1").unwrap_err().to_string(),
        "Pacman installed version '', but Debforge expected '1-1'."
    );
}

#[test]
fn the_authorization_can_fail() {
    assert!(run_privileged_install(Some(0), "exit status: 0").is_ok());
    for (code, message) in [
        (Some(126), "Authorization was canceled."),
        (Some(127), "Authorization was not available."),
        (Some(1), "The Pacman transaction failed with status x."),
        (None, "The Pacman transaction failed with status x."),
    ] {
        assert_eq!(run_privileged_install(code, "x").unwrap_err().to_string(), message);
    }
}

#[test]
fn receipts_hold_what_was_installed() {
    let receipt = InstallReceipt {
        package_name: "app".to_string(),
        package_version: "1-1".to_string(),
        source_path: b"/home/app.deb".to_vec(),
        source_sha256: digest("a"),
        converted_sha256: digest("b"),
    };
    assert_eq!(
        receipt_text(&receipt, 12).expect("receipt"),
        format!(
            "format=1\npackage=app\nversion=1-1\nsource=/home/app.deb\nsource_sha256={}\nconverted_sha256={}\ndebforge_version=0.2.0\ninstalled_at=12\n",
            digest("a"),
            digest("b")
        )
    );
    let broken = InstallReceipt {
        source_path: b"/a\nb".to_vec(),
        ..receipt
    };
    assert_eq!(
        receipt_text(&broken, 12).unwrap_err().to_string(),
        "The Debian source path contains a new line."
    );
}

#[test]
fn receipts_stand_below_the_state_directory() {
    assert_eq!(state_home(Some(b"/s"), None).expect("state"), b"/s");
    assert_eq!(state_home(Some(b"s"), Some(b"/h")).expect("home"), b"/h/.local/state");
    assert_eq!(
        state_home(None, None).unwrap_err().to_string(),
        "Cannot find an absolute XDG_STATE_HOME or HOME directory."
    );
    let directory = receipt_directory(b"/s");
    assert_eq!(directory, b"/s/debforge/receipts");
    assert_eq!(receipt_path(&directory, "app"), b"/s/debforge/receipts/app.receipt");
    assert_eq!(
        partial_receipt_path(&directory, "app", 5, 77),
        b"/s/debforge/receipts/.app.receipt.5.77.partial"
    );
}

#[test]
fn the_review_names_everything() {
    let review = Review {
        source: "/home/app.deb".to_string(),
        source_sha256: digest("a"),
        package_name: "app".to_string(),
        package_version: "1-1".to_string(),
        files: "app /usr/\napp /usr/bin/\n".to_string(),
        details: "Name : app\n".to_string(),
        transaction: "app 1-1 [any] 5 bytes\n".to_string(),
        has_native_package: true,
        installed: Some("app 0-1\n".to_string()),
        warnings: vec!["Careful.".to_string()],
    };
    assert_eq!(
        show_review(&review),
        format!(
            "\nDebforge installation review\nSource       : /home/app.deb\nSource SHA-256: {}\nPackage      : app 1-1\nPackage files: 2\n\nPacman package information:\nName : app\n\nPlanned transaction:\napp 1-1 [any] 5 bytes\n\nWarning: The configured Arch repositories contain a native package named 'app'.\nInstalled now: app 0-1\n\nConversion warnings:\n  - Careful.\n",
            digest("a")
        )
    );
}

#[test]
fn the_desktop_must_select_the_handler() {
    assert!(register_handler("application/x-deb", &format!("{DESKTOP_FILE_ID}\n")).is_ok());
    assert_eq!(
        register_handler("application/x-deb", "other.desktop\n").unwrap_err().to_string(),
        "The desktop did not select Debforge for MIME type application/x-deb."
    );
}

#[test]
fn notes_are_read_back() {
    let notes = PackageAnnotations {
        source_sha256: Some(digest("f")),
        warnings: vec!["One.".to_string(), "Two.".to_string()],
    };
    assert_eq!(
        parse_annotations(&annotation_lines(&notes).join("\n")).expect("notes"),
        notes
    );
    assert!(parse_annotations("xdata = debian-sha256=short\n").is_err());
    assert_eq!(
        parse_annotations("xdata = debforge-warning= \nother = debforge-warning=x\n")
            .expect("nothing"),
        PackageAnnotations::default()
    );
}
