use debtap_rs::attempts::{CreationReply, NextAttempt};
use debtap_rs::privileged::{
    check_staging_parent, next_staging_attempt, parse_request, random_nonce, stage_verified_package,
    staging_directory, validate_and_install, verify_execution_context, PackageFacts, Staging,
    StagingReply, Transaction, TransactionReply,
};

fn words(list: &[&str]) -> Vec<Vec<u8>> {
    list.iter().map(|word| word.as_bytes().to_vec()).collect()
}

#[test]
fn parses_only_the_fixed_helper_interface() {
    let digest = "a".repeat(64);
    let request = parse_request(&words(&[
        "--sha256",
        &digest,
        "--",
        "/tmp/package.pkg.tar.zst",
    ]))
    .expect("request");
    assert_eq!(request.expected_sha256, digest);
    assert_eq!(request.package, b"/tmp/package.pkg.tar.zst");
    assert!(parse_request(&words(&["/tmp/package"])).is_err());
    assert!(parse_request(&words(&["--sha256", "bad", "--", "/tmp/package"])).is_err());
}

#[test]
fn faulty_helper_requests_are_refused() {
    let digest = "A".repeat(64);
    assert_eq!(
        parse_request(&words(&["--sha256", &digest, "--", "package"]))
            .unwrap_err()
            .to_string(),
        "The package path must be absolute."
    );
    assert_eq!(
        parse_request(&words(&["--sha256", &digest, "--", "/p"]))
            .expect("request")
            .expected_sha256,
        "a".repeat(64)
    );
    assert_eq!(
        parse_request(&words(&["--sha256", &digest, "/p", "--"]))
            .unwrap_err()
            .to_string(),
        "Usage: debforge-helper --sha256 DIGEST -- PACKAGE"
    );
    let mut unreadable = words(&["--sha256", "", "--", "/p"]);
    unreadable[1] = vec![0xff];
    assert_eq!(
        parse_request(&unreadable).unwrap_err().to_string(),
        "The expected SHA-256 value is not valid UTF-8."
    );
}

fn facts() -> PackageFacts {
    PackageFacts {
        is_file: true,
        owner: 1000,
        length: 22,
    }
}

fn staging() -> Staging {
    stage_verified_package(b"/home/source.pkg.tar.zst", &"a".repeat(64), 1000)
        .expect("a digest is expected")
}

fn copied() -> Staging {
    staging()
        .advance(StagingReply::Opened(facts()))
        .expect("opened")
        .advance(StagingReply::Made(b"/stage/x".to_vec()))
        .expect("directory")
        .advance(StagingReply::Copied(22))
        .expect("copied")
}

#[test]
fn stages_one_verified_regular_file_and_rejects_a_link() {
    let staged = copied()
        .advance(StagingReply::Hashed(format!("{}  -\n", "a".repeat(64))))
        .expect("stage");
    let Staging::Staged(package) = staged else {
        panic!("a staged package is expected");
    };
    assert_eq!(package.path(), b"/stage/x/package.pkg.tar.zst");
    assert_eq!(package.root(), b"/stage/x");

    let link = PackageFacts {
        is_file: false,
        ..facts()
    };
    assert!(staging().advance(StagingReply::Opened(link)).is_err());
}

#[test]
fn a_package_that_changed_is_not_staged() {
    let message = |staging: Staging, reply: StagingReply| {
        staging.advance(reply).unwrap_err().to_string()
    };
    assert_eq!(
        message(
            copied(),
            StagingReply::Hashed(format!("{}  -\n", "b".repeat(64)))
        ),
        "The converted package changed after the installation review."
    );
    let opened = staging()
        .advance(StagingReply::Opened(facts()))
        .expect("opened")
        .advance(StagingReply::Made(b"/stage/x".to_vec()))
        .expect("directory");
    assert_eq!(
        message(opened, StagingReply::Copied(21)),
        "The converted package changed while the secure copy was created."
    );
    assert_eq!(
        message(
            staging(),
            StagingReply::Opened(PackageFacts {
                owner: 1001,
                ..facts()
            })
        ),
        "The converted package is not owned by the authorizing user."
    );
    for length in [0, u64::MAX] {
        assert_eq!(
            message(
                staging(),
                StagingReply::Opened(PackageFacts { length, ..facts() })
            ),
            "The converted package size is outside the supported range."
        );
    }
}

#[test]
fn the_helper_runs_as_root_for_another_user() {
    let root = "Name:\thelper\nUid:\t1000\t0\t0\t0\n";
    assert_eq!(verify_execution_context(root, Ok("1000")).expect("caller"), 1000);
    assert!(verify_execution_context(root, Ok("0")).is_err());
    assert!(verify_execution_context(root, Ok("someone")).is_err());
    assert!(verify_execution_context(root, Err("not present")).is_err());
    assert!(verify_execution_context("Uid:\t1000\t1000\t0\t0\n", Ok("1000")).is_err());
    assert!(verify_execution_context("", Ok("1000")).is_err());
}

#[test]
fn staging_directories_have_random_names() {
    assert_eq!(random_nonce(&[0, 0x1f, 0xff]), "001fff");
    assert_eq!(
        staging_directory(b"/var/lib", &[0xab]),
        b"/var/lib/debforge-install-ab"
    );
}

#[test]
fn each_stage_of_the_installation_is_checked() {
    assert!(check_staging_parent(b"/run", true).is_ok());
    assert_eq!(
        check_staging_parent(b"/run", false).unwrap_err().to_string(),
        "The staging parent is not a directory: /run"
    );
    let ended = |succeeded: bool| TransactionReply::Ended {
        succeeded,
        status: "exit status: 1".to_string(),
    };
    let located = validate_and_install()
        .advance(TransactionReply::Located(true))
        .expect("pacman");
    assert_eq!(located, Transaction::Validate);
    let validated = located.advance(ended(true)).expect("valid");
    assert_eq!(validated, Transaction::Install);
    assert_eq!(validated.advance(ended(true)).expect("installed"), Transaction::Finished);
    assert_eq!(
        validate_and_install()
            .advance(TransactionReply::Located(false))
            .unwrap_err()
            .to_string(),
        "Pacman is not installed at /usr/bin/pacman."
    );
    assert_eq!(
        located.advance(ended(false)).unwrap_err().to_string(),
        "Pacman rejected the secure package copy (status exit status: 1)."
    );
    assert_eq!(
        validated.advance(ended(false)).unwrap_err().to_string(),
        "Pacman could not install the package (status exit status: 1)."
    );
}

#[test]
fn names_for_staging_directories_run_out() {
    let taken = |made: u32| next_staging_attempt(made, CreationReply::Taken);
    assert_eq!(taken(30).expect("more names"), NextAttempt::Again(31));
    assert_eq!(
        taken(31).unwrap_err().to_string(),
        "Cannot allocate a unique secure staging directory."
    );
}
