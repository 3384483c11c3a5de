use debtap_rs::cli::{
    help, parse_from, Action, ConvertOptions, Environment, InstallOptions, PkgbuildMode,
    DEFAULT_PACKAGER, VERSION,
};
use debtap_rs::error::Result;
use debtap_rs::scripts::ScriptPolicy;

fn no_environment() -> Environment {
    Environment {
        packager: None,
        source_date_epoch: None,
    }
}

fn parse_in(arguments: &[&str], environment: &Environment) -> Result<Action> {
    let arguments: Vec<Vec<u8>> = arguments
        .iter()
        .map(|argument| argument.as_bytes().to_vec())
        .collect();
    parse_from(&arguments, environment)
}

fn parse(arguments: &[&str]) -> Result<Action> {
    parse_in(arguments, &no_environment())
}

fn message(arguments: &[&str]) -> String {
    parse(arguments).expect_err("must be rejected").to_string()
}

fn convert(arguments: &[&str]) -> ConvertOptions {
    match parse(arguments).expect("arguments must parse") {
        Action::Convert(options) => options,
        _ => panic!("conversion action expected"),
    }
}

#[test]
fn parses_desktop_handler_arguments() {
    let action = parse(&["--Quiet", "--output", "/tmp/out", "/tmp/app name.deb"])
        .expect("arguments must parse");

    let Action::Convert(options) = action else {
        panic!("conversion action expected");
    };
    assert!(options.quiet);
    assert_eq!(options.output_dir.expect("output"), b"/tmp/out");
    assert_eq!(options.input, b"/tmp/app name.deb");
}

#[test]
fn parses_new_options_and_compatible_group() {
    let action = parse(&[
        "-Qwp",
        "--compression-level=7",
        "--scripts=none",
        "--force",
        "app.deb",
    ])
    .expect("arguments must parse");

    let Action::Convert(options) = action else {
        panic!("conversion action expected");
    };
    assert!(options.quiet);
    assert!(options.wipe_versions);
    assert!(options.force);
    assert_eq!(options.pkgbuild, PkgbuildMode::Also);
    assert_eq!(options.compression_level, 7);
    assert_eq!(options.script_policy, ScriptPolicy::Skip);
}

#[test]
fn rejects_more_than_one_input() {
    let error = parse(&["one.deb", "two.deb"]).expect_err("must reject inputs");
    assert!(error.to_string().contains("Only one"));
}

#[test]
fn rejects_bad_compression_level() {
    let error =
        parse(&["--compression-level", "20", "one.deb"]).expect_err("must reject the level");
    assert!(error.to_string().contains("1 through 19"));
}

#[test]
fn parses_install_and_handler_actions() {
    let action = parse(&["install", "--yes", "/tmp/app name.deb"])
        .expect("install arguments must parse");
    let Action::Install(options) = action else {
        panic!("install action expected");
    };
    assert!(options.assume_yes);
    assert_eq!(options.input, b"/tmp/app name.deb");

    assert_eq!(
        parse(&["register-handler"]).expect("handler action"),
        Action::RegisterHandler
    );
}

#[test]
fn rejects_unknown_install_options_and_extra_handler_arguments() {
    let error = parse(&["install", "--force", "app.deb"])
        .expect_err("install must reject converter options");
    assert!(error.to_string().contains("Unknown install option"));

    let error = parse(&["register-handler", "extra"])
        .expect_err("handler action must reject arguments");
    assert!(error.to_string().contains("does not accept"));
}

#[test]
fn the_defaults_of_a_conversion() {
    assert_eq!(
        convert(&["app.deb"]),
        ConvertOptions {
            input: b"app.deb".to_vec(),
            output_dir: None,
            compression_level: 3,
            quiet: false,
            force: false,
            keep_work: false,
            generate_mtree: true,
            wipe_versions: false,
            pseudo_64: false,
            pkgbuild: PkgbuildMode::Skip,
            script_policy: ScriptPolicy::Safe,
            packager: DEFAULT_PACKAGER.to_string(),
            source_date_epoch: None,
        }
    );
}

#[test]
fn the_environment_gives_defaults_and_options_win() {
    let environment = Environment {
        packager: Some("Someone <someone@example.invalid>".to_string()),
        source_date_epoch: Some("17".to_string()),
    };
    let Action::Convert(options) = parse_in(&["app.deb"], &environment).expect("conversion") else {
        panic!("conversion action expected");
    };
    assert_eq!(options.packager, "Someone <someone@example.invalid>");
    assert_eq!(options.source_date_epoch, Some(17));

    let Action::Convert(options) = parse_in(
        &["--packager=Me", "--source-date-epoch", "18", "app.deb"],
        &environment,
    )
    .expect("conversion") else {
        panic!("conversion action expected");
    };
    assert_eq!(options.packager, "Me");
    assert_eq!(options.source_date_epoch, Some(18));
}

#[test]
fn every_switch_has_its_effect() {
    let options = convert(&[
        "--no-mtree",
        "--keep-work",
        "-s",
        "-P",
        "--scripts",
        "raw",
        "--output=/out",
        "-q",
        "x.deb",
    ]);
    assert!(!options.generate_mtree);
    assert!(options.keep_work);
    assert!(options.pseudo_64);
    assert!(options.quiet);
    assert_eq!(options.pkgbuild, PkgbuildMode::Only);
    assert_eq!(options.script_policy, ScriptPolicy::Raw);
    assert_eq!(options.output_dir.as_deref(), Some(&b"/out"[..]));
}

#[test]
fn help_version_and_update_are_actions() {
    assert_eq!(parse(&["--help"]).expect("help"), Action::Help);
    assert_eq!(parse(&["-h"]).expect("help"), Action::Help);
    assert_eq!(parse(&["--version"]).expect("version"), Action::Version);
    assert_eq!(parse(&["-v"]).expect("version"), Action::Version);
    assert_eq!(parse(&["--update"]).expect("update"), Action::Update);
    assert_eq!(parse(&["-u"]).expect("update"), Action::Update);
    assert_eq!(VERSION, "0.2.0");
    assert!(help().starts_with("debtap-rs - fast Debian-to-Arch package converter\n\nUsage:\n"));
    assert!(help().contains("\n-o, --output DIR          Write output to DIR\n"));
    assert!(help().ends_with("Make Debforge the default .deb file handler\n"));
}

#[test]
fn two_dashes_end_the_options() {
    assert_eq!(convert(&["--", "--force"]).input, b"--force");
    assert!(!convert(&["--", "--force"]).force);
    let Action::Install(InstallOptions { input, assume_yes }) =
        parse(&["install", "--", "--yes"]).expect("install")
    else {
        panic!("install action expected");
    };
    assert_eq!(input, b"--yes");
    assert!(!assume_yes);
}

#[test]
fn a_path_need_not_be_text() {
    let action = parse_from(&[vec![0x2f, 0xff, 0x2e]], &no_environment()).expect("conversion");
    let Action::Convert(options) = action else {
        panic!("conversion action expected");
    };
    assert_eq!(options.input, vec![0x2f, 0xff, 0x2e]);
}

#[test]
fn faulty_command_lines_are_rejected() {
    for arguments in [
        &[][..],
        &["--unknown", "app.deb"],
        &["-x", "app.deb"],
        &["--output"],
        &["--output", "", "app.deb"],
        &["--compression-level", "0", "app.deb"],
        &["--compression-level", "many", "app.deb"],
        &["--scripts", "sometimes", "app.deb"],
        &["--source-date-epoch", "-1", "app.deb"],
        &["--source-date-epoch", "18446744073709551616", "app.deb"],
        &["--packager", "two\nlines", "app.deb"],
        &["install"],
        &["install", "one.deb", "two.deb"],
    ] {
        assert!(parse(arguments).is_err(), "accepted {arguments:?}");
    }
    assert_eq!(
        message(&["--scripts=sometimes", "app.deb"]),
        "Unknown script policy 'sometimes'. Use safe, none, or raw."
    );
}

#[test]
fn compression_levels_are_accepted_from_one_through_nineteen() {
    for level in 0u32..=300 {
        let text = level.to_string();
        let accepted = parse(&["--compression-level", &text, "a.deb"]).is_ok();
        assert_eq!(accepted, (1..=19).contains(&level), "level {level}");
    }
}

#[test]
fn faults_of_the_command_line_are_named() {
    for (arguments, expected) in [
        (&[][..], "No Debian package was given. Use debtap-rs [options] package.deb."),
        (&["--unknown"], "Unknown option: --unknown"),
        (&["-qx"], "Unknown short option '-x' in '-qx'."),
        (&["--output"], "--output needs a path."),
        (&["--scripts"], "--scripts needs a value."),
        (&["--packager="], "--packager needs text."),
        (&["--packager=a\nb"], "--packager cannot contain a new line."),
        (
            &["--compression-level=20"],
            "The Zstandard compression level must be from 1 through 19.",
        ),
        (
            &["install"],
            "No Debian package was given. Use debtap-rs install package.deb.",
        ),
        (&["install", "--force"], "Unknown install option: --force"),
        (
            &["register-handler", "x"],
            "register-handler does not accept additional arguments.",
        ),
        (
            &["a.deb", "b.deb"],
            "Only one Debian package can be converted at a time.",
        ),
    ] {
        assert_eq!(message(arguments), expected, "{arguments:?}");
    }
    assert!(message(&["--compression-level=x"])
        .starts_with("Invalid Zstandard compression level 'x': "));
    assert_eq!(
        parse_from(&[vec![b'-', 0xff]], &no_environment()).unwrap_err().to_string(),
        "An option contains text that is not valid UTF-8."
    );
}
