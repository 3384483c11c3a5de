use debtap_rs::process::{
    capture_stdout, capture_text, command_exists, describe_command, diagnostic_text, find_tool,
    is_executable_file, pipe_bsdtar_to_zstd, quote_argument, require_tool, require_tools,
    run_checked, run_checked_output, status_description, tool_exists, tool_candidates, validate_zstd_level,
    zstd_arguments, zstd_start_failure, CommandOutput, LimitedOutput,
};

fn paths(list: &[&str]) -> Vec<Vec<u8>> {
    list.iter().map(|path| path.as_bytes().to_vec()).collect()
}

#[test]
fn a_known_absolute_executable_is_found() {
    let candidates = tool_candidates(b"/bin/sh", Some(b"/usr/bin"));
    assert_eq!(candidates, paths(&["/bin/sh"]));
    let executable = vec![is_executable_file(true, 0o100755)];
    assert!(find_tool(&candidates, &executable).is_some());
}

#[test]
fn an_empty_tool_name_is_not_found() {
    let candidates = tool_candidates(b"", Some(b"/usr/bin"));
    assert!(find_tool(&candidates, &Vec::new()).is_none());
}

#[test]
fn checked_output_reports_a_nonzero_exit() {
    let output = CommandOutput {
        status: Some(7),
        stdout: Vec::new(),
        stderr: b"problem".to_vec(),
    };
    let description = describe_command(b"/bin/sh", &paths(&["-c", "printf problem >&2; exit 7"]));
    let error = run_checked_output(&description, output).expect_err("the command must fail");
    let message = error.to_string();
    assert!(message.contains("exit status 7"));
    assert!(message.contains("problem"));
}

#[test]
fn a_successful_command_gives_its_output() {
    let output = CommandOutput {
        status: Some(0),
        stdout: vec![0xff, 0x0a],
        stderr: b"note".to_vec(),
    };
    assert_eq!(capture_stdout("tool", output.clone()).expect("output"), vec![0xff, 0x0a]);
    assert!(run_checked("tool", output.clone()).is_ok());
    let signal = CommandOutput {
        status: None,
        stdout: b"only this".to_vec(),
        stderr: Vec::new(),
    };
    assert_eq!(
        run_checked("tool", signal).unwrap_err().to_string(),
        "tool failed with termination by signal: only this"
    );
}

#[test]
fn zstd_level_validation_has_clear_bounds() {
    assert!(validate_zstd_level(1).is_ok());
    assert!(validate_zstd_level(22).is_ok());
    assert!(validate_zstd_level(0).is_err());
    assert!(validate_zstd_level(23).is_err());
    assert_eq!(
        validate_zstd_level(-4).unwrap_err().to_string(),
        "invalid zstd compression level -4; expected a value from 1 through 22"
    );
}

#[test]
fn a_tool_is_looked_for_in_the_search_path() {
    let candidates = tool_candidates(b"ar", Some(b"/usr/local/bin:/usr/bin"));
    assert_eq!(candidates, paths(&["/usr/local/bin/ar", "/usr/bin/ar"]));
    assert_eq!(
        find_tool(&candidates, &vec![false, true]),
        Some(b"/usr/bin/ar".to_vec())
    );
    assert_eq!(
        find_tool(&candidates, &vec![true, true]),
        Some(b"/usr/local/bin/ar".to_vec())
    );
    assert!(command_exists(&candidates, &vec![true, false]));
    assert!(tool_exists(&candidates, &vec![false, true]));
    assert!(!command_exists(&candidates, &vec![false, false]));
    assert!(!is_executable_file(true, 0o644));
    assert!(!is_executable_file(false, 0o755));
}

#[test]
fn missing_tools_are_named() {
    assert_eq!(require_tool(b"ar", Some(b"/bin/ar".to_vec())).expect("found"), b"/bin/ar");
    assert_eq!(
        require_tool(b"ar", None).unwrap_err().to_string(),
        "required command 'ar' was not found in PATH"
    );
    assert_eq!(
        require_tools(&["ar", "zstd"], &vec![Some(b"/ar".to_vec()), None])
            .unwrap_err()
            .to_string(),
        "required command 'zstd' was not found in PATH"
    );
    assert_eq!(
        require_tools(&["ar"], &vec![Some(b"/ar".to_vec())]).expect("all"),
        paths(&["/ar"])
    );
}

#[test]
fn unusual_arguments_are_quoted() {
    assert_eq!(quote_argument(b"--level=3"), "--level=3");
    assert_eq!(quote_argument(b"a b"), "\"a b\"");
    assert_eq!(quote_argument(b"tab\there"), "\"tab\\there\"");
    assert_eq!(quote_argument(b""), "");
    assert_eq!(quote_argument(&[0x61, 0xff]), format!("{:?}", "a\u{fffd}"));
}

#[test]
fn output_must_be_text() {
    let good = CommandOutput {
        status: Some(0),
        stdout: "größer\n".as_bytes().to_vec(),
        stderr: Vec::new(),
    };
    assert_eq!(capture_text("tool", good).expect("text"), "größer\n");
    let bad = CommandOutput {
        status: Some(0),
        stdout: vec![0x61, 0xff],
        stderr: Vec::new(),
    };
    let fault = std::str::from_utf8(&[0x61, 0xff]).unwrap_err().to_string();
    assert_eq!(
        capture_text("tool", bad).unwrap_err().to_string(),
        format!("tool wrote non-UTF-8 data to standard output: {fault}")
    );
}

#[test]
fn diagnostics_stand_on_one_line() {
    assert_eq!(diagnostic_text(b"\n one\ntwo \n"), "one; two");
    assert_eq!(diagnostic_text(b"  "), "");
    assert_eq!(diagnostic_text(&[0x78, 0xff]), "x\u{fffd}");
    assert_eq!(status_description(Some(-3)), "exit status -3");
    assert_eq!(status_description(None), "termination by signal");
    assert_eq!(
        zstd_start_failure("no such file", b"").to_string(),
        "failed to start zstd: no such file"
    );
}

#[test]
fn both_processes_of_the_pipeline_must_succeed() {
    assert!(pipe_bsdtar_to_zstd(Some(0), Some(0), b"", b"").is_ok());
    let error = pipe_bsdtar_to_zstd(Some(1), Some(0), b"bad entry\n", b"").unwrap_err();
    assert!(error.to_string().contains("bad entry"));
    assert!(pipe_bsdtar_to_zstd(Some(0), None, b"", b"").is_err());
}

#[test]
fn high_levels_need_the_ultra_option() {
    assert_eq!(
        zstd_arguments(3).expect("level"),
        ["-3", "--threads=0", "--quiet", "--stdout", "--"]
    );
    assert_eq!(zstd_arguments(20).expect("level")[0], "--ultra");
    assert_eq!(zstd_arguments(20).expect("level")[1], "-20");
    assert!(zstd_arguments(0).is_err());
}

#[test]
fn long_output_is_cut() {
    let kept = LimitedOutput::new(5).read_limited(b"abc").read_limited(b"d").finish();
    assert_eq!(kept, b"abcd");
    let cut = LimitedOutput::new(5).read_limited(b"abc").read_limited(b"defg").finish();
    assert!(cut.starts_with(b"abcde"));
    assert!(cut.len() > 5);
}
