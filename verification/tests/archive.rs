use debtap_rs::archive::members::parse_ar_member_listing;
use debtap_rs::archive::package::validate_package_suffix;
use debtap_rs::archive::places::{
    ensure_empty_directory, extract_control, next_temporary_attempt, temporary_name,
    validate_real_directory,
};
use debtap_rs::archive::{
    collect_sorted_file_list, create_package, create_package_with_options, extract_deb_members,
    extract_members, extract_payload, generate_mtree, generate_mtree_with_epoch, sorted_nul_file_list, try_validate_package,
    validate_debian_binary, validate_debian_magic, validate_package, validation_arguments,
    write_gzip_stored, write_sorted_nul_file_list, BuildReply, PackageBuild, PackageCheck,
    DirectoryEntry, FileWalk, PackageOptions, ValidationStatus,
};
use debtap_rs::archive::gzip::crc32_update;
use debtap_rs::attempts::{CreationReply, NextAttempt};
use debtap_rs::process::CommandOutput;
use debtap_rs::workspace::WorkspaceIdentity;

fn paths(list: &[&str]) -> Vec<Vec<u8>> {
    list.iter().map(|path| path.as_bytes().to_vec()).collect()
}

fn texts(list: &[Vec<u8>]) -> Vec<String> {
    list.iter()
        .map(|path| String::from_utf8(path.clone()).expect("text"))
        .collect()
}

#[test]
fn invalid_debian_magic_is_rejected() {
    assert!(validate_debian_magic("bad.deb", b"not an ar file").is_err());
    assert!(validate_debian_magic("bad.deb", b"not an a").is_err());
    assert!(validate_debian_magic("good.deb", b"!<arch>\n").is_ok());
    assert_eq!(
        validate_debian_magic("bad.deb", b"").unwrap_err().to_string(),
        "bad.deb is not a Debian ar archive: invalid !<arch> signature"
    );
}

/// What a directory of a file system in memory holds: the names, and whether
/// they belong to directories. `link` leads to the directory `outside`.
fn directory_entries(directory: &[u8]) -> Vec<DirectoryEntry> {
    let names: &[(&str, bool)] = match directory {
        b"" => &[("z", false), ("link", false), ("a", true)],
        b"a" => &[("file", false)],
        b"link" => &[("hidden", false)],
        other => panic!("unexpected directory {other:?}"),
    };
    names
        .iter()
        .map(|(name, is_directory)| DirectoryEntry {
            name: name.as_bytes().to_vec(),
            is_directory: *is_directory,
        })
        .collect()
}

fn walked() -> Vec<Vec<u8>> {
    let mut walk = FileWalk::new();
    while let Some(directory) = walk.next_directory() {
        let entries = directory_entries(directory);
        walk = walk.add_entries(&entries);
    }
    walk.finish()
}

#[test]
fn file_list_is_sorted_and_does_not_enter_symlinks() {
    let rendered = texts(&collect_sorted_file_list(&walked()));
    assert_eq!(rendered[0], "./a");
    assert_eq!(rendered[1], "./a/file");
    assert!(rendered.contains(&"./link".to_string()));
    assert!(!rendered.iter().any(|path| path.contains("hidden")));
    assert_eq!(rendered.last().map(String::as_str), Some("./z"));
}

#[test]
fn lists_hold_a_nul_for_each_path() {
    let (list, count) = write_sorted_nul_file_list(&walked()).expect("list");
    assert_eq!(list, b"./a\0./a/file\0./link\0./z\0");
    assert_eq!(count, 4);
    assert_eq!(list.iter().filter(|byte| **byte == 0).count(), count);
}

#[test]
fn names_for_temporary_files_run_out() {
    let taken = |made: u32| next_temporary_attempt(made, "/out", CreationReply::Taken);
    assert_eq!(taken(0).expect("more names"), NextAttempt::Again(1));
    assert_eq!(taken(126).expect("more names"), NextAttempt::Again(127));
    assert_eq!(
        taken(127).unwrap_err().to_string(),
        "could not create a unique temporary file in /out"
    );
    assert_eq!(
        next_temporary_attempt(5, "/out", CreationReply::Created).expect("created"),
        NextAttempt::Finished
    );
    assert_eq!(
        next_temporary_attempt(5, "/out", CreationReply::Failed("full".to_string()))
            .unwrap_err()
            .to_string(),
        "full"
    );
}

/// Read a gzip stream of stored blocks.
fn decode_stored(stream: &[u8]) -> Vec<u8> {
    assert_eq!(&stream[..10], &[0x1f, 0x8b, 8, 0, 0, 0, 0, 0, 0, 3]);
    let mut at = 10;
    let mut decoded = Vec::new();
    loop {
        let last = stream[at];
        let length = u16::from_le_bytes([stream[at + 1], stream[at + 2]]);
        let check = u16::from_le_bytes([stream[at + 3], stream[at + 4]]);
        assert_eq!(length, !check);
        at += 5;
        decoded.extend_from_slice(&stream[at..at + usize::from(length)]);
        at += usize::from(length);
        if last == 1 {
            break;
        }
        assert_eq!(last, 0);
    }
    let crc = u32::from_le_bytes([stream[at], stream[at + 1], stream[at + 2], stream[at + 3]]);
    let size =
        u32::from_le_bytes([stream[at + 4], stream[at + 5], stream[at + 6], stream[at + 7]]);
    assert_eq!(at + 8, stream.len());
    assert_eq!(size as usize, decoded.len());
    assert_eq!(crc, !crc32_update(u32::MAX, &decoded));
    decoded
}

#[test]
fn stored_gzip_has_a_valid_crc_and_round_trips_with_gzip() {
    let expected = b"#mtree\n./file type=file uid=0 gid=0 mode=644\n";
    assert_eq!(decode_stored(&write_gzip_stored(expected)), expected);
    assert_eq!(decode_stored(&write_gzip_stored(b"")), b"");
    let long: Vec<u8> = (0..140_000u32).map(|number| (number % 251) as u8).collect();
    assert_eq!(decode_stored(&write_gzip_stored(&long)), long);
}

#[test]
fn the_checksum_of_a_known_text() {
    assert_eq!(!crc32_update(u32::MAX, b"123456789"), 0xcbf4_3926);
    let halves = crc32_update(crc32_update(u32::MAX, b"12345"), b"6789");
    assert_eq!(!halves, 0xcbf4_3926);
}

#[test]
fn package_suffix_is_required() {
    assert!(validate_package_suffix(b"a.pkg.tar.zst").is_ok());
    assert!(validate_package_suffix(b"a.tar.zst").is_err());
    assert_eq!(
        validate_package_suffix(b"dir/a.tar.zst").unwrap_err().to_string(),
        "package output must end in .pkg.tar.zst: dir/a.tar.zst"
    );
    assert_eq!(
        validate_package_suffix(b"/").unwrap_err().to_string(),
        "package output has no file name: /"
    );
}

#[test]
fn the_format_version_is_exact() {
    assert!(validate_debian_binary("debian-binary", b"2.0\n").is_ok());
    assert_eq!(
        validate_debian_binary("debian-binary", b"2.0").unwrap_err().to_string(),
        "debian-binary does not contain the Debian package format version 2.0"
    );
    assert!(validate_debian_binary("debian-binary", b"2.0\n\n").is_err());
}

#[test]
fn member_listings_are_cleaned() {
    assert_eq!(
        texts(&parse_ar_member_listing(b"debian-binary/\r\n\ncontrol.tar.gz\ndata.tar.xz/\n").unwrap()),
        ["debian-binary", "control.tar.gz", "data.tar.xz"]
    );
    for listing in [&b"/\n"[..], b"\r\n", b"a\0b\n"] {
        assert_eq!(
            parse_ar_member_listing(listing).unwrap_err().to_string(),
            "ar returned an invalid member name"
        );
    }
}

#[test]
fn each_required_member_occurs_once() {
    let archive = extract_deb_members(
        b"_gpgorigin\ndebian-binary\ncontrol.tar.zst\ndata.tar\n",
        b"/work/members",
    )
    .expect("members");
    assert_eq!(archive.debian_binary, b"/work/members/debian-binary");
    assert_eq!(archive.control_member, b"/work/members/control.archive");
    assert_eq!(archive.data_member, b"/work/members/data.archive");
    assert_eq!(archive.control_member_name, b"control.tar.zst");
    assert_eq!(archive.data_member_name, b"data.tar");

    assert_eq!(
        extract_members(
            b"_gpgorigin\ndebian-binary\ncontrol.tar.zst\ndata.tar\n",
            b"/work/members",
        )
        .expect("members"),
        archive
    );
    assert_eq!(
        extract_deb_members(b"control.tar\ndata.tar\n", b"m").unwrap_err().to_string(),
        "Debian archive has no debian-binary member"
    );
    assert_eq!(
        extract_deb_members(b"debian-binary\ncontrol.tar\ncontrol.tar.gz\ndata.tar\n", b"m")
            .unwrap_err()
            .to_string(),
        "Debian archive has more than one control.tar* member"
    );
    assert_eq!(
        extract_deb_members(b"debian-binary\ncontrol.tar\n", b"m").unwrap_err().to_string(),
        "Debian archive has no data.tar* member"
    );
}

#[test]
fn file_lists_end_each_path_with_a_zero_byte() {
    let relative = paths(&["b", "a"]);
    assert_eq!(sorted_nul_file_list(&relative).unwrap(), b"./a\0./b\0");
    assert_eq!(
        write_sorted_nul_file_list(&relative).unwrap(),
        (b"./a\0./b\0".to_vec(), 2)
    );
    assert_eq!(
        sorted_nul_file_list(&vec![b"a\0b".to_vec()]).unwrap_err().to_string(),
        "a package path contains a NUL byte"
    );
}

#[test]
fn an_index_leaves_itself_out_and_fixes_the_time() {
    let relative = paths(&["usr", ".MTREE", ".PKGINFO"]);
    let plan = generate_mtree_with_epoch(&relative, b"/tmp/list", Some(5)).expect("plan");
    assert_eq!(plan.list, b"./.PKGINFO\0./usr\0");
    let arguments = texts(&plan.arguments);
    assert!(arguments.contains(&"/tmp/list".to_string()));
    assert!(arguments.iter().any(|argument| argument.contains('5')));
    let plain = generate_mtree(&relative, b"/tmp/list").expect("plan");
    assert_eq!(plain.list, plan.list);
    assert!(plain.arguments.len() < plan.arguments.len());
    assert_eq!(
        generate_mtree_with_epoch(&relative, b"/tmp/list", Some(-1)).unwrap_err().to_string(),
        "SOURCE_DATE_EPOCH cannot be a negative number"
    );
}

fn started(options: PackageOptions) -> PackageBuild {
    create_package_with_options(b"out/a-1-1-any.pkg.tar.zst", options)
        .expect("start")
        .advance(BuildReply::Resolved {
            root: b"/root".to_vec(),
            directory: b"/out".to_vec(),
        })
        .expect("resolved")
}

#[test]
fn a_package_goes_through_all_steps() {
    let options = PackageOptions {
        source_date_epoch: Some(0),
        validate_with_pacman: true,
        ..PackageOptions::default()
    };
    let mut step = started(options).advance(BuildReply::Exists(false)).expect("free");
    assert!(matches!(step, PackageBuild::List { .. }));
    step = step.advance(BuildReply::Files(paths(&["b", ".PKGINFO"]))).expect("listed");
    match &step {
        PackageBuild::WriteList { .. } => {}
        other => panic!("unexpected step {other:?}"),
    }
    step = step.advance(BuildReply::Created(b"/out/list".to_vec())).expect("written");
    match &step {
        PackageBuild::Compress {
            arguments,
            compression,
            ..
        } => {
            assert_eq!(arguments[arguments.len() - 3], b"/out/list");
            assert_eq!(compression, &["-3", "--threads=0", "--quiet", "--stdout", "--"]);
        }
        other => panic!("unexpected step {other:?}"),
    }
    step = step.advance(BuildReply::Created(b"/out/partial".to_vec())).expect("compressed");
    assert!(matches!(step, PackageBuild::Validate { .. }));
    step = step.advance(BuildReply::Checked(asked(Some(0)))).expect("validated");
    assert!(matches!(step, PackageBuild::Publish { overwrite: false, .. }));
    step = step.advance(BuildReply::Done).expect("published");
    assert_eq!(
        step,
        PackageBuild::Finished {
            package: b"/out/a-1-1-any.pkg.tar.zst".to_vec()
        }
    );
}

#[test]
fn an_existing_package_needs_the_option_to_replace() {
    assert!(started(PackageOptions::default()).advance(BuildReply::Exists(true)).is_err());
    let replacing = PackageOptions {
        overwrite: true,
        ..PackageOptions::default()
    };
    assert!(started(replacing).advance(BuildReply::Exists(true)).is_ok());
}

#[test]
fn faulty_package_requests_are_refused() {
    assert!(create_package(b"a.tar", 3).is_err());
    assert!(create_package(b"a.pkg.tar.zst", 3).is_ok());
    let negative = PackageOptions {
        source_date_epoch: Some(-1),
        ..PackageOptions::default()
    };
    assert!(create_package_with_options(b"a.pkg.tar.zst", negative).is_err());
    let inside = create_package(b"a.pkg.tar.zst", 3).expect("start");
    assert_eq!(
        inside
            .advance(BuildReply::Resolved {
                root: b"/root".to_vec(),
                directory: b"/root/usr".to_vec(),
            })
            .unwrap_err()
            .to_string(),
        "the package output directory must be outside the package root"
    );
    let empty = started(PackageOptions::default()).advance(BuildReply::Exists(false)).expect("free");
    assert_eq!(
        empty.advance(BuildReply::Files(Vec::new())).unwrap_err().to_string(),
        "cannot create a package from an empty root"
    );
}

fn asked(status: Option<i32>) -> PackageCheck {
    PackageCheck::Asked {
        pacman: b"/usr/bin/pacman".to_vec(),
        package: b"/out/partial".to_vec(),
        output: CommandOutput {
            status,
            stdout: Vec::new(),
            stderr: b"error: missing metadata\n".to_vec(),
        },
    }
}

#[test]
fn validation_depends_on_the_file_and_on_pacman() {
    assert_eq!(
        try_validate_package("a", asked(Some(0))).expect("accepted"),
        ValidationStatus::Validated
    );
    assert_eq!(
        try_validate_package("a", PackageCheck::PacmanMissing).expect("missing pacman"),
        ValidationStatus::PacmanUnavailable
    );
    assert_eq!(
        try_validate_package("a", PackageCheck::NotAFile).unwrap_err().to_string(),
        "package output is not a regular file: a"
    );
    let refusal = "/usr/bin/pacman -Qp -- /out/partial failed with exit status 1: \
                   error: missing metadata";
    assert_eq!(
        try_validate_package("a", asked(Some(1))).unwrap_err().to_string(),
        refusal
    );
    assert_eq!(validate_package("a", asked(Some(1))).unwrap_err().to_string(), refusal);
    assert!(try_validate_package("a", asked(None)).is_err());
    assert!(validate_package("a", asked(Some(0))).is_ok());
    assert!(validate_package("a", PackageCheck::PacmanMissing).is_ok());
    assert!(validate_package("a", PackageCheck::NotAFile).is_err());
    assert_eq!(texts(&validation_arguments(b"/out/partial")), ["-Qp", "--", "/out/partial"]);
}

fn listed(options: PackageOptions) -> PackageBuild {
    started(options)
        .advance(BuildReply::Exists(false))
        .expect("free")
        .advance(BuildReply::Files(paths(&["b"])))
        .expect("listed")
}

#[test]
fn a_refused_package_is_not_published() {
    let options = PackageOptions {
        validate_with_pacman: true,
        ..PackageOptions::default()
    };
    let check = |check: PackageCheck| {
        listed(options)
            .advance(BuildReply::Created(b"/out/list".to_vec()))
            .expect("written")
            .advance(BuildReply::Created(b"/out/partial".to_vec()))
            .expect("compressed")
            .advance(BuildReply::Checked(check))
    };
    assert!(matches!(check(asked(Some(0))), Ok(PackageBuild::Publish { .. })));
    assert!(matches!(check(PackageCheck::PacmanMissing), Ok(PackageBuild::Publish { .. })));
    assert!(check(asked(Some(1))).is_err());
    assert_eq!(
        check(PackageCheck::NotAFile).unwrap_err().to_string(),
        "package output is not a regular file: /out/partial"
    );
}

#[test]
fn a_package_needs_a_valid_compression_level() {
    let compress = |zstd_level: i32| {
        listed(PackageOptions {
            zstd_level,
            ..PackageOptions::default()
        })
        .advance(BuildReply::Created(b"/out/list".to_vec()))
    };
    for level in [1, 3, 22] {
        assert!(matches!(compress(level), Ok(PackageBuild::Compress { .. })));
    }
    for level in [-1, 0, 23] {
        assert_eq!(
            compress(level).unwrap_err().to_string(),
            format!("invalid zstd compression level {level}; expected a value from 1 through 22")
        );
    }
}

#[test]
fn extraction_needs_real_places() {
    assert!(extract_control("/c/control", false, true).is_ok());
    assert_eq!(
        extract_control("/c/control", true, false).unwrap_err().to_string(),
        "the Debian control entry is not a regular file: /c/control"
    );
    assert!(validate_real_directory("/d", "package root", false, true).is_ok());
    assert_eq!(
        validate_real_directory("/d", "package root", true, true).unwrap_err().to_string(),
        "package root is not a real directory: /d"
    );
    assert!(ensure_empty_directory("/d", false).is_ok());
    assert_eq!(
        ensure_empty_directory("/d", true).unwrap_err().to_string(),
        "extraction destination is not empty: /d"
    );
}

#[test]
fn temporary_files_have_unique_names() {
    let identity = WorkspaceIdentity {
        process: 42,
        nanoseconds: 255,
        counter: 1,
    };
    assert_eq!(
        temporary_name(".debtap-rs-list", &identity),
        ".debtap-rs-list-42-000000000000000000000000000000ff-0000000000000001"
    );
}

#[test]
fn extraction_drops_owners_and_flags() {
    assert_eq!(
        texts(&extract_payload(b"/m/data.archive", b"/root")),
        ["-xpf", "/m/data.archive", "--no-same-owner", "--no-fflags", "-C", "/root"]
    );
}
