use debtap_rs::collection::TextSet;
use debtap_rs::compatibility::elf::is_elf;
use debtap_rs::compatibility::inspection::{
    expected_elf, interpreter_candidates, is_command_path, system_library_names,
};
use debtap_rs::compatibility::{
    inspect_payload, parse_elf, CompatibilityReport, ElfClass, PayloadContent, PayloadEntry,
};
use debtap_rs::error::Result;

fn minimal_x86_64_elf() -> Vec<u8> {
    let mut bytes = vec![0_u8; 64];
    bytes[..4].copy_from_slice(b"\x7fELF");
    bytes[4] = 2;
    bytes[5] = 1;
    bytes[6] = 1;
    bytes[16..18].copy_from_slice(&2_u16.to_le_bytes());
    bytes[18..20].copy_from_slice(&62_u16.to_le_bytes());
    bytes[20..24].copy_from_slice(&1_u32.to_le_bytes());
    bytes[52..54].copy_from_slice(&64_u16.to_le_bytes());
    bytes[54..56].copy_from_slice(&56_u16.to_le_bytes());
    bytes
}

fn file(path: &str, mode: u32, bytes: Vec<u8>) -> PayloadEntry {
    PayloadEntry {
        path: path.as_bytes().to_vec(),
        content: PayloadContent::File { mode, bytes },
    }
}

fn inspect(architecture: &str, entries: Vec<PayloadEntry>) -> Result<CompatibilityReport> {
    inspect_payload(b"/payload", architecture, &entries, &TextSet::new(), &TextSet::new())
}

#[test]
fn reads_a_minimal_elf_header_and_rejects_wrong_architecture() {
    let elf = parse_elf(&minimal_x86_64_elf(), "usr/bin/program").expect("parse").expect("ELF");
    assert_eq!(elf.class, ElfClass::Elf64);
    assert_eq!(elf.machine, 62);
    let entries = || vec![file("usr/bin/program", 0o755, minimal_x86_64_elf())];
    assert!(inspect("x86_64", entries()).is_ok());
    assert!(inspect("aarch64", entries()).is_err());
}

#[test]
fn rejects_special_payload_files() {
    let socket = PayloadEntry {
        path: b"control.sock".to_vec(),
        content: PayloadContent::Special,
    };
    let error = inspect("x86_64", vec![socket]).expect_err("special file");
    assert!(error.to_string().contains("special file"));
}

fn put(bytes: &mut Vec<u8>, at: usize, value: &[u8]) {
    if bytes.len() < at + value.len() {
        bytes.resize(at + value.len(), 0);
    }
    bytes[at..at + value.len()].copy_from_slice(value);
}

/// A program with an interpreter, a needed library and a runtime path.
fn dynamic_elf() -> Vec<u8> {
    let mut bytes = minimal_x86_64_elf();
    put(&mut bytes, 32, &64_u64.to_le_bytes());
    put(&mut bytes, 56, &3_u16.to_le_bytes());
    let header = |bytes: &mut Vec<u8>, index: usize, kind: u32, offset: u64, size: u64| {
        let at = 64 + index * 56;
        put(bytes, at, &kind.to_le_bytes());
        put(bytes, at + 8, &offset.to_le_bytes());
        put(bytes, at + 16, &offset.to_le_bytes());
        put(bytes, at + 32, &size.to_le_bytes());
        put(bytes, at + 40, &size.to_le_bytes());
    };
    let interpreter = b"/lib64/ld-linux-x86-64.so.2\0";
    header(&mut bytes, 0, 3, 0x200, interpreter.len() as u64);
    header(&mut bytes, 1, 1, 0, 0x400);
    header(&mut bytes, 2, 2, 0x300, 5 * 16);
    put(&mut bytes, 0x200, interpreter);
    let strings = b"\0libalpha.so.1\0/usr/lib/x86_64-linux-gnu/app\0";
    put(&mut bytes, 0x240, strings);
    let entries: [(u64, u64); 5] = [(1, 1), (29, 15), (5, 0x240), (10, strings.len() as u64), (0, 0)];
    for (index, (tag, value)) in entries.iter().enumerate() {
        put(&mut bytes, 0x300 + index * 16, &tag.to_le_bytes());
        put(&mut bytes, 0x308 + index * 16, &value.to_le_bytes());
    }
    put(&mut bytes, 0x3ff, &[0]);
    bytes
}

#[test]
fn reads_the_dynamic_table() {
    let elf = parse_elf(&dynamic_elf(), "program").expect("parse").expect("ELF");
    assert_eq!(elf.interpreter.as_deref(), Some("/lib64/ld-linux-x86-64.so.2"));
    assert_eq!(elf.needed, ["libalpha.so.1"]);
    assert_eq!(elf.runtime_paths, ["/usr/lib/x86_64-linux-gnu/app"]);
    assert!(elf.little_endian);
}

#[test]
fn reports_what_is_missing() {
    let report = inspect("x86_64", vec![file("usr/bin/app", 0o4755, dynamic_elf())]).expect("report");
    assert_eq!(report.elf_files, 1);
    assert_eq!(report.missing_interpreters, ["/lib64/ld-linux-x86-64.so.2"]);
    assert_eq!(report.missing_libraries, ["libalpha.so.1"]);
    assert_eq!(report.privileged_files, [b"usr/bin/app".to_vec()]);
    assert_eq!(report.risky_runtime_paths.len(), 1);
    assert!(report.foreign_elf_files.is_empty());
    assert!(!report.warnings().is_empty());
}

#[test]
fn what_the_payload_or_the_host_has_is_not_missing() {
    let mut present = TextSet::new();
    present.insert("/lib64/ld-linux-x86-64.so.2".to_string());
    let library = file("usr/lib/libalpha.so.1", 0o644, minimal_x86_64_elf());
    let program = file("usr/bin/app", 0o755, dynamic_elf());
    let report = inspect_payload(
        b"/payload",
        "x86_64",
        &vec![program.clone(), library],
        &present,
        &TextSet::new(),
    )
    .expect("report");
    assert!(report.missing_interpreters.is_empty());
    assert!(report.missing_libraries.is_empty());

    let names = system_library_names(
        Some("\tlibalpha.so.1 (libc6,x86-64) => /usr/lib/libalpha.so.1\n"),
        &Vec::new(),
    );
    assert!(names.contains("libalpha.so.1"));
    let report =
        inspect_payload(b"/payload", "x86_64", &vec![program], &present, &names).expect("report");
    assert!(report.missing_libraries.is_empty());
}

#[test]
fn other_files_are_no_programs() {
    assert!(is_elf(&minimal_x86_64_elf()));
    assert!(!is_elf(b"#!/bin/sh\n"));
    assert!(parse_elf(b"#!/bin/sh\n", "script").expect("no program").is_none());
    assert!(parse_elf(b"", "empty").expect("no program").is_none());
    let report = inspect("x86_64", vec![file("usr/bin/script", 0o755, b"#!/bin/sh\n".to_vec())])
        .expect("report");
    assert_eq!(report, CompatibilityReport::default());
    assert!(report.warnings().is_empty());
}

#[test]
fn damaged_programs_are_refused() {
    let mut cut = minimal_x86_64_elf();
    cut.truncate(20);
    assert!(parse_elf(&cut, "cut").is_err());
    let mut class = minimal_x86_64_elf();
    class[4] = 9;
    assert!(parse_elf(&class, "class").is_err());
    let mut order = minimal_x86_64_elf();
    order[5] = 9;
    assert!(parse_elf(&order, "order").is_err());
    let mut table = minimal_x86_64_elf();
    put(&mut table, 32, &4096_u64.to_le_bytes());
    put(&mut table, 56, &1_u16.to_le_bytes());
    assert!(parse_elf(&table, "table").is_err());
}

#[test]
fn big_endian_numbers_are_read() {
    let mut bytes = minimal_x86_64_elf();
    bytes[5] = 2;
    bytes[16..18].copy_from_slice(&2_u16.to_be_bytes());
    bytes[18..20].copy_from_slice(&22_u16.to_be_bytes());
    bytes[20..24].copy_from_slice(&1_u32.to_be_bytes());
    bytes[52..54].copy_from_slice(&64_u16.to_be_bytes());
    bytes[54..56].copy_from_slice(&56_u16.to_be_bytes());
    let elf = parse_elf(&bytes, "program").expect("parse").expect("ELF");
    assert!(!elf.little_endian);
    assert_eq!(elf.machine, 22);
    assert!(inspect("s390x", vec![file("usr/bin/p", 0o755, bytes.clone())]).is_ok());
    assert!(inspect("x86_64", vec![file("usr/bin/p", 0o755, bytes)]).is_err());
}

#[test]
fn architectures_have_an_expected_machine() {
    assert!(expected_elf("x86_64").is_some());
    assert!(expected_elf("any").is_none());
}

#[test]
fn commands_stand_in_command_directories() {
    assert!(is_command_path(b"usr/bin/app"));
    assert!(!is_command_path(b"usr/share/app"));
}

#[test]
fn interpreters_are_looked_for_on_the_host_and_in_the_payload() {
    let places = interpreter_candidates(b"/payload", "/lib64/ld.so");
    assert!(places.contains(&b"/lib64/ld.so".to_vec()));
    assert!(places.iter().any(|place| place.starts_with(b"/payload/")));
}

#[test]
fn foreign_executables_are_refused_wherever_they_stand() {
    let library = || file("opt/app/libalpha.so.1", 0o644, minimal_x86_64_elf());
    let report = inspect("aarch64", vec![library()]).expect("report");
    assert_eq!(report.foreign_elf_files, [b"opt/app/libalpha.so.1".to_vec()]);

    let error = inspect("aarch64", vec![library(), file("opt/app/run", 0o755, dynamic_elf())])
        .expect_err("a program with an interpreter");
    assert_eq!(
        error.to_string(),
        "ELF architecture mismatch in executable opt/app/run: machine 62, class Elf64."
    );
    let error = inspect("aarch64", vec![file("usr/bin/run", 0o755, minimal_x86_64_elf()), library()])
        .expect_err("a command");
    assert_eq!(
        error.to_string(),
        "ELF architecture mismatch in executable usr/bin/run: machine 62, class Elf64."
    );
}

#[test]
fn packages_for_any_machine_may_hold_programs() {
    let report = inspect(
        "any",
        vec![
            file("usr/bin/run", 0o755, dynamic_elf()),
            file("usr/bin/plain", 0o755, minimal_x86_64_elf()),
        ],
    )
    .expect("no definite mismatch");
    assert_eq!(report.elf_files, 2);
    assert_eq!(
        report.foreign_elf_files,
        [b"usr/bin/run".to_vec(), b"usr/bin/plain".to_vec()]
    );
    assert!(report.missing_libraries.is_empty());
}
