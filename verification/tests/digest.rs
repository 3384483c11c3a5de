use debtap_rs::digest::{normalize_sha256, sha256_file, sha256_file_with_tool};

#[test]
fn validates_and_normalizes_sha256_text() {
    let uppercase = "A".repeat(64);
    assert_eq!(
        normalize_sha256(&uppercase).expect("digest"),
        "a".repeat(64)
    );
    assert!(normalize_sha256("abc").is_err());
    assert!(normalize_sha256(&"x".repeat(64)).is_err());
}

#[test]
fn the_printed_digest_is_read() {
    let digest = "Ab".repeat(32);
    assert_eq!(
        sha256_file(&format!("{digest}  file name\n")).expect("digest"),
        "ab".repeat(32)
    );
    assert_eq!(
        sha256_file_with_tool(&format!("{digest}  -\n")).expect("digest"),
        "ab".repeat(32)
    );
    assert_eq!(
        sha256_file(" \n").unwrap_err().to_string(),
        "sha256sum did not return a digest."
    );
    assert_eq!(
        sha256_file("abc  file\n").unwrap_err().to_string(),
        "The SHA-256 value must contain exactly 64 hexadecimal characters."
    );
    assert_eq!(
        normalize_sha256(&normalize_sha256(&digest).unwrap()).unwrap(),
        normalize_sha256(&digest).unwrap()
    );
}
