use sha2::Digest;
use stremio_shell::updater::{
    evaluate_update, hex_string, parse_semver, DownloadCheck, DownloadVerifier, FileItem, SemVer,
    UpdateError,
};

fn s(x: &str) -> String {
    x.to_string()
}

fn files() -> Vec<FileItem> {
    vec![
        FileItem { url: s("https://dl/setup.dmg"), checksum: s("aa"), os: s("macos") },
        FileItem { url: s("https://dl/setup.exe"), checksum: s("bb"), os: s("windows") },
    ]
}

#[test]
fn parse_versions() {
    let v = parse_semver("1.2.3").expect("parses");
    assert_eq!((v.major, v.minor, v.patch), (1, 2, 3));
    assert!(v.pre.is_none());
    let v = parse_semver("5.0.0-rc.1").expect("parses");
    assert_eq!((v.major, v.minor, v.patch), (5, 0, 0));
    assert_eq!(v.pre.as_deref(), Some("rc.1"));
    for bad in ["", "1", "1.2", "1.2.", "a.b.c", "1.2.3-", "18446744073709551616.0.0"] {
        assert!(parse_semver(bad).is_none(), "{bad:?} should be rejected");
    }
}

#[test]
fn version_precedence() {
    let a = parse_semver("1.2.2").unwrap();
    let b = parse_semver("1.2.3").unwrap();
    let rc = parse_semver("1.2.3-rc.1").unwrap();
    assert!(a.lt(&b));
    assert!(!b.lt(&a));
    assert!(rc.lt(&b));
    assert!(!b.lt(&rc));
}

#[test]
fn update_cycle_takes_newer_version() {
    // descriptor 1.2.3, index 1.2.3, current 1.2.2, requirement >1.2.2
    let current = parse_semver("1.2.2").unwrap();
    let choice = evaluate_update("1.2.3", "1.2.3", &files(), &current, false, "windows")
        .expect("the cycle yields a download");
    assert_eq!(choice.file_index, 1);
    assert_eq!((choice.version.major, choice.version.minor, choice.version.patch), (1, 2, 3));
}

#[test]
fn update_cycle_error_cases() {
    let current = parse_semver("1.2.2").unwrap();
    assert!(matches!(
        evaluate_update("1.2.4", "1.2.3", &files(), &current, false, "windows"),
        Err(UpdateError::VersionMismatch)
    ));
    assert!(matches!(
        evaluate_update("1.2.3", "1.2.3", &files(), &current, false, "linux"),
        Err(UpdateError::NoFileForPlatform)
    ));
    assert!(matches!(
        evaluate_update("nope", "nope", &files(), &current, false, "windows"),
        Err(UpdateError::BadVersion)
    ));
    let newer = parse_semver("2.0.0").unwrap();
    assert!(matches!(
        evaluate_update("1.2.3", "1.2.3", &files(), &newer, false, "windows"),
        Err(UpdateError::NotNewer)
    ));
    // the force flag overrides the requirement
    assert!(evaluate_update("1.2.3", "1.2.3", &files(), &newer, true, "windows").is_ok());
}

#[test]
fn sha256_known_vector() {
    // the trusted digest and the hex spelling against a published test vector
    let mut v = DownloadVerifier::new(s(
        "ba7816bf8f01cfea414140de5dae2223b00361a396177a9cb410ff61f20015ad",
    ));
    v.update(b"abc");
    assert!(matches!(v.finish(), DownloadCheck::Verified));
}

#[test]
fn checksum_mismatch_deletes_partial_file() {
    let content = b"artifact bytes of version 1.2.3";
    let declared = hex_string(&sha2::Sha256::digest(content).to_vec());
    // the unmodified download verifies
    let mut ok = DownloadVerifier::new(declared.clone());
    ok.update(&content[..10]);
    ok.update(&content[10..]);
    assert!(matches!(ok.finish(), DownloadCheck::Verified));
    // one mutated byte must be detected, and the partial file deleted
    let mut mutated = content.to_vec();
    mutated[4] ^= 1;
    let mut bad = DownloadVerifier::new(declared);
    bad.update(&mutated);
    assert!(matches!(bad.finish(), DownloadCheck::MismatchDeletePartial));
}

#[test]
fn pre_release_matches_requirement_only_within_triple() {
    // a pre-release candidate is not taken over a plain release of a lower triple
    let current = parse_semver("1.2.2").unwrap();
    let sole = vec![FileItem { url: s("u"), checksum: s("c"), os: s("windows") }];
    assert!(matches!(
        evaluate_update("1.2.3-rc.1", "1.2.3-rc.1", &sole, &current, false, "windows"),
        Err(UpdateError::NotNewer)
    ));
    // but it is taken over a pre-release of the same triple
    let current_rc = parse_semver("1.2.3-rc.1").unwrap();
    assert!(evaluate_update("1.2.3-rc.2", "1.2.3-rc.2", &sole, &current_rc, false, "windows")
        .is_ok());
}

#[test]
fn semver_struct_is_plain_data() {
    let v = SemVer { major: 1, minor: 2, patch: 3, pre: None };
    assert!(v.lt(&SemVer { major: 1, minor: 2, patch: 4, pre: None }));
}
