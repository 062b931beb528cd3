use dcr::utils::build_helpers::{normalize_target_os, parse_version_info, split_flags};

#[test]
fn test_normalize_target_os() {
    assert_eq!(normalize_target_os("linux"), "x86_64-unknown-linux-gnu");
    assert_eq!(normalize_target_os("macos"), "x86_64-apple-darwin");
    assert_eq!(normalize_target_os("windows"), "x86_64-pc-windows-msvc");
    assert_eq!(
        normalize_target_os("x86_64-unknown-linux-gnu"),
        "x86_64-unknown-linux-gnu"
    );
    assert_eq!(normalize_target_os("unknown"), "unknown");
}

#[test]
fn normalize_target_short_names() {
    assert_eq!(normalize_target_os("linux"), "x86_64-unknown-linux-gnu");
    assert_eq!(normalize_target_os("macos"), "x86_64-apple-darwin");
    assert_eq!(normalize_target_os("windows"), "x86_64-pc-windows-msvc");
    assert_eq!(
        normalize_target_os("x86_64-unknown-linux-gnu"),
        "x86_64-unknown-linux-gnu"
    );
    assert_eq!(normalize_target_os("unknown"), "unknown");
}

#[test]
fn parse_version_parts() {
    let info = parse_version_info("1.2.3-beta");
    assert_eq!(info.full, "1.2.3-beta");
    assert_eq!(info.major, "1");
    assert_eq!(info.minor, "2");
    assert_eq!(info.patch, "3");
    assert_eq!(info.suffix, "beta");
    assert_eq!(info.suffix_dash, "-beta");
}

#[test]
fn parse_version_blank_defaults() {
    let info = parse_version_info("   ");
    assert_eq!(info.full, "0.0.0");
    assert_eq!(info.major, "0");
    assert_eq!(info.minor, "0");
    assert_eq!(info.patch, "0");
    assert_eq!(info.suffix, "");
    assert_eq!(info.suffix_dash, "");
}

#[test]
fn split_flags_respects_quotes() {
    let flags = split_flags("-O2  -DNAME=\"a b\" 'x y'");
    assert_eq!(flags, vec!["-O2", "-DNAME=a b", "x y"]);
}
