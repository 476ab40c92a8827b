use cargo_nix_plugin::cfg_eval::{applies, matches_target, target_cfgs, TargetDescription, TargetSpec};

fn linux_x86_64() -> TargetDescription {
    TargetDescription {
        name: "x86_64-unknown-linux-gnu".to_string(),
        os: "linux".to_string(),
        arch: "x86_64".to_string(),
        vendor: "unknown".to_string(),
        env: "gnu".to_string(),
        family: vec!["unix".to_string()],
        pointer_width: "64".to_string(),
        endian: "little".to_string(),
        unix: true,
        windows: false,
    }
}

fn matches(text: &str) -> bool {
    let platform = TargetSpec::parse(text).unwrap();
    matches_target(&platform, &linux_x86_64())
}

#[test]
fn cfg_target_os_linux_matches() {
    assert!(matches("cfg(target_os = \"linux\")"));
}

#[test]
fn cfg_windows_does_not_match_linux() {
    assert!(!matches("cfg(windows)"));
}

#[test]
fn cfg_unix_matches_linux() {
    assert!(matches("cfg(unix)"));
}

#[test]
fn cfg_all_matches() {
    assert!(matches("cfg(all(target_os = \"linux\", target_arch = \"x86_64\"))"));
}

#[test]
fn cfg_all_partial_mismatch() {
    assert!(!matches("cfg(all(target_os = \"linux\", target_arch = \"aarch64\"))"));
}

#[test]
fn cfg_any_matches() {
    assert!(matches("cfg(any(target_os = \"windows\", target_os = \"linux\"))"));
}

#[test]
fn cfg_not_matches() {
    assert!(matches("cfg(not(windows))"));
}

#[test]
fn cfg_not_does_not_match() {
    assert!(!matches("cfg(not(unix))"));
}

#[test]
fn bare_target_triple_matches() {
    assert!(matches("x86_64-unknown-linux-gnu"));
}

#[test]
fn bare_target_triple_does_not_match() {
    assert!(!matches("aarch64-linux-android"));
}

#[test]
fn cfg_target_env_gnu() {
    assert!(matches("cfg(target_env = \"gnu\")"));
}

#[test]
fn cfg_target_pointer_width() {
    assert!(matches("cfg(target_pointer_width = \"64\")"));
}

#[test]
fn cfg_target_endian() {
    assert!(matches("cfg(target_endian = \"little\")"));
}

#[test]
fn cfg_target_vendor() {
    assert!(matches("cfg(target_vendor = \"unknown\")"));
}

#[test]
fn cfg_family_is_a_key_too() {
    assert!(matches("cfg(target_family = \"unix\")"));
    assert!(!matches("cfg(target_family = \"windows\")"));
}

#[test]
fn cfg_empty_connectives() {
    assert!(matches("cfg(all())"));
    assert!(!matches("cfg(any())"));
}

#[test]
fn a_spec_that_is_none_is_no_spec() {
    assert!(TargetSpec::parse("cfg(all(").is_none());
    assert!(TargetSpec::parse("not a triple!").is_none());
}

#[test]
fn a_dependency_without_a_spec_always_applies() {
    let t = linux_x86_64();
    assert!(applies(&None, &t));
    assert!(applies(&Some("cfg(unix)".to_string()), &t));
    assert!(!applies(&Some("cfg(windows)".to_string()), &t));
}

#[test]
fn a_target_has_the_cfgs_of_its_parts() {
    let mut t = linux_x86_64();
    let n = target_cfgs(&t).len();
    t.windows = true;
    assert_eq!(target_cfgs(&t).len(), n + 1);
    t.family.push("wasm".to_string());
    assert_eq!(target_cfgs(&t).len(), n + 2);
}
