use cargo_nix_plugin::crate_info::{
    build, configure, fixup_deps, fixup_extern_paths, is_proc_macro_dep, lib_name_files, marker_files,
};
use cargo_nix_plugin::disk::{Disk, FileContent};

fn disk(files: &[(&str, &str)]) -> Disk {
    let mut d = Disk::new();
    for (path, text) in files {
        d.files.push((path.to_string(), FileContent::Text(text.to_string())));
    }
    d
}

#[test]
fn fixup_extern_rewrites_lib_name_and_path() {
    let d = disk(&[
        ("/t/lib/lib-name", "utf8\n"),
        ("/t/lib/libutf_8-abc123.rlib", ""),
        ("/t/plain/lib/libbytes-def456.rlib", ""),
    ]);
    let opts = format!(
        "--extern utf_8={} --extern bytes={} --edition 2021",
        "/t/lib/libutf_8-abc123.rlib", "/t/plain/lib/libbytes-def456.rlib"
    );
    let mut changed = false;
    let out = fixup_extern_paths(&opts, ".so", &mut changed, &d);
    assert!(changed);
    assert!(
        out.contains(&format!("utf8={}/libutf8-abc123.rlib", "/t/lib")),
        "expected utf8=.../libutf8-abc123.rlib in: {out}"
    );
    assert!(
        out.contains(&format!("bytes={}", "/t/plain/lib/libbytes-def456.rlib")),
        "unmarked crate stays verbatim: {out}"
    );
    assert!(out.contains("--edition 2021"), "non-extern tokens preserved");
    assert!(!out.contains("utf_8"), "old name gone: {out}");
}

#[test]
fn fixup_extern_composes_lib_name_with_proc_macro() {
    let d = disk(&[
        ("/t/lib/lib-name", "realderive"),
        ("/t/lib/proc-macro.marker", ""),
        ("/t/lib/libmy_derive-abc.rlib", ""),
    ]);
    let mut changed = false;
    let out = fixup_extern_paths(
        &format!("--extern my_derive={}", "/t/lib/libmy_derive-abc.rlib"),
        ".so",
        &mut changed,
        &d,
    );
    assert!(changed);
    assert!(out.contains(&format!("realderive={}/librealderive-abc.so", "/t/lib")), "got: {out}");
}

#[test]
fn fixup_extern_changed_flag_is_per_token() {
    let d = disk(&[("/t/marked/lib/lib-name", "real")]);
    let opts = format!(
        "--extern wrong={}/libwrong-xxx.rlib --extern plain={}/libplain-yyy.rlib",
        "/t/marked/lib", "/t/plain/lib"
    );
    let mut changed = false;
    let out = fixup_extern_paths(&opts, ".so", &mut changed, &d);
    assert!(changed);
    assert!(out.contains(&format!("plain={}/libplain-yyy.rlib", "/t/plain/lib")));
}

#[test]
fn names_of_the_standard_library_stay() {
    let d = disk(&[("/t/lib/lib-name", "other"), ("/t/lib/proc-macro.marker", "")]);
    let mut changed = false;
    let opts = "--extern noprelude:core=/t/lib/libcore-x.rlib";
    assert_eq!(fixup_extern_paths(opts, ".so", &mut changed, &d), opts);
    assert!(!changed);
}

#[test]
fn a_file_without_a_hash_keeps_its_whole_name() {
    let d = disk(&[("/t/lib/lib-name", " real ")]);
    let mut changed = false;
    let out = fixup_extern_paths("a=/t/lib/odd", ".so", &mut changed, &d);
    assert_eq!(out, "real=/t/lib/librealodd");
}

#[test]
fn an_empty_lib_name_is_none() {
    let d = disk(&[("/t/lib/lib-name", " \n")]);
    assert!(fixup_deps("a=/t/lib/liba-1.rlib", ".so", &d).is_none());
}

#[test]
fn proc_macros_are_marked_beside_their_artifact() {
    let d = disk(&[("/t/lib/proc-macro.marker", "")]);
    assert!(is_proc_macro_dep("/t/lib/liba-1.rlib", &d));
    assert!(!is_proc_macro_dep("/u/lib/liba-1.rlib", &d));
    assert!(!is_proc_macro_dep("", &d));
    assert_eq!(
        fixup_deps("--extern a=/t/lib/liba-1.rlib", ".dylib", &d).unwrap(),
        "BUILD_DEPS='--extern a=/t/lib/liba-1.dylib'"
    );
}

#[test]
fn configure_says_what_the_manifest_says() {
    let manifest = r#"
[package]
name = "x"
edition = "2021"
links = "x_sys"
description = "it's x"
rust-version = "1.70"
authors = ["A <a@x>", "B"]
[lib]
path = "lib.rs"
name = "ex"
crate-type = ["cdylib", "rlib"]
"#;
    let d = disk(&[("/c/Cargo.toml", manifest), ("/c/build.rs", "")]);
    assert_eq!(
        configure("/c/Cargo.toml", &d),
        vec![
            "CRATE_EDITION='2021'",
            "CRATE_LINKS='x_sys'",
            "CRATE_BUILD='build.rs'",
            "CRATE_PKG_DESCRIPTION='it'\\''s x'",
            "CRATE_PKG_RUST_VERSION='1.70'",
            "CRATE_PKG_AUTHORS='A <a@x>:B'",
            "CRATE_LIB_PATH='lib.rs'",
            "CRATE_LIB_NAME='ex'",
            "CRATE_LIB_TYPES='cdylib rlib'",
        ]
    );
}

#[test]
fn the_build_script_has_three_states() {
    let none = disk(&[("Cargo.toml", "[package]\nbuild = false\n"), ("build.rs", "")]);
    assert!(configure("Cargo.toml", &none).is_empty());
    let named = disk(&[("Cargo.toml", "[package]\nbuild = \"b/main.rs\"\n")]);
    assert_eq!(configure("Cargo.toml", &named), vec!["CRATE_BUILD='b/main.rs'"]);
    let absent = disk(&[("Cargo.toml", "[package]\n")]);
    assert!(configure("Cargo.toml", &absent).is_empty());
}

#[test]
fn without_a_manifest_nothing_is_said() {
    assert!(configure("Cargo.toml", &Disk::new()).is_empty());
    assert!(configure("Cargo.toml", &disk(&[("Cargo.toml", "[[[")])).is_empty());
    assert!(build("Cargo.toml", "-O", "-g", ".so", &Disk::new()).is_empty());
}

#[test]
fn build_adds_the_edition_and_the_kinds_of_library() {
    let d = disk(&[(
        "Cargo.toml",
        "[package]\nedition = \"2018\"\n[lib]\ncrate-type = [\"cdylib\", \"rlib\"]\npath = \"l.rs\"\n",
    )]);
    assert_eq!(
        build("Cargo.toml", "--crate-type lib -O", "-g", ".so", &d),
        vec![
            "LIB_PATH='l.rs'",
            "LIB_RUSTC_OPTS='--crate-type cdylib --crate-type rlib -O --edition 2018'",
            "BIN_RUSTC_OPTS='-g --edition 2018'",
        ]
    );
    assert_eq!(build("Cargo.toml", "--edition 2021", "", ".so", &d), vec!["LIB_PATH='l.rs'"]);
}

#[test]
fn build_knows_a_proc_macro() {
    let d = disk(&[("Cargo.toml", "[lib]\nproc-macro = true\nname = \"m\"\n")]);
    assert_eq!(
        build("Cargo.toml", "--crate-type lib --extern proc_macro2=x", "", ".so", &d),
        vec![
            "CRATE_IS_PROC_MACRO=1",
            "CRATE_NAME='m'",
            "LIB_RUSTC_OPTS='--crate-type proc-macro --extern proc_macro2=x --extern proc_macro'",
        ]
    );
}

#[test]
fn the_files_beside_artifacts_are_listed() {
    let opts = "--extern a=/t/a/liba-1.rlib --extern noprelude:std=/s/libstd.rlib --extern b=libb-2.rlib plain x=";
    assert_eq!(lib_name_files(opts), vec!["/t/a/lib-name", "lib-name"]);
    assert_eq!(marker_files(opts, &disk(&[])), vec!["/t/a/proc-macro.marker", "proc-macro.marker"]);
    let named = disk(&[("lib-name", "bee\n"), ("/t/a/lib-name", "sub/aye")]);
    assert_eq!(marker_files(opts, &named), vec!["/t/a/libsub/proc-macro.marker", "./proc-macro.marker"]);
}

#[test]
fn the_listed_files_are_enough() {
    let opts = "--extern b=libb-2.rlib";
    let all = disk(&[("lib-name", "bee\n"), ("./proc-macro.marker", ""), ("unrelated", "x")]);
    let mut listed = Disk::new();
    for path in lib_name_files(opts) {
        if let Ok(s) = all.read(&path) {
            listed.files.push((path, FileContent::Text(s)));
        }
    }
    for path in marker_files(opts, &listed) {
        if let Ok(s) = all.read(&path) {
            listed.files.push((path, FileContent::Text(s)));
        }
    }
    assert_eq!(listed.files.len(), 2);
    let fixed = fixup_deps(opts, ".so", &all);
    assert_eq!(fixed.as_deref(), Some("BUILD_DEPS='--extern bee=./libbee-2.so'"));
    assert_eq!(fixup_deps(opts, ".so", &listed), fixed);
}
