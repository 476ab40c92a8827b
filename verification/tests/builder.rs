use cargo_nix_plugin::build_rust_crate::build_phase::{
    build_bin, inferred_bins, lib_extern_args, lib_jobs, link_appends, link_line, metadata_job, program_jobs, renamed,
    resolve_bins, resolve_lib_path, resolve_tests, search_bin_path, BinKind, TargetEntry,
};
use cargo_nix_plugin::build_rust_crate::build_script::{
    build_script, dep_links_env, flags_text, legacy_dep_env, links_vars_in, links_vars_text,
    parse_build_script_output, parse_links_metadata, plan_link_flags, BuildScriptOutputs, DepFiles,
};
use cargo_nix_plugin::build_rust_crate::config::{
    default_cap_lints, default_codegen_units, default_true, exported_attrs, exported_in, list_text_attrs, BuildConfig,
    CrateBin, CrateMetadata, DepExtern, PlatformInfo,
};
use cargo_nix_plugin::build_rust_crate::configure::{
    build_env, build_file_in, cargo_variables, detect_cargo_toml_info, feature_variables, find_matching_cargo_toml, parse_version,
    root_step, target_cfg_env, RootStep,
};
use cargo_nix_plugin::build_rust_crate::install::{
    crate_metadata, install_plan, is_test_binary, tests_dir, unhashed_links, Built,
};
use cargo_nix_plugin::build_rust_crate::nextest::binaries_metadata;
use cargo_nix_plugin::build_rust_crate::prepare::{after_script, prepare, script_job, script_run_env};
use cargo_nix_plugin::build_rust_crate::rustc::{base_rustc_flags, dep_extern_args, find_by_metadata, RustcFlags};
use cargo_nix_plugin::disk::{Disk, FileContent};
use cargo_nix_plugin::json_tree::Json;
use cargo_nix_plugin::shell::{quote, unquote};
use cargo_nix_plugin::sorted::StrMap;

fn strings(v: &[&str]) -> Vec<String> {
    v.iter().map(|s| s.to_string()).collect()
}

fn disk(files: &[(&str, &str)]) -> Disk {
    let mut d = Disk::new();
    for (path, text) in files {
        d.files.push((path.to_string(), FileContent::Text(text.to_string())));
    }
    d
}

fn platform(spec: &str, linker: Option<&str>) -> PlatformInfo {
    PlatformInfo {
        rustc_target_spec: spec.to_string(),
        lib_ext: ".so".to_string(),
        linker_path: linker.map(|s| s.to_string()),
    }
}

fn config() -> BuildConfig {
    BuildConfig {
        crate_name: "my-crate".to_string(),
        crate_version: "1.2.3".to_string(),
        lib_name: "my-crate".to_string(),
        lib_path: String::new(),
        build: String::new(),
        workspace_member: None,
        crate_bin: vec![],
        has_crate_bin: false,
        crate_type: strings(&["lib"]),
        crate_features: strings(&["std", "a-b"]),
        release: true,
        verbose: true,
        build_tests: false,
        codegen_units: 4,
        extra_link_flags: vec![],
        extra_rustc_opts: vec![],
        extra_rustc_opts_for_build_rs: vec![],
        cap_lints: "allow".to_string(),
        colors: "always".to_string(),
        autolib: true,
        autobins: true,
        autotests: true,
        rustc_path: String::new(),
        complete_deps: vec![],
        complete_build_deps: vec![],
        metadata: "abc".to_string(),
        dep_externs: vec![],
        build_dep_externs: vec![],
        host_platform: platform("x86_64-unknown-linux-gnu", None),
        build_platform: platform("x86_64-unknown-linux-gnu", None),
        outputs: StrMap::from_list(vec![("out".to_string(), "/out".to_string())]),
        crate_authors: vec![],
        crate_description: String::new(),
        crate_homepage: String::new(),
        crate_license: String::new(),
        crate_license_file: String::new(),
        crate_links: String::new(),
        crate_readme: String::new(),
        crate_repository: String::new(),
        crate_rust_version: String::new(),
    }
}

fn meta(lib_name: &str, artifacts: &[&str]) -> CrateMetadata {
    CrateMetadata {
        lib_name: lib_name.to_string(),
        metadata: "m".to_string(),
        crate_types: strings(&["lib"]),
        proc_macro: false,
        artifacts: strings(artifacts),
        links: String::new(),
        links_vars: StrMap::new(),
    }
}

fn dep_extern(name: &str, is_rename: bool, stdlib: bool) -> DepExtern {
    DepExtern {
        extern_name: name.to_string(),
        metadata: "m".to_string(),
        is_rename,
        lib_out: "/dep".to_string(),
        stdlib,
    }
}

#[test]
fn version_components_strip_build_metadata() {
    let t = |a: &str, b: &str, c: &str, d: &str| (a.to_string(), b.to_string(), c.to_string(), d.to_string());
    assert_eq!(parse_version("1.2.3"), t("1", "2", "3", ""));
    assert_eq!(parse_version("1.2.3-alpha.1+git.abc"), t("1", "2", "3", "alpha.1"));
    assert_eq!(parse_version("0.39.1+e3ba2a3"), t("0", "39", "1", ""));
}

#[test]
fn version_components_default_to_zero() {
    let t = |a: &str, b: &str, c: &str, d: &str| (a.to_string(), b.to_string(), c.to_string(), d.to_string());
    assert_eq!(parse_version("7"), t("7", "0", "0", ""));
    assert_eq!(parse_version("1.2.3.4"), t("1", "2", "3.4", ""));
}

#[test]
fn build_script_output_preserves_flag_order_and_handles_check_cfg() {
    let stdout = "\
cargo:rustc-flags=-l foo\n\
cargo:rustc-flags=-L /a\n\
cargo:rustc-flags=-l bar\n\
cargo::rustc-check-cfg=cfg(has_foo)\n\
cargo:rustc-link-search=native=/out\n\
cargo:rustc-link-search=native=/out\n\
cargo:warning=heads up\n";
    let run = parse_build_script_output(stdout, "/out", "/cwd");
    let bso = run.outputs;
    assert_eq!(bso.rustc_flags, "-l foo -L /a -l bar");
    assert_eq!(bso.check_cfgs, vec!["cfg(has_foo)"]);
    assert_eq!(bso.link_search, vec!["native=/out"]);
    assert_eq!(run.warnings, vec!["heads up"]);
    assert!(run.error.is_none());
}

#[test]
fn build_script_directives() {
    let stdout = "\
noise\n\
  cargo:rustc-cfg=has_x  \n\
cargo:rustc-link-arg=-Wl,x\n\
cargo::rustc-link-arg-lib=-Wl,l\n\
cargo::rustc-link-arg-bins=-Wl,b\n\
cargo::rustc-link-arg-bin=tool=-Wl,t=1\n\
cargo:rustc-link-arg-bin=other=-Wl,o\n\
cargo:rustc-link-arg-bin=tool=-Wl,u\n\
cargo:rustc-link-arg-bin=tool\n\
cargo:rustc-link-arg-tests=-Wl,s\n\
cargo:rustc-link-lib=static=z\n\
cargo:rustc-link-search=native=sub\n\
cargo:rustc-link-search=plain\n\
cargo:rustc-cdylib-link-arg=-Wl,c\n\
cargo::rustc-link-arg-cdylib=-Wl,d\n\
cargo:rustc-env=K=V=W\n\
cargo:rustc-env=novalue\n\
cargo:error=just metadata\n";
    let run = parse_build_script_output(stdout, "/o", "/cwd");
    let b = run.outputs;
    assert!(run.error.is_none());
    assert_eq!(b.cfgs, vec!["has_x"]);
    assert_eq!(b.link_args, vec!["-C", "link-arg=-Wl,x"]);
    assert_eq!(b.link_args_lib, vec!["-C", "link-arg=-Wl,l"]);
    assert_eq!(b.link_args_bins, vec!["-C", "link-arg=-Wl,b"]);
    assert_eq!(b.link_args_bin.get("tool").unwrap(), &strings(&["-C", "link-arg=-Wl,t=1", "-C", "link-arg=-Wl,u"]));
    assert_eq!(b.link_args_bin.get("other").unwrap(), &strings(&["-C", "link-arg=-Wl,o"]));
    assert_eq!(b.link_args_bin.len(), 2);
    assert_eq!(b.link_args_tests, vec!["-C", "link-arg=-Wl,s"]);
    assert_eq!(b.link_libs, vec!["static=z"]);
    assert_eq!(b.link_search, vec!["native=/cwd/sub", "/cwd/plain"]);
    assert_eq!(b.cdylib_link_args, vec!["-C", "link-arg=-Wl,c", "-C", "link-arg=-Wl,d"]);
    assert_eq!(b.envs.get("K").unwrap(), "V=W");
    assert_eq!(b.envs.len(), 1);
    assert_eq!(b.build_out_dir, "/o");
}

#[test]
fn an_error_ends_the_reading() {
    let run = parse_build_script_output("cargo::error=no luck\ncargo:rustc-cfg=late\n", "/o", "/cwd");
    assert_eq!(run.error.as_deref(), Some("no luck"));
    assert!(run.outputs.cfgs.is_empty());
}

#[test]
fn links_metadata_is_what_is_no_directive() {
    let vars = parse_links_metadata(
        "cargo:root=/r\ncargo::metadata=inc=/i=x\ncargo:rustc-cfg=x\ncargo:warning=w\ncargo:rerun-if-changed=f\ncargo::other=y\ncargo:bare\n",
    );
    assert_eq!(vars.len(), 2);
    assert_eq!(vars.get("root").unwrap(), "/r");
    assert_eq!(vars.get("inc").unwrap(), "/i=x");
}

#[test]
fn quoting_reads_back() {
    for v in ["", "plain", "it's", "''", "a\\'b", "'\\''"] {
        assert_eq!(unquote(&quote(v)), v);
    }
    assert_eq!(quote("it's"), "'it'\\''s'");
    assert_eq!(unquote("\"dq\""), "dq");
    assert_eq!(unquote("'"), "'");
}

#[test]
fn dependents_find_what_was_passed_on() {
    let mut m = meta("z", &[]);
    m.links = "z-sys".to_string();
    m.links_vars = StrMap::from_list(vec![("root".to_string(), "/a".to_string()), ("in-c".to_string(), "/i".to_string())]);
    let text = legacy_dep_env(&m.links, &m.links_vars);
    assert_eq!(text, "export DEP_Z_SYS_IN_C='/i'\nexport DEP_Z_SYS_ROOT='/a'");
    let with_env = DepFiles {
        metadata: Some(m.clone()),
        link: None,
        env: Some("export DEP_Z_SYS_ROOT='/fixed'\nnot exported\n".to_string()),
    };
    let env = dep_links_env(&vec![with_env], &vec![]);
    assert_eq!(env.get("DEP_Z_SYS_ROOT").unwrap(), "/fixed");
    assert_eq!(env.get("DEP_Z_SYS_IN_C").unwrap(), "/i");
    m.links = String::new();
    let silent = DepFiles { metadata: Some(m), link: None, env: Some("export X=1".to_string()) };
    assert!(dep_links_env(&vec![silent], &vec![]).is_empty());
}

#[test]
fn link_flags_keep_their_lines_and_order() {
    let dep = |s: &str| DepFiles { metadata: None, link: Some(s.to_string()), env: None };
    let plan = plan_link_flags(
        &strings(&["-L", "/z/lib"]),
        &vec![dep("-L /a\n\n-l x\n"), dep("-l x\n-L /z/lib\n"), DepFiles { metadata: None, link: None, env: None }],
        &vec![dep("-l b\n")],
    );
    assert_eq!(plan.link, vec!["-L /z/lib", "-L /a", "-l x"]);
    assert_eq!(plan.link_final, plan.link);
    assert_eq!(plan.build_link, vec!["-l b"]);
    assert_eq!(flags_text(&plan.link), "-L /z/lib\n-L /a\n-l x\n");
    assert_eq!(flags_text(&vec![]), "");
}

#[test]
fn configure_phase_lays_out_its_files() {
    let mut c = config();
    c.complete_deps = strings(&["/d1"]);
    c.complete_build_deps = strings(&["/b1"]);
    let p = prepare(
        &c,
        &vec![DepFiles { metadata: Some(meta("d", &["libd-1.rlib"])), link: Some("-l d\n".to_string()), env: None }],
        &vec![DepFiles { metadata: None, link: None, env: None }],
    );
    assert_eq!(p.dirs, vec!["target/deps", "target/lib", "target/build", "target/buildDeps"]);
    assert_eq!(p.symlinks, vec![("/d1/lib/libd-1.rlib".to_string(), "target/deps/libd-1.rlib".to_string())]);
    let names: Vec<&str> = p.files.iter().map(|f| f.0.as_str()).collect();
    assert_eq!(names, vec!["target/link", "target/link.final", "target/link_"]);
    assert_eq!(p.files[0].1, "-l d\n");
    assert_eq!(p.files[2].1, "-l d");
}

#[test]
fn build_scripts_are_chosen() {
    let mut c = config();
    assert_eq!(build_script(&c, true).as_deref(), Some("build.rs"));
    assert_eq!(build_script(&c, false), None);
    c.build = "false".to_string();
    assert_eq!(build_script(&c, true), None);
    c.build = "b/main.rs".to_string();
    assert_eq!(build_script(&c, false).as_deref(), Some("b/main.rs"));
}

#[test]
fn build_scripts_are_compiled_and_run() {
    let mut c = config();
    c.build_dep_externs = vec![dep_extern("cc", false, false)];
    let job = script_job(&c, true, &vec![meta("cc", &["libcc-1.rlib"])], &Some("-L /q\n".to_string())).unwrap();
    assert_eq!(job.message, "Building build.rs (my-crate)");
    assert_eq!(job.build_dir, "target/build/my-crate");
    assert_eq!(job.out_dir, "target/build/my-crate.out");
    assert_eq!(job.program, "target/build/my-crate/build_script_build");
    assert_eq!(
        job.args,
        strings(&[
            "--crate-name", "build_script_build", "build.rs", "--crate-type", "bin", "--out-dir",
            "target/build/my-crate", "--emit=dep-info,link", "-L", "dependency=target/buildDeps", "--cap-lints", "allow",
            "-C", "opt-level=3", "-C", "codegen-units=4", "--cfg", "feature=\"std\"", "--cfg", "feature=\"a-b\"",
            "--extern", "cc=target/buildDeps/libcc-1.rlib", "-L", "/q", "--color", "always",
        ])
    );
    c.build = "false".to_string();
    assert!(script_job(&c, true, &vec![meta("cc", &[])], &None).is_none());

    let env = script_run_env(&c, &StrMap::from_list(vec![("K".to_string(), "v".to_string())]), &vec![], &vec![]);
    assert_eq!(env.get("RUST_BACKTRACE").unwrap(), "1");
    assert_eq!(env.get("K").unwrap(), "v");
    assert_eq!(env.get("CARGO_FEATURE_A_B").unwrap(), "1");
}

#[test]
fn what_a_script_passes_on_is_kept_only_with_links() {
    let mut c = config();
    assert!(after_script(&c, "cargo:root=/r\n", "/o", "/cwd").links.is_none());
    c.crate_links = "z".to_string();
    let (vars, text) = after_script(&c, "cargo:root=/r\n", "/o", "/cwd").links.unwrap();
    assert_eq!(vars.get("root").unwrap(), "/r");
    assert_eq!(text, "export DEP_Z_ROOT='/r'");
    assert!(after_script(&c, "nothing\n", "/o", "/cwd").links.is_none());
    assert!(after_script(&c, "cargo:root=/r\ncargo::error=x\n", "/o", "/cwd").links.is_none());
}

#[test]
fn the_environment_of_a_build_script() {
    let mut c = config();
    c.crate_authors = strings(&["a", "b"]);
    c.crate_links = "z".to_string();
    let cfg = "debug_assertions\npanic=\"unwind\"\ntarget_feature=\"fxsr\"\ntarget_feature=\"sse\"\nproc_macro\nunix\n";
    let env = build_env(&c, "/o", "/cwd", &Some("8".to_string()), cfg);
    for (k, v) in [
        ("CARGO_PKG_NAME", "my-crate"),
        ("CARGO_PKG_VERSION_MINOR", "2"),
        ("CARGO_PKG_AUTHORS", "a:b"),
        ("CARGO_MANIFEST_DIR", "/cwd"),
        ("CARGO_MANIFEST_PATH", "/cwd/Cargo.toml"),
        ("CARGO_MANIFEST_LINKS", "z"),
        ("CARGO_CRATE_NAME", "my_crate"),
        ("CARGO_CFG_FEATURE", "std,a-b"),
        ("CARGO_CFG_TARGET_FEATURE", "fxsr,sse"),
        ("CARGO_CFG_UNIX", ""),
        ("NUM_JOBS", "8"),
        ("OPT_LEVEL", "3"),
        ("DEBUG", "false"),
        ("PROFILE", "release"),
        ("OUT_DIR", "/o"),
        ("CARGO_ENCODED_RUSTFLAGS", ""),
    ] {
        assert_eq!(env.get(k).map(|s| s.as_str()), Some(v), "{k}");
    }
    assert!(!env.contains_key("CARGO_CFG_DEBUG_ASSERTIONS"));
    assert!(!env.contains_key("CARGO_CFG_PROC_MACRO"));
    c.release = false;
    let env = build_env(&c, "", "/cwd", &None, cfg);
    assert!(env.contains_key("CARGO_CFG_DEBUG_ASSERTIONS"));
    assert_eq!(env.get("NUM_JOBS").unwrap(), "1");
    assert!(cargo_variables(&env).iter().all(|(k, _)| k.starts_with("CARGO_")));
    assert_eq!(target_cfg_env("a-b.c=\"x\"\n").get("CARGO_CFG_A_B_C").unwrap(), "x");
    assert_eq!(feature_variables(&strings(&["x-y"])), vec!["CARGO_FEATURE_X_Y"]);
}

#[test]
fn manifests_fill_what_is_not_set() {
    let manifest = r#"
[package]
name = "my-crate"
edition = "2018"
description = "d"
license = "MIT"
authors = ["me"]
build = "b.rs"
links = "z"
[lib]
path = "lib.rs"
name = "other"
crate-type = ["cdylib"]
[[bin]]
name = "tool"
path = "t.rs"
required-features = ["x"]
"#;
    let d = disk(&[("Cargo.toml", manifest), ("b.rs", "")]);
    let mut c = config();
    c.crate_license = "Apache-2.0".to_string();
    detect_cargo_toml_info(&mut c, &d);
    assert_eq!(c.extra_rustc_opts, vec!["--edition", "2018"]);
    assert_eq!(c.extra_rustc_opts_for_build_rs, vec!["--edition", "2018"]);
    assert_eq!(c.crate_description, "d");
    assert_eq!(c.crate_license, "Apache-2.0");
    assert_eq!(c.crate_authors, vec!["me"]);
    assert_eq!(c.build, "b.rs");
    assert_eq!(c.crate_links, "z");
    assert_eq!(c.lib_path, "lib.rs");
    assert_eq!(c.lib_name, "other");
    assert_eq!(c.crate_type, vec!["cdylib", "rlib"]);
    assert_eq!(c.crate_bin.len(), 1);
    assert_eq!(c.crate_bin[0].required_features, vec!["x"]);
    assert!(c.has_crate_bin);
    let once = format!("{c:?}");
    detect_cargo_toml_info(&mut c, &d);
    assert_eq!(format!("{c:?}"), once, "there is nothing to add a second time");

    let mut macro_crate = config();
    macro_crate.has_crate_bin = true;
    detect_cargo_toml_info(&mut macro_crate, &disk(&[("Cargo.toml", "[lib]\nproc_macro = true\n[[bin]]\nname = \"n\"\n")]));
    assert_eq!(macro_crate.crate_type, vec!["proc-macro"]);
    assert_eq!(macro_crate.lib_name, "my_crate");
    assert!(macro_crate.crate_bin.is_empty());
}

#[test]
fn the_crate_is_found_by_its_manifest() {
    let mut c = config();
    assert_eq!(root_step(&c), RootStep::Search);
    c.workspace_member = Some(".".to_string());
    assert_eq!(root_step(&c), RootStep::Stay);
    c.workspace_member = Some("sub".to_string());
    assert_eq!(root_step(&c), RootStep::Enter("sub".to_string()));

    let d = disk(&[
        ("./Cargo.toml", "[workspace.package]\nname = \"shared\"\n"),
        ("./a/Cargo.toml", "[package]\nname = \"a\"\n"),
        ("./b/Cargo.toml", "[package]\nname = { workspace = true }\n"),
        ("./a/x.toml", ""),
    ]);
    let files = strings(&["./a/x.toml", "./Cargo.toml", "./a/Cargo.toml", "./b/Cargo.toml"]);
    assert_eq!(find_matching_cargo_toml("a", &files, &d).unwrap(), "./a");
    assert_eq!(find_matching_cargo_toml("shared", &files, &d).unwrap(), "./b");
    assert_eq!(
        find_matching_cargo_toml("none", &files, &d).unwrap_err(),
        "No matching Cargo.toml found for none"
    );
}

#[test]
fn artifacts_are_found_by_their_hash() {
    let names = strings(&["libx-abc.so", "libx-abc.d", "liby-def.rlib", "libx-abc.dylib"]);
    assert_eq!(find_by_metadata("target/lib", &names, "abc").as_deref(), Some("target/lib/libx-abc.dylib"));
    assert_eq!(find_by_metadata("target/lib", &names, "def").as_deref(), Some("target/lib/liby-def.rlib"));
    assert_eq!(find_by_metadata("target/lib", &names, "none"), None);
}

#[test]
fn dependencies_are_linked_by_their_true_name() {
    let deps = vec![
        dep_extern("alias", true, false),
        dep_extern("guess", false, false),
        dep_extern("core", false, true),
        dep_extern("binonly", false, false),
    ];
    let metas = vec![
        meta("one", &["libone-m.so", "libone-m.rlib"]),
        meta("two", &["libtwo-m.so"]),
        meta("core", &["libcore-m.rlib"]),
        meta("b", &[]),
    ];
    assert_eq!(
        dep_extern_args(&deps, &metas, "target/deps"),
        strings(&[
            "-Z", "unstable-options", "--extern", "alias=target/deps/libone-m.rlib", "--extern",
            "two=target/deps/libtwo-m.so", "--extern", "noprelude:core=target/deps/libcore-m.rlib",
        ])
    );
    assert!(dep_extern_args(&vec![], &vec![], "d").is_empty());
}

#[test]
fn base_flags() {
    let mut c = config();
    c.release = false;
    c.rustc_path = "/rustc-store".to_string();
    c.extra_rustc_opts = strings(&["-Zx"]);
    c.host_platform = platform("wasm32-unknown-unknown", Some("/bin/ld"));
    assert_eq!(
        base_rustc_flags(&c, &Some("/build".to_string()), &Some(" -Cy  -Cz ".to_string())),
        strings(&[
            "-C", "debuginfo=2", "-C", "codegen-units=4", "--remap-path-prefix=/build=/",
            "--remap-path-prefix=/rustc-store=/rustc", "--target", "wasm32-unknown-unknown", "-Zx", "-Cy", "-Cz", "-C",
            "linker=/bin/ld",
        ])
    );
    c.host_platform.linker_path = Some(String::new());
    assert!(!base_rustc_flags(&c, &None, &None).contains(&"linker=".to_string()));
}

fn outputs() -> BuildScriptOutputs {
    let mut b = BuildScriptOutputs::none("/o");
    b.rustc_flags = "-l x".to_string();
    b.cfgs = strings(&["has_x"]);
    b.check_cfgs = strings(&["cfg(has_x)"]);
    b.link_args = strings(&["-C", "link-arg=all"]);
    b.link_args_lib = strings(&["-C", "link-arg=lib"]);
    b.link_args_bins = strings(&["-C", "link-arg=bins"]);
    b.link_args_tests = strings(&["-C", "link-arg=tests"]);
    b.link_args_bin = StrMap::from_list(vec![("tool".to_string(), strings(&["-C", "link-arg=tool"]))]);
    b.cdylib_link_args = strings(&["-C", "link-arg=cdylib"]);
    b
}

fn flags(c: &BuildConfig) -> RustcFlags {
    RustcFlags::new(c, &outputs(), &vec![], &None, &None, &Some("-L /a\n-l b".to_string()))
}

#[test]
fn flags_of_a_crate() {
    let mut c = config();
    c.crate_type = strings(&["proc-macro"]);
    let f = flags(&c);
    assert!(f.base.ends_with(&strings(&["--extern", "proc_macro"])));
    assert_eq!(f.meta, vec!["-C", "metadata=abc", "-C", "extra-filename=-abc"]);
    assert_eq!(f.link, strings(&["-L", "/a", "-l", "b", "-l", "x", "--cfg", "has_x", "--check-cfg", "cfg(has_x)"]));
    assert_eq!(f.out_dir, vec!["-L", "/o"]);
    assert_eq!(f.bso_lib, vec!["-C", "link-arg=all", "-C", "link-arg=lib"]);
}

#[test]
fn link_arguments_go_where_they_are_meant_to() {
    let c = config();
    let f = flags(&c);
    let none = vec![];
    let has = |args: &Vec<String>, s: &str| args.iter().any(|a| a == s);
    let tool = build_bin(&f, &none, "tool", "t.rs", BinKind::Bin, false, true).call.args;
    let other = build_bin(&f, &none, "other", "o.rs", BinKind::Bin, false, true).call.args;
    let test = build_bin(&f, &none, "it", "i.rs", BinKind::Test, true, true).call.args;
    let lib = lib_jobs(&c, &f, "src/lib.rs").remove(0).call.args;
    for args in [&tool, &other, &test, &lib] {
        assert!(has(args, "link-arg=all"));
    }
    assert!(has(&tool, "link-arg=bins") && has(&tool, "link-arg=tool") && !has(&tool, "link-arg=tests"));
    assert!(has(&other, "link-arg=bins") && !has(&other, "link-arg=tool"));
    assert!(has(&test, "link-arg=tests") && !has(&test, "link-arg=bins"));
    assert!(has(&lib, "link-arg=lib") && !has(&lib, "link-arg=bins") && !has(&lib, "link-arg=cdylib"));
    let mut dynamic = config();
    dynamic.crate_type = strings(&["cdylib"]);
    assert!(has(&lib_jobs(&dynamic, &f, "src/lib.rs").remove(0).call.args, "link-arg=cdylib"));
}

#[test]
fn calls_of_rustc() {
    let c = config();
    let f = flags(&c);
    let call = f.cmd("x", "s.rs", "o", &strings(&["lib", "cdylib"]), &strings(&["-e"]), true, false);
    assert_eq!(
        call.args[..15],
        strings(&[
            "--crate-name", "x", "s.rs", "--out-dir", "o", "-L", "dependency=target/deps", "--cap-lints", "allow",
            "--crate-type", "lib", "--crate-type", "cdylib", "--cfg", "test",
        ])[..]
    );
    assert!(call.args.ends_with(&strings(&["-L", "/o", "-e", "--color", "always"])));
    assert_eq!(call.envs[0], ("CARGO_CRATE_NAME".to_string(), "x".to_string()));
    assert_eq!(call.envs[1], ("CARGO_PRIMARY_PACKAGE".to_string(), "1".to_string()));
    assert!(f.cmd("x", "s.rs", "o", &vec![], &vec![], true, true).args.contains(&"--test".to_string()));
}

#[test]
fn the_targets_of_a_crate_are_compiled_in_order() {
    let mut c = config();
    c.build_tests = true;
    let f = flags(&c);
    let lib = lib_jobs(&c, &f, "src/lib.rs");
    assert_eq!(lib.len(), 2);
    assert_eq!(lib[0].message, "Building src/lib.rs (my-crate)");
    assert_eq!(lib[1].message, "Building test lib my-crate");
    let own = lib_extern_args(&c, &strings(&["libmy_crate-abc.rlib"]));
    assert_eq!(own, vec!["--extern", "my_crate=target/lib/libmy_crate-abc.rlib"]);
    assert_eq!(lib_extern_args(&c, &vec![])[1], "my_crate=target/lib/libmy_crate-abc.rlib");
    let bins = vec![("my-bin".to_string(), "src/main.rs".to_string())];
    let tests = vec![("it".to_string(), "tests/it.rs".to_string(), true)];
    let jobs = program_jobs(&c, &f, &own, &bins, &tests);
    let messages: Vec<&str> = jobs.iter().map(|j| j.message.as_str()).collect();
    assert_eq!(messages, vec!["Building test my-bin", "Building test it"]);
    assert_eq!(jobs[0].rename, Some(("my_bin".to_string(), "my-bin".to_string())));
    assert_eq!(jobs[1].rename, None);
    c.build_tests = false;
    let jobs = program_jobs(&c, &f, &own, &bins, &tests);
    assert_eq!(jobs.len(), 1);
    assert_eq!(jobs[0].message, "Building my-bin");
    let (call, is_macro) = metadata_job(&c, &f, "src/lib.rs", "rmeta");
    assert_eq!(call.args.last().unwrap(), "--emit=metadata");
    assert!(!is_macro);
}

#[test]
fn programs_get_their_own_name_back() {
    assert_eq!(
        renamed("a_b", "a-b", true, true),
        Some(("target/bin/a_b.wasm".to_string(), "target/bin/a-b.wasm".to_string()))
    );
    assert_eq!(
        renamed("a_b", "a-b", false, true),
        Some(("target/bin/a_b".to_string(), "target/bin/a-b".to_string()))
    );
    assert_eq!(renamed("a_b", "a-b", false, false), None);
}

#[test]
fn link_flags_of_the_build_script_are_kept() {
    let mut b = BuildScriptOutputs::none("");
    assert!(link_appends(&b, "/cwd", "/lib-out").is_none());
    b.link_search = strings(&["native=/cwd/target/build/x.out/lib", "/usr/lib"]);
    b.link_libs = strings(&["z"]);
    let a = link_appends(&b, "/cwd", "/lib-out").unwrap();
    assert_eq!(a.link, "-L native=/cwd/target/build/x.out/lib\n-L /usr/lib\n-l z\n");
    assert_eq!(a.link_final, "-L native=/lib-out/lib/x.out/lib\n-L /usr/lib\n");
    assert_eq!(link_line("-L a\n-l b\n"), "-L a -l b");
}

#[test]
fn libraries_and_binaries_are_looked_for() {
    let mut c = config();
    let d = disk(&[("src/lib.rs", ""), ("src/main.rs", ""), ("src/bin/my_tool.rs", "")]);
    assert_eq!(resolve_lib_path(&c, &d).as_deref(), Some("src/lib.rs"));
    assert_eq!(search_bin_path("my-tool", "", "x", &d).as_deref(), Some("src/bin/my_tool.rs"));
    assert_eq!(search_bin_path("other", "", "x", &d).as_deref(), Some("src/main.rs"));
    let no_lib = disk(&[("src/tool.rs", "")]);
    assert_eq!(search_bin_path("tool", "", "x", &no_lib).as_deref(), Some("src/tool.rs"));
    assert_eq!(search_bin_path("none", "", "x", &no_lib), None);
    c.autolib = false;
    assert_eq!(resolve_lib_path(&c, &d), None);
    c.lib_path = "src/main.rs".to_string();
    assert_eq!(resolve_lib_path(&c, &d).as_deref(), Some("src/main.rs"));
}

#[test]
fn binaries_are_chosen() {
    let mut c = config();
    let inferred = vec![("my-crate".to_string(), "src/main.rs".to_string())];
    let d = disk(&[("src/main.rs", "")]);
    assert_eq!(resolve_bins(&c, &d, &inferred).bins, inferred);
    c.has_crate_bin = true;
    assert!(resolve_bins(&c, &d, &inferred).bins.is_empty());
    let bin = |name: Option<&str>, path: Option<&str>, features: &[&str]| CrateBin {
        name: name.map(|s| s.to_string()),
        path: path.map(|s| s.to_string()),
        required_features: strings(features),
    };
    c.crate_bin = vec![bin(None, Some("p.rs"), &["std"]), bin(Some("x"), None, &["off"]), bin(Some("y"), None, &[])];
    let r = resolve_bins(&c, &d, &inferred);
    assert_eq!(
        r.bins,
        vec![("my-crate".to_string(), "p.rs".to_string()), ("y".to_string(), "src/main.rs".to_string())]
    );
    assert_eq!(r.left_out, vec![("x".to_string(), strings(&["off"]))]);
    assert!(r.missing.is_none());
    let r = resolve_bins(&c, &Disk::new(), &inferred);
    assert_eq!(r.missing.as_deref(), Some("y"));
}

#[test]
fn targets_are_inferred() {
    let entry = |path: &str, is_file: bool, has_main: bool| TargetEntry { path: path.to_string(), is_file, has_main };
    let entries = vec![
        entry("tests/a.rs", true, false),
        entry("tests/.hidden.rs", true, false),
        entry("tests/notes.txt", true, false),
        entry("tests/multi", false, true),
        entry("tests/fixtures", false, false),
    ];
    let tests = resolve_tests(&config(), &entries);
    assert_eq!(
        tests,
        vec![
            ("a".to_string(), "tests/a.rs".to_string(), true),
            ("multi".to_string(), "tests/multi/main.rs".to_string(), true),
        ]
    );
    let mut c = config();
    c.autotests = false;
    assert!(resolve_tests(&c, &entries).is_empty());
    let bins = inferred_bins("n", true, &vec![entry("src/bin/t.rs", true, false)]);
    assert_eq!(
        bins,
        vec![("n".to_string(), "src/main.rs".to_string()), ("t".to_string(), "src/bin/t.rs".to_string())]
    );
}

#[test]
fn installed_crates_say_what_they_are() {
    let mut c = config();
    c.crate_type = strings(&["proc-macro"]);
    let names = strings(&["libz-abc.so", "libz-abc.d", "libother-def.rlib", "liba-abc.rlib"]);
    let m = crate_metadata(&c, &names, StrMap::new());
    assert_eq!(m.artifacts, vec!["liba-abc.rlib", "libz-abc.so"]);
    assert_eq!(m.lib_name, "my_crate");
    assert!(m.proc_macro);
    assert_eq!(
        unhashed_links(&names, "abc"),
        vec![("libz-abc.so".to_string(), "libz.so".to_string())]
    );
}

#[test]
fn outputs_go_where_they_belong() {
    let mut c = config();
    let all = Built { env: true, link_final: true, lib: true, build: true, bin: true };
    let p = install_plan(&c, &all);
    assert_eq!(p.dirs, vec!["/out", "/out"]);
    assert_eq!(p.metadata_path, "/out/crate-metadata.json");
    assert_eq!(p.lib_tree, Some(("target/lib".to_string(), "/out/lib".to_string())));
    c.outputs.insert("lib".to_string(), "/lib-out".to_string());
    let p = install_plan(&c, &all);
    assert_eq!(
        p.files,
        vec![
            ("target/env".to_string(), "/lib-out/env".to_string()),
            ("target/link.final".to_string(), "/lib-out/lib/link".to_string()),
        ]
    );
    assert_eq!(
        p.trees,
        vec![
            ("target/build".to_string(), "/lib-out/lib".to_string()),
            ("target/bin".to_string(), "/out/bin".to_string()),
        ]
    );
    let none = install_plan(&c, &Built { env: false, link_final: false, lib: false, build: false, bin: false });
    assert!(none.files.is_empty() && none.lib_tree.is_none() && none.trees.is_empty());
    assert_eq!(tests_dir(&c), "/out/tests");
}

#[test]
fn test_programs_are_told_from_libraries() {
    assert!(is_test_binary("target/bin", "x", true, true));
    assert!(is_test_binary("target/bin", "x.so", true, true));
    assert!(is_test_binary("target/lib", "x-abc", true, true));
    assert!(!is_test_binary("target/lib", "libx.so", true, true));
    assert!(!is_test_binary("target/lib", "x-abc", true, false));
    assert!(!is_test_binary("target/bin", "x", false, true));
}

#[test]
fn the_runner_reads_of_programs_that_are_there() {
    let mut c = config();
    c.workspace_member = Some("crates/x".to_string());
    let bins = vec![("tool".to_string(), "t.rs".to_string()), ("gone".to_string(), "g.rs".to_string())];
    let tests = vec![
        ("it".to_string(), "tests/it.rs".to_string(), true),
        ("raw".to_string(), "tests/raw.rs".to_string(), false),
    ];
    let present = strings(&["my_crate-abc", "tool", "it", "raw"]);
    let m = binaries_metadata(&c, "/out/tests", &bins, &tests, &present);
    let ids: Vec<&str> = m.rust_binaries.entries.iter().map(|e| e.0.as_str()).collect();
    assert_eq!(ids, vec!["my-crate", "my-crate::bin/tool", "my-crate::it"]);
    let lib = m.rust_binaries.get("my-crate").unwrap();
    assert_eq!(lib.binary_name, "my_crate");
    assert_eq!(lib.binary_path, "/out/tests/my_crate-abc");
    assert_eq!(lib.kind, "lib");
    assert_eq!(lib.package_id, "path+file:///cargo-nix-plugin-metadata/ws/crates/x#my-crate@1.2.3");
    assert_eq!(m.rust_build_meta.target_directory, "/nonexistent");
    assert_eq!(m.rust_build_meta.target_platforms[0].triple, "x86_64-unknown-linux-gnu");
    c.workspace_member = Some(".".to_string());
    let m = binaries_metadata(&c, "/out/tests", &vec![], &vec![], &present);
    assert_eq!(
        m.rust_binaries.get("my-crate").unwrap().package_id,
        "path+file:///cargo-nix-plugin-metadata/ws#my-crate@1.2.3"
    );
}

#[test]
fn capital_attributes_are_exported() {
    let attrs = vec![
        ("OPENSSL_DIR".to_string(), "/o".to_string()),
        ("X2".to_string(), "y".to_string()),
        ("lower".to_string(), "z".to_string()),
        (String::new(), "e".to_string()),
    ];
    assert_eq!(exported_attrs(&attrs), attrs[..2].to_vec());
}

#[test]
fn only_texts_are_exported() {
    let pair = |k: &str, v: &str| (k.to_string(), v.to_string());
    let text = r#"{"OPENSSL_DIR": "/o", "N": 3, "T": true, "L": ["x"], "O": {"P": "q"}, "Z": null, "lower": "z",
        "E": "", "Q": "a\"b\u00e9"}"#;
    let mut exported = exported_in(text);
    exported.sort();
    assert_eq!(exported, vec![pair("E", ""), pair("OPENSSL_DIR", "/o"), pair("Q", "a\"b\u{e9}")]);
    assert!(exported_in("[\"OPENSSL_DIR\"]").is_empty());
    assert!(exported_in("{\"A\": \"x\"").is_empty(), "no JSON");
    assert!(exported_in("").is_empty());
    let tree = Json::Object(vec![
        ("a".to_string(), Json::Text("x".to_string())),
        ("B".to_string(), Json::Number),
        ("C".to_string(), Json::Text("y".to_string())),
    ]);
    assert_eq!(list_text_attrs(&tree), vec![pair("a", "x"), pair("C", "y")]);
    assert!(list_text_attrs(&Json::Text("x".to_string())).is_empty());
}

#[test]
fn what_is_kept_for_dependents_reads_back() {
    let vars = parse_links_metadata("cargo:root=/r \"q\"\ncargo::metadata=inc=a\\b\u{e9}\u{1f600}\ncargo:z=\u{1}\n");
    let text = links_vars_text(&vars).unwrap();
    assert_eq!(text, "{\"inc\":\"a\\\\b\u{e9}\u{1f600}\",\"root\":\"/r \\\"q\\\"\",\"z\":\"\\u0001\"}");
    assert_eq!(links_vars_in(&Some(text)).entries, vars.entries);
    assert_eq!(links_vars_text(&StrMap::new()).unwrap(), "{}");
    let read = |s: &str| links_vars_in(&Some(s.to_string())).entries;
    assert_eq!(read("{\"b\": \"1\", \"a\": \"2\", \"b\": \"3\"}").len(), 2);
    assert_eq!(links_vars_in(&Some("{\"b\": \"1\", \"b\": \"3\"}".to_string())).get("b").unwrap(), "3");
    assert!(read("{\"a\": 1}").is_empty(), "a number is no text");
    assert!(read("[]").is_empty());
    assert!(read("{").is_empty());
    assert!(links_vars_in(&None).entries.is_empty());
}

#[test]
fn the_build_script_that_a_manifest_names() {
    assert_eq!(build_file_in("[package]\nbuild = \"../gen/b.txt\"\n").as_deref(), Some("../gen/b.txt"));
    assert!(build_file_in("[package]\nbuild = false\n").is_none());
    assert!(build_file_in("[package]\nname = \"x\"\n").is_none());
    assert!(build_file_in("build = ").is_none());
    let d = disk(&[("Cargo.toml", "[package]\nbuild = \"../gen/b.txt\"\n"), ("../gen/b.txt", "")]);
    let mut c = config();
    detect_cargo_toml_info(&mut c, &d);
    assert_eq!(c.build, "../gen/b.txt");
}

#[test]
fn configuration_defaults_and_names() {
    assert!(default_true());
    assert_eq!(default_codegen_units(), 1);
    assert_eq!(default_cap_lints(), "allow");
    let mut c = config();
    assert_eq!(c.lib_name_normalized(), "my_crate");
    assert!(!c.is_cross_compiling());
    assert_eq!(c.out_path(), "/out");
    assert_eq!(c.lib_path_output(), None);
    c.host_platform.rustc_target_spec = "wasm32-unknown-unknown".to_string();
    assert!(c.is_cross_compiling());
}

#[test]
fn outputs_of_two_parts_add_up() {
    let a = "cargo:rustc-cfg=one\ncargo:rustc-link-search=/x\ncargo:rustc-env=K=1\ncargo:rustc-link-lib=z\n";
    let b = "cargo:rustc-cfg=two\ncargo:rustc-link-search=/x\ncargo:rustc-link-search=/y\ncargo:rustc-env=K=2\n";
    let both = parse_build_script_output(&format!("{a}{b}"), "/out", "/cwd").outputs;
    assert_eq!(both.cfgs, vec!["one", "two"]);
    assert_eq!(both.link_search, vec!["/x", "/y"]);
    assert_eq!(both.link_libs, vec!["z"]);
    assert_eq!(both.envs.get("K").unwrap(), "2");
}
