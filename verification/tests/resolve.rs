use cargo_nix_plugin::cfg_eval::TargetDescription;
use cargo_nix_plugin::feature_resolve::{resolve_features, DepFeatureInfo, PackageFeatureInfo};
use cargo_nix_plugin::metadata::parse_metadata;
use cargo_nix_plugin::nix_builder::{mk_workspace_result, NixError, NixValue};
use cargo_nix_plugin::paths::{parent, parent_dir, relative};
use cargo_nix_plugin::plugin::{
    cargo_metadata_args, choose_input, lock_path, metadata_outcome, root_features_or_default, validate_and_resolve, InputChoice,
    PluginInput,
};
use cargo_nix_plugin::resolve::{normalize_name, relative_src_path, resolve_workspace, SourceInfo};
use cargo_nix_plugin::sorted::StrMap;
use std::path::Path;

fn linux() -> TargetDescription {
    TargetDescription {
        name: "x86_64-unknown-linux-gnu".into(),
        os: "linux".into(),
        arch: "x86_64".into(),
        vendor: "unknown".into(),
        env: "gnu".into(),
        family: vec!["unix".into()],
        pointer_width: "64".into(),
        endian: "little".into(),
        unix: true,
        windows: false,
    }
}

const METADATA: &str = r#"{
  "packages": [
    {
      "name": "app", "version": "0.1.0", "id": "path+file:///ws/app#0.1.0", "license": null, "license_file": null,
      "description": null, "source": null, "authors": ["Me"], "categories": [], "keywords": [], "readme": null,
      "repository": null, "homepage": null, "documentation": null, "edition": "2021", "links": null,
      "metadata": null, "publish": null, "default_run": null, "rust_version": null,
      "features": {"default": ["fast"], "fast": [], "feature-x": []},
      "manifest_path": "/ws/app/Cargo.toml",
      "dependencies": [
        {"name": "dep", "source": "registry+https://github.com/rust-lang/crates.io-index", "req": "^1", "kind": null,
         "rename": "renamed", "optional": false, "uses_default_features": true, "features": ["x"], "target": null,
         "registry": null},
        {"name": "dep", "source": "registry+https://github.com/rust-lang/crates.io-index", "req": "^2", "kind": "build",
         "rename": null, "optional": false, "uses_default_features": true, "features": [], "target": null,
         "registry": null},
        {"name": "winonly", "source": "registry+https://github.com/rust-lang/crates.io-index", "req": "^1",
         "kind": null, "rename": null, "optional": false, "uses_default_features": true, "features": [],
         "target": "cfg(windows)", "registry": null}
      ],
      "targets": [
        {"kind": ["lib"], "crate_types": ["lib"], "name": "app", "src_path": "/ws/app/src/lib.rs", "edition": "2021",
         "doc": true, "doctest": true, "test": true},
        {"kind": ["bin"], "crate_types": ["bin"], "name": "tool", "src_path": "/ws/app/src/main.rs",
         "edition": "2021", "doc": true, "doctest": false, "test": true},
        {"kind": ["custom-build"], "crate_types": ["bin"], "name": "build-script-build",
         "src_path": "/ws/app/build.rs", "edition": "2021", "doc": false, "doctest": false, "test": false}
      ]
    },
    {
      "name": "dep", "version": "1.0.0", "id": "registry+https://github.com/rust-lang/crates.io-index#dep@1.0.0",
      "license": null, "license_file": null, "description": null,
      "source": "registry+https://github.com/rust-lang/crates.io-index", "authors": [], "categories": [],
      "keywords": [], "readme": null, "repository": null, "homepage": null, "documentation": null,
      "edition": "2018", "links": "dep_sys", "metadata": null, "publish": null, "default_run": null,
      "rust_version": null, "features": {"x": []}, "manifest_path": "/reg/dep-1.0.0/Cargo.toml", "dependencies": [],
      "targets": [
        {"kind": ["proc-macro"], "crate_types": ["proc-macro"], "name": "dep", "src_path": "/reg/dep-1.0.0/lib.rs",
         "edition": "2018", "doc": true, "doctest": true, "test": true}
      ]
    },
    {
      "name": "dep", "version": "2.0.0", "id": "registry+https://github.com/rust-lang/crates.io-index#dep@2.0.0",
      "license": null, "license_file": null, "description": null,
      "source": "registry+https://github.com/rust-lang/crates.io-index", "authors": [], "categories": [],
      "keywords": [], "readme": null, "repository": null, "homepage": null, "documentation": null,
      "edition": "2018", "links": null, "metadata": null, "publish": null, "default_run": null,
      "rust_version": null, "features": {}, "manifest_path": "/reg/dep-2.0.0/Cargo.toml", "dependencies": [],
      "targets": []
    },
    {
      "name": "winonly", "version": "1.0.0",
      "id": "registry+https://github.com/rust-lang/crates.io-index#winonly@1.0.0",
      "license": null, "license_file": null, "description": null,
      "source": "registry+https://github.com/rust-lang/crates.io-index", "authors": [], "categories": [],
      "keywords": [], "readme": null, "repository": null, "homepage": null, "documentation": null,
      "edition": "2018", "links": null, "metadata": null, "publish": null, "default_run": null,
      "rust_version": null, "features": {}, "manifest_path": "/reg/winonly-1.0.0/Cargo.toml", "dependencies": [],
      "targets": []
    }
  ],
  "workspace_members": ["path+file:///ws/app#0.1.0"],
  "resolve": {
    "nodes": [
      {"id": "path+file:///ws/app#0.1.0",
       "dependencies": ["registry+https://github.com/rust-lang/crates.io-index#dep@1.0.0",
                        "registry+https://github.com/rust-lang/crates.io-index#dep@2.0.0"],
       "deps": [
         {"name": "renamed", "pkg": "registry+https://github.com/rust-lang/crates.io-index#dep@1.0.0",
          "dep_kinds": [{"kind": null, "target": null}]},
         {"name": "dep", "pkg": "registry+https://github.com/rust-lang/crates.io-index#dep@2.0.0",
          "dep_kinds": [{"kind": "build", "target": null}]},
         {"name": "winonly", "pkg": "registry+https://github.com/rust-lang/crates.io-index#winonly@1.0.0",
          "dep_kinds": [{"kind": null, "target": "cfg(windows)"}]}
       ],
       "features": ["default", "fast"]},
      {"id": "registry+https://github.com/rust-lang/crates.io-index#dep@1.0.0", "dependencies": [], "deps": [],
       "features": ["x"]},
      {"id": "registry+https://github.com/rust-lang/crates.io-index#dep@2.0.0", "dependencies": [], "deps": [],
       "features": []},
      {"id": "registry+https://github.com/rust-lang/crates.io-index#winonly@1.0.0", "dependencies": [], "deps": [],
       "features": []}
    ],
    "root": "path+file:///ws/app#0.1.0"
  },
  "target_directory": "/ws/target", "version": 1, "workspace_root": "/ws", "metadata": null
}"#;

const LOCK: &str = "[[package]]\nname = \"dep\"\nversion = \"1.0.0\"\nchecksum = \"00ff1a\"\n";

#[test]
fn a_workspace_resolves_from_metadata() {
    let r = resolve_workspace(METADATA, LOCK, &linux(), &vec!["default".to_string()]).unwrap();
    assert_eq!(r.workspace_root, "/ws");
    assert_eq!(r.crates.len(), 4);
    assert_eq!(r.workspace_members.len(), 1);
    let dep = r.crates.get("dep 1.0.0").unwrap();
    assert!(dep.proc_macro);
    assert_eq!(dep.sha256.as_deref(), Some("sha256-AP8a"));
    assert_eq!(dep.links.as_deref(), Some("dep_sys"));
    assert_eq!(dep.source, Some(SourceInfo::CratesIo));
    assert_eq!(dep.resolved_default_features, vec!["x"]);
    assert!(r.crates.get("dep 2.0.0").unwrap().sha256.is_none());
    let id = r.workspace_members.get("app").unwrap();
    let app = r.crates.get(id).unwrap();
    assert!(app.sha256.is_none());
    assert!(matches!(app.source, Some(SourceInfo::Local { .. })));
    assert_eq!(app.dependencies.len(), 1, "the dependency for Windows is left out");
    assert_eq!(app.dependencies[0].package_id, "dep 1.0.0");
    assert_eq!(app.dependencies[0].rename.as_deref(), Some("renamed"));
    assert_eq!(app.build_dependencies.len(), 1);
    assert_eq!(app.build_dependencies[0].package_id, "dep 2.0.0");
    assert_eq!(app.build.as_deref(), Some("build.rs"));
    assert_eq!(app.lib_path.as_deref(), Some("src/lib.rs"));
    assert_eq!(app.crate_bin[0].name, "tool");
    assert_eq!(app.crate_bin[0].path, "src/main.rs");
    assert_eq!(app.features.get("default").unwrap(), &vec!["fast".to_string()]);
    assert_eq!(app.authors, vec!["Me"]);
}

#[test]
fn on_windows_the_other_dependency_is_there() {
    let mut t = linux();
    t.unix = false;
    t.windows = true;
    let r = resolve_workspace(METADATA, LOCK, &t, &vec![]).unwrap();
    let app = r.crates.get(r.workspace_members.get("app").unwrap()).unwrap();
    assert_eq!(app.dependencies.len(), 2);
}

/// The metadata with the dependency on `winonly` optional and for all targets, and `fast` listing
/// `item`.
fn with_optional(item: &str, rename: &str) -> String {
    METADATA
        .replace("\"kind\": null, \"rename\": null, \"optional\": false", &format!("\"kind\": null, \"rename\": {rename}, \"optional\": true"))
        .replace("\"target\": \"cfg(windows)\", \"registry\"", "\"target\": null, \"registry\"")
        .replace("\"fast\": []", &format!("\"fast\": [{item}]"))
}

fn texts(v: &[&str]) -> Vec<String> {
    v.iter().map(|s| s.to_string()).collect()
}

fn has_optional(metadata: &str, root_features: &[&str]) -> bool {
    let r = resolve_workspace(metadata, LOCK, &linux(), &texts(root_features)).unwrap();
    let app = r.crates.get(r.workspace_members.get("app").unwrap()).unwrap();
    assert!(app.dependencies.iter().any(|d| d.name == "dep"), "what is not optional is always there");
    app.dependencies.iter().filter(|d| d.name == "winonly").count() == 1
}

#[test]
fn optional_dependencies_follow_the_features() {
    assert!(!has_optional(&with_optional("", "null"), &["default"]));
    assert!(has_optional(&with_optional("", "null"), &["default", "winonly"]));
    assert!(has_optional(&with_optional("\"dep:winonly\"", "null"), &["default"]));
    assert!(!has_optional(&with_optional("\"dep:winonly\"", "null"), &[]), "the feature is off");
    assert!(!has_optional(&with_optional("\"dep:other\"", "null"), &["fast"]));
    assert!(has_optional(&with_optional("\"winonly/x\"", "null"), &["fast"]));
    assert!(!has_optional(&with_optional("\"winonly?/x\"", "null"), &["fast"]));
    assert!(has_optional(&with_optional("\"dep:w\"", "\"w\""), &["fast"]), "by its declared name");
    assert!(!has_optional(&with_optional("\"dep:winonly\"", "\"w\""), &["fast"]));
}

#[test]
fn features_start_from_those_requested() {
    let features = |root_features: &[&str]| {
        let r = resolve_workspace(METADATA, LOCK, &linux(), &texts(root_features)).unwrap();
        r.crates.get(r.workspace_members.get("app").unwrap()).unwrap().resolved_default_features.clone()
    };
    assert_eq!(features(&["default", "feature-x"]), vec!["default", "fast", "feature-x"]);
    assert_eq!(features(&["feature-x", "nobody-has-this"]), vec!["feature-x"]);
    assert_eq!(features(&["fast"]), vec!["fast"]);
    assert!(features(&[]).is_empty(), "whatever Cargo resolved");
    let forwards = METADATA
        .replace("\"fast\": []", "\"fast\": [\"renamed/y\", \"renamed/z\"]")
        .replace("\"features\": {\"x\": []}", "\"features\": {\"x\": [], \"y\": []}");
    let r = resolve_workspace(&forwards, LOCK, &linux(), &texts(&["default"])).unwrap();
    assert_eq!(r.crates.get("dep 1.0.0").unwrap().resolved_default_features, vec!["x", "y"]);
    assert!(r.crates.get("dep 2.0.0").unwrap().resolved_default_features.is_empty(), "it declares none");
    let winonly = r.crates.get("winonly").unwrap();
    assert!(winonly.resolved_default_features.is_empty(), "no part of the build on this target");
}

#[test]
fn development_dependencies_of_members_get_their_features() {
    let dev = METADATA
        .replace("\"req\": \"^2\", \"kind\": \"build\"", "\"req\": \"^2\", \"kind\": \"dev\"")
        .replace(
            "\"features\": {}, \"manifest_path\": \"/reg/dep-2.0.0",
            "\"features\": {\"default\": []}, \"manifest_path\": \"/reg/dep-2.0.0",
        );
    let r = resolve_workspace(&dev, LOCK, &linux(), &vec![]).unwrap();
    let app = r.crates.get(r.workspace_members.get("app").unwrap()).unwrap();
    assert_eq!(app.dev_dependencies[0].package_id, "dep 2.0.0");
    assert_eq!(r.crates.get("dep 2.0.0").unwrap().resolved_default_features, vec!["default"]);
}

#[test]
fn given_and_run_metadata_are_answered_alike() {
    let given = PluginInput {
        metadata: Some(METADATA.to_string()),
        cargo_lock: Some(LOCK.to_string()),
        manifest_path: None,
        target: linux(),
        root_features: texts(&["default"]),
    };
    let run = PluginInput {
        metadata: None,
        cargo_lock: Some("not looked at".to_string()),
        manifest_path: Some("/ws/Cargo.toml".to_string()),
        target: linux(),
        root_features: texts(&["default"]),
    };
    let a = validate_and_resolve(&run, &Ok((METADATA.to_string(), LOCK.to_string()))).unwrap();
    let b = validate_and_resolve(&given, &Err("not fetched".to_string())).unwrap();
    assert_eq!(format!("{a:?}"), format!("{b:?}"));
    let err = validate_and_resolve(&run, &Err("cargo metadata failed".to_string())).unwrap_err();
    assert_eq!(err, "cargo metadata failed");
    let neither = PluginInput { metadata: None, manifest_path: None, ..given };
    assert!(validate_and_resolve(&neither, &Err(String::new())).unwrap_err().starts_with("Provide either"));
}

#[test]
fn paths_of_local_crates_are_relative() {
    let local = |manifest: &str, root: &str| {
        let m = METADATA
            .replace("/ws/app/Cargo.toml", manifest)
            .replace("\"workspace_root\": \"/ws\"", &format!("\"workspace_root\": \"{root}\""));
        let r = resolve_workspace(&m, LOCK, &linux(), &vec![]).unwrap();
        let app = r.crates.get(r.workspace_members.get("app").unwrap()).unwrap();
        match &app.source {
            Some(SourceInfo::Local { path }) => path.clone(),
            _ => panic!("local"),
        }
    };
    assert_eq!(local("/ws/crates/a/Cargo.toml", "/ws"), "crates/a");
    assert_eq!(local("/ws/Cargo.toml", "/ws"), ".");
    assert_eq!(local("/ws/a//Cargo.toml", "/ws/"), "a");
    assert_eq!(local("/wsx/a/Cargo.toml", "/ws"), "/wsx/a");
    assert_eq!(local("/other/a/Cargo.toml", "/ws"), "/other/a");
}

#[test]
fn parents_and_relative_paths() {
    assert_eq!(parent("/ws/a/Cargo.toml").as_deref(), Some("/ws/a"));
    assert_eq!(parent("/ws/a//Cargo.toml").as_deref(), Some("/ws/a"));
    assert_eq!(parent("/ws//a/./Cargo.toml/").as_deref(), Some("/ws//a"));
    assert_eq!(parent("/Cargo.toml").as_deref(), Some("/"));
    assert_eq!(parent("Cargo.toml").as_deref(), Some(""));
    assert_eq!(parent("./Cargo.toml").as_deref(), Some("."));
    assert_eq!(parent(".").as_deref(), Some(""));
    assert_eq!(parent("a/..").as_deref(), Some("a"));
    assert_eq!(parent("").as_deref(), None);
    assert_eq!(parent("//").as_deref(), None);
    assert_eq!(parent_dir(""), ".");
    assert_eq!(relative("/ws//a/./b/", "/ws/"), "a/./b");
    assert_eq!(relative("/ws/a", "ws"), "/ws/a");
    assert_eq!(relative("a/b", "a"), "b");
    assert_eq!(relative("./a/b", "."), "a/b");
    assert_eq!(relative("a/b/", ""), "a/b");
    // The standard library agrees.
    let all = ["", "/", ".", "..", "a", "/a", "./a", "a/", "a/b", "/a/b", "a//b", "a/./b", "/a/./b/.", "//a", "./.", "a/..", ".a/b", "a/.b"];
    for p in all {
        let std_parent = Path::new(p).parent().map(|d| d.to_string_lossy().into_owned());
        assert_eq!(parent(p), std_parent, "{p:?}");
        for d in all {
            let std_rest = Path::new(p).strip_prefix(d).unwrap_or(Path::new(p));
            assert_eq!(relative(p, d), std_rest.to_string_lossy(), "{p:?} from {d:?}");
        }
    }
}

#[test]
fn a_local_crate_has_no_hash() {
    let lock = "[[package]]\nname = \"app\"\nversion = \"0.1.0\"\nchecksum = \"00ff1a\"\n";
    let r = resolve_workspace(METADATA, lock, &linux(), &vec![]).unwrap();
    let app = r.crates.get(r.workspace_members.get("app").unwrap()).unwrap();
    assert!(app.sha256.is_none());
    assert_eq!(app.source, Some(SourceInfo::Local { path: "app".into() }));
}

#[test]
fn every_edge_leads_to_a_crate() {
    let r = resolve_workspace(METADATA, LOCK, &linux(), &vec![]).unwrap();
    let mut n = 0;
    for (_, c) in &r.crates.entries {
        for d in c.dependencies.iter().chain(&c.build_dependencies).chain(&c.dev_dependencies) {
            assert!(r.crates.get(&d.package_id).is_some(), "{}", d.package_id);
            n += 1;
        }
    }
    assert_eq!(n, 2);
    assert!(r.crates.get(r.root.as_ref().unwrap()).is_some());
    for (_, id) in &r.workspace_members.entries {
        assert!(r.crates.get(id).is_some());
    }
}

#[test]
fn metadata_that_is_none_is_refused() {
    let err = resolve_workspace("{", LOCK, &linux(), &vec![]).unwrap_err();
    assert!(err.starts_with("Failed to parse metadata: "), "{err}");
    let i = METADATA.find("\"resolve\"").unwrap();
    let j = METADATA.find("\"target_directory\"").unwrap();
    let unresolved = format!("{}\"resolve\": null, {}", &METADATA[..i], &METADATA[j..]);
    let err = resolve_workspace(&unresolved, LOCK, &linux(), &vec![]).unwrap_err();
    assert_eq!(err, "No resolve section in metadata");
    assert_eq!(parse_metadata(METADATA).unwrap().packages.len(), 4);
}

#[test]
fn names_and_paths() {
    assert_eq!(normalize_name("a-b_c-d"), "a_b_c_d");
    assert_eq!(relative_src_path("/ws/app/src/lib.rs", "/ws/app/Cargo.toml"), "src/lib.rs");
    assert_eq!(relative_src_path("/else/lib.rs", "/ws/app/Cargo.toml"), "/else/lib.rs");
}

fn package(features: &[(&str, &[&str])], deps: Vec<DepFeatureInfo>, optional: &[&str]) -> PackageFeatureInfo {
    PackageFeatureInfo {
        features: StrMap::from_list(
            features.iter().map(|(k, v)| (k.to_string(), v.iter().map(|s| s.to_string()).collect())).collect(),
        ),
        dependencies: deps,
        optional_deps: optional.iter().map(|s| s.to_string()).collect(),
    }
}

fn dep(name: &str, uses_default_features: bool, features: &[&str]) -> DepFeatureInfo {
    DepFeatureInfo {
        name: name.to_string(),
        package_id: name.to_string(),
        uses_default_features,
        features: features.iter().map(|s| s.to_string()).collect(),
    }
}

#[test]
fn features_unify_and_forward() {
    let packages = StrMap::from_list(vec![
        (
            "app".to_string(),
            package(
                &[("default", &["net"]), ("net", &["dep:http", "http/tls", "util?/extra"])],
                vec![dep("http", false, &["base"]), dep("util", true, &[])],
                &["http", "util"],
            ),
        ),
        ("http".to_string(), package(&[("tls", &[]), ("base", &[]), ("default", &[])], vec![], &[])),
        ("util".to_string(), package(&[("default", &[]), ("extra", &[])], vec![], &[])),
    ]);
    let r = resolve_features(&packages, &vec![("app".to_string(), vec!["default".to_string()])]);
    let on = |id: &str| -> Vec<String> {
        r.features.iter().find(|e| e.0 == id).map(|e| e.1.clone()).unwrap_or_default()
    };
    let mut http = on("http");
    http.sort();
    assert_eq!(http, vec!["base", "tls"]);
    assert!(on("app").contains(&"net".to_string()));
    assert!(on("util").is_empty(), "a weak reference activates nothing");
    let active = r.active_optional_deps.iter().find(|e| e.0 == "app").unwrap();
    assert_eq!(active.1, vec!["http"]);
}

#[test]
fn only_features_that_a_package_has_are_on() {
    let on = |app: PackageFeatureInfo, requested: &[&str]| {
        let packages = StrMap::from_list(vec![
            ("app".to_string(), app),
            ("http".to_string(), package(&[("base", &["missing"])], vec![], &[])),
        ]);
        let r = resolve_features(&packages, &vec![("app".to_string(), texts(requested))]);
        (r.features[0].1.clone(), r.features[1].1.clone(), r.active_optional_deps[0].1.clone())
    };
    let http = || vec![dep("http", true, &["base", "other"])];
    let plain = on(package(&[("f", &["http/gone"])], http(), &[]), &["f", "g", "default"]);
    assert_eq!(plain, (texts(&["f"]), texts(&["base"]), vec![]));
    let implicit = on(package(&[("f", &[])], http(), &["http"]), &["http"]);
    assert_eq!(implicit, (texts(&["http"]), texts(&["base"]), texts(&["http"])));
    let hidden = on(package(&[("f", &["dep:http"])], http(), &["http"]), &["http"]);
    assert_eq!(hidden, (vec![], vec![], vec![]), "a dependency named with `dep:` is no feature");
    let strong = on(package(&[("f", &["http/base"]), ("g", &["dep:http"])], http(), &["http"]), &["f"]);
    assert_eq!(strong, (texts(&["f"]), texts(&["base"]), texts(&["http"])));
}

#[test]
fn a_run_of_cargo_metadata_gives_its_output_or_a_complaint() {
    assert_eq!(metadata_outcome(true, "exit status: 0", "{}", "note"), Ok("{}".to_string()));
    assert_eq!(
        metadata_outcome(false, "exit status: 101", "{}", "error: no lock file"),
        Err("cargo metadata failed (exit status: 101):\nerror: no lock file\nHint: pass 'metadata' explicitly for offline/pure usage.".to_string())
    );
}

#[test]
fn a_workspace_becomes_a_nix_value() {
    let r = resolve_workspace(METADATA, LOCK, &linux(), &vec![]).unwrap();
    let v = mk_workspace_result(&r);
    let attrs = match v {
        NixValue::Attrs(a) => a,
        other => panic!("{other:?}"),
    };
    let names: Vec<&str> = attrs.iter().map(|a| a.0.as_str()).collect();
    assert_eq!(names, vec!["root", "workspaceRoot", "workspaceMembers", "crates"]);
    match &attrs[1].1 {
        NixValue::Text(s) => assert_eq!(s, "/ws"),
        other => panic!("{other:?}"),
    }
    match &attrs[3].1 {
        NixValue::Attrs(crates) => {
            assert_eq!(crates.len(), 4);
            let dep = crates.iter().find(|c| c.0 == "dep 1.0.0").unwrap();
            match &dep.1 {
                NixValue::Attrs(fields) => {
                    assert_eq!(fields.len(), 18);
                    assert!(matches!(&fields[4].1, NixValue::Attrs(s) if s.len() == 1));
                    assert!(matches!(&fields[10].1, NixValue::Boolean(true)));
                    assert!(matches!(&fields[11].1, NixValue::Null));
                }
                other => panic!("{other:?}"),
            }
        }
        other => panic!("{other:?}"),
    }
    assert_eq!(NixError("oops".to_string()).message(), "oops");
}

#[test]
fn the_input_is_one_or_the_other() {
    let input = |m: Option<&str>, l: Option<&str>, p: Option<&str>| PluginInput {
        metadata: m.map(|s| s.to_string()),
        cargo_lock: l.map(|s| s.to_string()),
        manifest_path: p.map(|s| s.to_string()),
        target: linux(),
        root_features: root_features_or_default(None),
    };
    assert!(choose_input(&input(Some("m"), Some("l"), Some("p"))).unwrap_err().contains("not both"));
    assert!(choose_input(&input(None, None, None)).unwrap_err().contains("Provide either"));
    assert!(choose_input(&input(Some("m"), None, None)).unwrap_err().contains("'cargoLock' is required"));
    assert_eq!(
        choose_input(&input(Some("m"), Some("l"), None)).unwrap(),
        InputChoice::Given { metadata: "m".to_string(), cargo_lock: "l".to_string() }
    );
    assert_eq!(
        choose_input(&input(None, None, Some("p"))).unwrap(),
        InputChoice::Run { manifest_path: "p".to_string() }
    );
    assert_eq!(input(None, None, None).root_features, vec!["default"]);
    assert_eq!(lock_path("/w/Cargo.toml").unwrap(), "/w/Cargo.lock");
    assert!(lock_path("").is_err());
    assert_eq!(
        cargo_metadata_args("/w/Cargo.toml"),
        vec!["metadata", "--format-version", "1", "--locked", "--manifest-path", "/w/Cargo.toml"]
    );
}

#[test]
fn a_large_workspace_resolves() {
    let n: usize = 1900;
    let id = |i: usize| format!("path+file:///ws/c{i}#c{i}@1.0.0");
    let below = |i: usize| (i + 1..n).take(6).collect::<Vec<usize>>();
    let rest = "\"license\": null, \"license_file\": null, \"description\": null, \"source\": null, \"authors\": [], \"categories\": [], \"keywords\": [], \"readme\": null, \"repository\": null, \"homepage\": null, \"documentation\": null, \"edition\": \"2021\", \"links\": null, \"metadata\": null, \"publish\": null, \"default_run\": null, \"rust_version\": null, \"targets\": []";
    let mut packages: Vec<String> = Vec::new();
    let mut nodes: Vec<String> = Vec::new();
    for i in 0..n {
        let deps: Vec<String> = below(i)
            .iter()
            .map(|j| format!("{{\"name\": \"c{j}\", \"source\": null, \"req\": \"*\", \"kind\": null, \"rename\": null, \"optional\": false, \"uses_default_features\": true, \"features\": [\"f\"], \"target\": null, \"registry\": null}}"))
            .collect();
        packages.push(format!(
            "{{\"name\": \"c{i}\", \"version\": \"1.0.0\", \"id\": \"{}\", \"manifest_path\": \"/ws/c{i}/Cargo.toml\", \"features\": {{\"f\": []}}, \"dependencies\": [{}], {rest}}}",
            id(i),
            deps.join(", ")
        ));
        let ids: Vec<String> = below(i).iter().map(|j| format!("\"{}\"", id(*j))).collect();
        let resolved: Vec<String> = below(i)
            .iter()
            .map(|j| format!("{{\"name\": \"c{j}\", \"pkg\": \"{}\", \"dep_kinds\": [{{\"kind\": null, \"target\": null}}]}}", id(*j)))
            .collect();
        nodes.push(format!(
            "{{\"id\": \"{}\", \"dependencies\": [{}], \"deps\": [{}], \"features\": []}}",
            id(i),
            ids.join(", "),
            resolved.join(", ")
        ));
    }
    let metadata = format!(
        "{{\"packages\": [{}], \"workspace_members\": [\"{}\"], \"resolve\": {{\"nodes\": [{}], \"root\": \"{}\"}}, \"target_directory\": \"/ws/target\", \"version\": 1, \"workspace_root\": \"/ws\", \"metadata\": null}}",
        packages.join(", "),
        id(0),
        nodes.join(", "),
        id(0)
    );
    let r = resolve_workspace(&metadata, "", &linux(), &vec![]).unwrap();
    assert_eq!(r.crates.len(), n);
    let last = r.crates.get(&format!("c{}", n - 1)).unwrap();
    assert_eq!(last.resolved_default_features, vec!["f"]);
    assert!(last.dependencies.is_empty());
    assert_eq!(r.crates.get("c0").unwrap().dependencies.len(), 6);
    assert!(r.crates.get("c0").unwrap().resolved_default_features.is_empty());
}
