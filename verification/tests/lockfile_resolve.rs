use cargo_nix_plugin::cfg_eval::TargetDescription;
use cargo_nix_plugin::disk::{Disk, FileContent};
use cargo_nix_plugin::lock_packages::{
    find_lock_dep_by_name_and_req, parse_lock_packages, prefetch_jobs, resolve_pkg_source, version_lookup, Lookup,
    LockPackage, ShortId,
};
use cargo_nix_plugin::lockfile::{decode_hex, hex_to_sri, parse_lockfile};
use cargo_nix_plugin::lockfile_resolve::resolve_from_lockfile;
use cargo_nix_plugin::registry::{DependencyKind, IndexDependency, IndexKrate, IndexVersion, PrefetchJob};
use cargo_nix_plugin::resolve::{SourceInfo, API_LEVEL};
use cargo_nix_plugin::version::{Version, VersionReq};

fn linux() -> TargetDescription {
    TargetDescription {
        name: "x86_64-unknown-linux-gnu".into(),
        os: "linux".into(),
        arch: "x86_64".into(),
        vendor: "unknown".into(),
        env: "gnu".into(),
        family: vec!["unix".into()],
        pointer_width: "64".into(),
        endian: "little".into(),
        unix: true,
        windows: false,
    }
}

fn disk(files: &[(&str, &str)], dirs: &[(&str, &[&str])]) -> Disk {
    let mut d = Disk::new();
    for (path, text) in files {
        d.files.push((path.to_string(), FileContent::Text(text.to_string())));
    }
    for (path, entries) in dirs {
        d.dirs.push((path.to_string(), entries.iter().map(|e| e.to_string()).collect()));
    }
    d
}

fn lock_package(name: &str, version: &str) -> LockPackage {
    LockPackage { name: name.into(), version: version.into(), source: None, dependencies: vec![] }
}

#[test]
fn parse_lock_packages_basic() {
    let lock = r#"
version = 4

[[package]]
name = "serde"
version = "1.0.210"
source = "registry+https://github.com/rust-lang/crates.io-index"
checksum = "c8e3592472072e6e22e0a54d5904d9febf8508f65fb8552499a1abc7d1078c3a"
dependencies = [
 "serde_derive",
]

[[package]]
name = "serde_derive"
version = "1.0.210"
source = "registry+https://github.com/rust-lang/crates.io-index"
checksum = "abcd1234"
dependencies = [
 "proc-macro2",
 "quote",
 "syn",
]

[[package]]
name = "my-crate"
version = "0.1.0"
dependencies = [
 "serde",
]
"#;
    let pkgs = parse_lock_packages(lock).unwrap();
    assert_eq!(pkgs.len(), 3);
    assert_eq!(pkgs[0].name, "serde");
    assert_eq!(pkgs[0].dependencies, vec!["serde_derive"]);
    assert!(pkgs[2].source.is_none());
}

#[test]
fn a_lockfile_that_is_none_is_refused() {
    assert!(parse_lock_packages("[[[").is_err());
    assert!(parse_lock_packages("[[package]]\nversion = \"1.0.0\"\n").is_err());
}

#[test]
fn resolve_pkg_source_crates_io() {
    let pkg = LockPackage {
        name: "serde".into(),
        version: "1.0.210".into(),
        source: Some("registry+https://github.com/rust-lang/crates.io-index".into()),
        dependencies: vec![],
    };
    assert_eq!(resolve_pkg_source(&pkg), Some(SourceInfo::CratesIo));
}

#[test]
fn resolve_pkg_source_git() {
    let pkg = LockPackage {
        name: "foo".into(),
        version: "0.1.0".into(),
        source: Some("git+https://github.com/user/foo.git?branch=main#abc123".into()),
        dependencies: vec![],
    };
    assert_eq!(
        resolve_pkg_source(&pkg),
        Some(SourceInfo::Git {
            url: "https://github.com/user/foo.git".into(),
            rev: "abc123".into(),
            sub_path: None,
        })
    );
}

#[test]
fn resolve_pkg_source_others() {
    let mut pkg = lock_package("x", "1.0.0");
    assert_eq!(resolve_pkg_source(&pkg), None);
    pkg.source = Some("sparse+https://other.example/index/".into());
    assert!(matches!(resolve_pkg_source(&pkg), Some(SourceInfo::Registry { .. })));
}

#[test]
fn git_source_missing_checkout_errors() {
    let key = "https://example.com/repo#abc123";
    let pkg = LockPackage {
        name: "foo".into(),
        version: "0.1.0".into(),
        source: Some("git+https://example.com/repo#abc123".into()),
        dependencies: vec![],
    };
    match resolve_pkg_source(&pkg) {
        Some(SourceInfo::Git { url, rev, .. }) => {
            assert_eq!(format!("{url}#{rev}"), key)
        }
        other => panic!("{other:?}"),
    }
}

#[test]
fn find_lock_dep_disambiguates_by_version_req() {
    let packages = vec![lock_package("http-body", "0.4.6"), lock_package("http-body", "1.0.1")];
    let dep_refs = vec!["http-body 0.4.6".to_string(), "http-body 1.0.1".to_string()];

    let r04 = VersionReq::parse("^0.4.5").unwrap();
    let r1 = VersionReq::parse("^1").unwrap();

    let got04 = find_lock_dep_by_name_and_req("http-body", &r04, &dep_refs, &packages).unwrap();
    let got1 = find_lock_dep_by_name_and_req("http-body", &r1, &dep_refs, &packages).unwrap();

    assert_eq!(got04.version, "0.4.6");
    assert_eq!(got1.version, "1.0.1");
}

#[test]
fn find_lock_dep_matches_prerelease() {
    let packages = vec![lock_package("tokio", "1.49.0+anthropic.1")];
    let dep_refs = vec!["tokio 1.49.0+anthropic.1".to_string()];
    let req = VersionReq::parse("^1.49").unwrap();

    let got = find_lock_dep_by_name_and_req("tokio", &req, &dep_refs, &packages);
    assert_eq!(got.unwrap().version, "1.49.0+anthropic.1");
}

#[test]
fn find_lock_dep_rejects_unsatisfiable_req() {
    let packages = vec![lock_package("hyper", "1.8.1")];
    let dep_refs = vec!["hyper".to_string()];

    let r014 = VersionReq::parse("^0.14.26").unwrap();
    assert!(
        find_lock_dep_by_name_and_req("hyper", &r014, &dep_refs, &packages).is_none(),
        "^0.14 must not fall back to hyper@1.8.1"
    );

    let r1 = VersionReq::parse("^1.6.0").unwrap();
    assert_eq!(find_lock_dep_by_name_and_req("hyper", &r1, &dep_refs, &packages).unwrap().version, "1.8.1");
}

#[test]
fn short_ids_tell_versions_apart() {
    let packages = vec![lock_package("a", "1.0.0"), lock_package("a", "2.0.0"), lock_package("b", "1.0.0")];
    let ids = ShortId::new(&packages);
    assert_eq!(ids.get("a", "1.0.0"), "a 1.0.0");
    assert_eq!(ids.get("b", "1.0.0"), "b");
}

#[test]
fn versions_and_requirements() {
    let v = Version::parse("1.2.3-rc.1+x").unwrap();
    assert_eq!((v.major, v.minor, v.patch), (1, 2, 3));
    assert_eq!((v.pre.as_str(), v.build.as_str()), ("rc.1", "x"));
    assert!(Version::parse("1.2").is_none());
    let req = VersionReq::parse("^1.2").unwrap();
    assert!(!req.matches(&v));
    assert!(req.matches(&v.release()));
    assert!(VersionReq::star().matches(&v.release()));
    assert!(VersionReq::parse("not a req").is_none());
}

#[test]
fn hashes_become_sri() {
    assert_eq!(decode_hex("00ff1a").unwrap(), vec![0u8, 255, 26]);
    assert!(decode_hex("0").is_none());
    assert!(decode_hex("zz").is_none());
    let lock = "[[package]]\nname = \"x\"\nversion = \"1.0.0\"\nchecksum = \"00ff1a\"\n";
    let hashes = parse_lockfile(lock);
    assert_eq!(hashes.get("x", "1.0.0"), hex_to_sri("00ff1a"));
    assert_eq!(hex_to_sri("00ff1a").unwrap(), "sha256-AP8a");
    assert_eq!(hashes.get("x", "1.0.1"), None);
}

fn checkout_disk() -> Disk {
    disk(
        &[
            (
                "/t/checkout/Cargo.toml",
                r#"
[workspace]
members = ["crates/*"]
[workspace.dependencies]
bar = { path = "crates/bar", version = "0.1.0" }
"#,
            ),
            (
                "/t/checkout/crates/foo/Cargo.toml",
                r#"
[package]
name = "foo"
version = "0.1.0"
links = "foo_sys"
[dependencies]
bar = { workspace = true }
[features]
default = ["a"]
a = []
"#,
            ),
            ("/t/checkout/crates/bar/Cargo.toml", "[package]\nname = \"bar\"\nversion = \"0.1.0\"\n"),
            (
                "/t/ws/Cargo.toml",
                r#"
[package]
name = "consumer"
version = "0.1.0"
edition = "2021"
[dependencies]
foo = { git = "https://example.com/repo" }
"#,
            ),
        ],
        &[
            ("/t/checkout", &["/t/checkout/Cargo.toml", "/t/checkout/crates"]),
            ("/t/checkout/crates", &["/t/checkout/crates/foo", "/t/checkout/crates/bar"]),
            ("/t/checkout/crates/foo", &["/t/checkout/crates/foo/Cargo.toml"]),
            ("/t/checkout/crates/bar", &["/t/checkout/crates/bar/Cargo.toml"]),
        ],
    )
}

const GIT_LOCK: &str = r#"
version = 4
[[package]]
name = "consumer"
version = "0.1.0"
dependencies = ["foo"]
[[package]]
name = "foo"
version = "0.1.0"
source = "git+https://example.com/repo?branch=main#abc123"
dependencies = ["bar"]
[[package]]
name = "bar"
version = "0.1.0"
source = "git+https://example.com/repo?branch=main#abc123"
"#;

#[test]
fn git_source_resolves_from_checkout() {
    let d = checkout_disk();
    let git_sources = vec![("https://example.com/repo#abc123".to_string(), "/t/checkout".to_string())];
    let result = resolve_from_lockfile(
        "/t/ws",
        GIT_LOCK,
        "sparse+https://index.crates.io/",
        &linux(),
        &vec![],
        false,
        &git_sources,
        &d,
        &vec![],
    )
    .unwrap();

    let foo = result.crates.get("foo").unwrap();
    assert_eq!(foo.dependencies.len(), 1, "foo → bar edge");
    assert_eq!(foo.dependencies[0].package_id, "bar");
    assert_eq!(foo.links.as_deref(), Some("foo_sys"));
    assert!(foo.features.contains_key("default"));
    match &foo.source {
        Some(SourceInfo::Git { url, rev, sub_path }) => {
            assert_eq!(url, "https://example.com/repo");
            assert_eq!(rev, "abc123");
            assert_eq!(sub_path.as_deref(), Some("crates/foo"));
        }
        other => panic!("expected Git source, got {other:?}"),
    }

    let bar = result.crates.get("bar").unwrap();
    match &bar.source {
        Some(SourceInfo::Git { sub_path, .. }) => {
            assert_eq!(sub_path.as_deref(), Some("crates/bar"))
        }
        other => panic!("expected Git source, got {other:?}"),
    }
    assert!(foo.resolved_default_features.contains(&"a".to_string()));
    assert_eq!(result.api_level, API_LEVEL);
    assert_eq!(result.root.as_deref(), Some("consumer"));
}

#[test]
fn a_git_package_without_a_checkout_is_an_error() {
    let err = resolve_from_lockfile(
        "/t/ws",
        GIT_LOCK,
        "sparse+https://index.crates.io/",
        &linux(),
        &vec![],
        false,
        &vec![],
        &checkout_disk(),
        &vec![],
    )
    .unwrap_err();
    assert!(err.contains("https://example.com/repo#abc123"), "{err}");
}

const REGISTRY_LOCK: &str = r#"
version = 4
[[package]]
name = "app"
version = "0.1.0"
dependencies = ["dep"]
[[package]]
name = "dep"
version = "1.0.0"
source = "registry+https://github.com/rust-lang/crates.io-index"
checksum = "00ff1a"
dependencies = ["leaf"]
[[package]]
name = "leaf"
version = "2.0.0"
source = "registry+https://github.com/rust-lang/crates.io-index"
"#;

fn registry_disk() -> Disk {
    disk(
        &[(
            "/ws/Cargo.toml",
            "[package]\nname = \"app\"\nversion = \"0.1.0\"\nedition = \"2021\"\n[dependencies]\ndep = { version = \"1\", default-features = false, features = [\"extra\"] }\n",
        )],
        &[],
    )
}

fn lookups() -> Vec<(PrefetchJob, Lookup)> {
    let index = |name: &str, version: &str| IndexVersion {
        name: name.to_string(),
        version: version.to_string(),
        deps: vec![],
        features: vec![],
        links: None,
    };
    let job = |name: &str, version: &str| PrefetchJob {
        url: "sparse+https://index.crates.io/".to_string(),
        name: name.to_string(),
        version: version.to_string(),
    };
    let mut dep = index("dep", "1.0.0");
    dep.links = Some("dep_sys".to_string());
    dep.features = vec![
        ("default".to_string(), vec!["std".to_string()]),
        ("std".to_string(), vec![]),
        ("extra".to_string(), vec!["dep:leaf".to_string()]),
    ];
    dep.deps = vec![IndexDependency {
        name: "leaf".to_string(),
        package: None,
        req: VersionReq::parse("^2").unwrap(),
        features: vec![],
        optional: true,
        default_features: true,
        target: None,
        kind: Some(DependencyKind::Normal),
    }];
    vec![
        (job("dep", "1.0.0"), Lookup::Found(dep)),
        (job("leaf", "2.0.0"), Lookup::Found(index("leaf", "2.0.0"))),
    ]
}

#[test]
fn registry_packages_resolve_from_their_index_entries() {
    let result = resolve_from_lockfile(
        "/ws",
        REGISTRY_LOCK,
        "sparse+https://index.crates.io/",
        &linux(),
        &vec![],
        false,
        &vec![],
        &registry_disk(),
        &lookups(),
    )
    .unwrap();
    let dep = result.crates.get("dep").unwrap();
    assert_eq!(dep.sha256.as_deref(), Some("sha256-AP8a"));
    assert_eq!(dep.source, Some(SourceInfo::CratesIo));
    assert_eq!(dep.links.as_deref(), Some("dep_sys"));
    assert_eq!(dep.resolved_default_features, vec!["extra".to_string()]);
    assert_eq!(dep.dependencies.len(), 1);
    assert_eq!(dep.dependencies[0].package_id, "leaf");
    let app = result.crates.get("app").unwrap();
    assert_eq!(app.dependencies[0].features, vec!["extra".to_string()]);
    assert!(!app.dependencies[0].uses_default_features);
    assert_eq!(result.workspace_members.get("app").unwrap(), "app");
    assert!(app.sha256.is_none());
    assert_eq!(app.source, Some(SourceInfo::Local { path: ".".into() }));
    assert_eq!(result.crates.len(), 3);
    for (_, c) in &result.crates.entries {
        for d in c.dependencies.iter().chain(&c.build_dependencies).chain(&c.dev_dependencies) {
            assert_eq!(result.crates.get(&d.package_id).unwrap().crate_name, d.name);
        }
    }
}

#[test]
fn an_optional_dependency_for_another_target_still_counts_as_a_feature() {
    let features = |items: Vec<String>| {
        let mut l = lookups();
        if let Lookup::Found(v) = &mut l[0].1 {
            v.features = vec![("extra".to_string(), items)];
            v.deps[0].target = Some("cfg(windows)".to_string());
        }
        let r = resolve_from_lockfile(
            "/ws",
            REGISTRY_LOCK,
            "sparse+https://index.crates.io/",
            &linux(),
            &vec!["nobody-has-this".to_string()],
            false,
            &vec![],
            &registry_disk(),
            &l,
        )
        .unwrap();
        let dep = r.crates.get("dep").unwrap();
        assert!(dep.dependencies.is_empty(), "the dependency is for Windows");
        assert!(r.crates.get("app").unwrap().resolved_default_features.is_empty());
        dep.resolved_default_features.clone()
    };
    assert_eq!(features(vec!["leaf".to_string()]), vec!["extra", "leaf"]);
    assert_eq!(features(vec!["dep:leaf".to_string(), "leaf".to_string()]), vec!["extra"]);
}

#[test]
fn a_failed_lookup_is_an_error() {
    let mut l = lookups();
    l[1].1 = Lookup::Failed("offline".to_string());
    let err = resolve_from_lockfile(
        "/ws",
        REGISTRY_LOCK,
        "sparse+https://index.crates.io/",
        &linux(),
        &vec![],
        false,
        &vec![],
        &registry_disk(),
        &l,
    )
    .unwrap_err();
    assert!(err.contains("offline"), "{err}");
}

#[test]
fn every_registry_package_is_fetched() {
    let jobs = prefetch_jobs("/ws", REGISTRY_LOCK, "sparse+https://index.crates.io/", &registry_disk()).unwrap();
    let names: Vec<&str> = jobs.iter().map(|j| j.name.as_str()).collect();
    assert_eq!(names, vec!["dep", "leaf"]);
    assert!(jobs.iter().all(|j| j.url == "sparse+https://index.crates.io/"));
}

#[test]
fn a_version_is_picked_out_of_the_index() {
    let version = |v: &str| IndexVersion {
        name: "a".to_string(),
        version: v.to_string(),
        deps: vec![],
        features: vec![("f".to_string(), vec!["g".to_string()])],
        links: None,
    };
    let krate = IndexKrate { versions: vec![version("1.0.0"), version("1.1.0")] };
    match version_lookup(&krate, "a", "1.1.0") {
        Lookup::Found(v) => {
            assert_eq!(v.version, "1.1.0");
            assert_eq!(v.features, vec![("f".to_string(), vec!["g".to_string()])]);
        }
        Lookup::Failed(e) => panic!("{e}"),
    }
    match version_lookup(&krate, "a", "2.0.0") {
        Lookup::Found(_) => panic!("there is no such version"),
        Lookup::Failed(e) => assert_eq!(e, "version 2.0.0 of crate 'a' not found"),
    }
}

#[test]
fn a_feature_brings_its_dependency_and_no_other_does() {
    let disk = disk(
        &[
            (
                "/ws/Cargo.toml",
                "[workspace]\nmembers = [\"tool\"]\n[package]\nname = \"app\"\nversion = \"0.1.0\"\n[dependencies]\nfoo = { version = \"1\", optional = true }\nbar = \"1\"\n[features]\nuse-foo = [\"dep:foo\"]\nfast = []\n",
            ),
            (
                "/ws/tool/Cargo.toml",
                "[package]\nname = \"tool\"\nversion = \"0.1.0\"\n[dependencies]\napp = { path = \"..\", features = [\"fast\"] }\n",
            ),
        ],
        &[],
    );
    let source = "source = \"registry+https://github.com/rust-lang/crates.io-index\"\n";
    let lock = format!(
        "[[package]]\nname = \"app\"\nversion = \"0.1.0\"\ndependencies = [\"bar\", \"foo\"]\n[[package]]\nname = \"bar\"\nversion = \"1.0.0\"\n{source}[[package]]\nname = \"foo\"\nversion = \"1.0.0\"\n{source}[[package]]\nname = \"tool\"\nversion = \"0.1.0\"\ndependencies = [\"app\"]\n"
    );
    let lookups: Vec<(PrefetchJob, Lookup)> = ["bar", "foo"]
        .iter()
        .map(|name| {
            (
                PrefetchJob {
                    url: "sparse+https://index.crates.io/".to_string(),
                    name: name.to_string(),
                    version: "1.0.0".to_string(),
                },
                Lookup::Found(IndexVersion {
                    name: name.to_string(),
                    version: "1.0.0".to_string(),
                    deps: vec![],
                    features: vec![],
                    links: None,
                }),
            )
        })
        .collect();
    let edges = |root_features: Vec<String>| {
        let r = resolve_from_lockfile(
            "/ws",
            &lock,
            "sparse+https://index.crates.io/",
            &linux(),
            &root_features,
            false,
            &vec![],
            &disk,
            &lookups,
        )
        .unwrap();
        assert!(r.crates.get("tool").unwrap().resolved_default_features.is_empty());
        assert_eq!(r.crates.get("tool").unwrap().dependencies[0].package_id, "app");
        let app = r.crates.get("app").unwrap();
        assert!(app.resolved_default_features.contains(&"fast".to_string()));
        app.dependencies.iter().map(|d| d.package_id.clone()).collect::<Vec<String>>()
    };
    assert_eq!(edges(vec![]), vec!["bar"]);
    let mut with = edges(vec!["use-foo".to_string()]);
    with.sort();
    assert_eq!(with, vec!["bar", "foo"]);
}
