use cargo_nix_plugin::disk::{Disk, FileContent};
use cargo_nix_plugin::manifest::{
    expand_glob, glob_request, inherit_pkg_str, member_patterns, parse_manifest_deps, parse_member_manifest, parse_workspace,
    GitCheckout, ManifestDep, WorkspacePackage,
};
use cargo_nix_plugin::toml_tree::parse;

fn disk(files: &[(&str, &str)], dirs: &[(&str, &[&str])]) -> Disk {
    let mut d = Disk::new();
    for (path, text) in files {
        d.files.push((path.to_string(), FileContent::Text(text.to_string())));
    }
    for (path, entries) in dirs {
        d.dirs.push((path.to_string(), entries.iter().map(|e| e.to_string()).collect()));
    }
    d
}

fn deps_in(text: &str, ws: &Vec<ManifestDep>) -> Vec<ManifestDep> {
    let doc = parse(text).unwrap();
    parse_manifest_deps(doc.get("dependencies"), ws)
}

#[test]
fn expand_glob_literal() {
    let d = disk(
        &[("/tmp/g/foo/Cargo.toml", "[package]\nname = \"foo\"\n")],
        &[("/tmp/g", &["/tmp/g/foo"]), ("/tmp/g/foo", &["/tmp/g/foo/Cargo.toml"])],
    );
    let result = expand_glob("/tmp/g", "foo", &d);
    assert_eq!(result.len(), 1);
    assert_eq!(result[0], "/tmp/g/foo");
}

#[test]
fn expand_glob_star() {
    let d = disk(
        &[("/w/crates/a/Cargo.toml", ""), ("/w/crates/b/Cargo.toml", "")],
        &[("/w/crates", &["/w/crates/b", "/w/crates/a", "/w/crates/none"])],
    );
    let mut found = expand_glob("/w", "crates/*", &d);
    found.sort();
    assert_eq!(found, vec!["/w/crates/a", "/w/crates/b"]);
    assert!(glob_request("/w", "crates/*").0);
}

#[test]
fn parse_manifest_deps_string_version() {
    let deps = deps_in(
        r#"
            [dependencies]
            serde = "1.0"
            "#,
        &vec![],
    );
    assert_eq!(deps.len(), 1);
    assert_eq!(deps[0].name, "serde");
    assert_eq!(deps[0].version_req, Some("1.0".into()));
    assert!(!deps[0].optional);
}

#[test]
fn parse_manifest_deps_table_form() {
    let deps = deps_in(
        r#"
            [dependencies]
            tokio-rustls = { package = "tokio-rustls", version = "0.26", optional = true, default-features = false, features = ["ring"] }
            "#,
        &vec![],
    );
    assert_eq!(deps.len(), 1);
    assert_eq!(deps[0].name, "tokio-rustls");
    assert!(deps[0].optional);
    assert!(!deps[0].default_features);
    assert_eq!(deps[0].features, vec!["ring"]);
}

#[test]
fn workspace_inheritance_basic() {
    let ws_toml = parse(
        r#"
                    aws-sdk-s3 = { version = "1.82", default-features = false, features = ["rt-tokio"] }
                    renamed = { package = "actual", version = "2" }
                    "#,
    )
    .unwrap();
    let ws_deps = parse_manifest_deps(Some(&ws_toml), &vec![]);
    let deps = deps_in(
        r#"
            [dependencies]
            aws-sdk-s3 = { workspace = true, features = ["extra"] }
            renamed = { workspace = true, optional = true }
            "#,
        &ws_deps,
    );

    let s3 = deps.iter().find(|d| d.name == "aws-sdk-s3").unwrap();
    assert!(!s3.default_features, "inherited false must stick");
    assert_eq!(s3.version_req, Some("1.82".into()));
    assert!(s3.features.contains(&"rt-tokio".to_string()));
    assert!(s3.features.contains(&"extra".to_string()));

    let renamed = deps.iter().find(|d| d.name == "renamed").unwrap();
    assert_eq!(renamed.package, Some("actual".into()));
    assert!(renamed.optional);
}

#[test]
fn workspace_inheritance_default_features_merge() {
    let ws_toml = parse(
        r#"
                    ws-off = { version = "1", default-features = false }
                    ws-on  = { version = "1" }
                    "#,
    )
    .unwrap();
    let ws_deps = parse_manifest_deps(Some(&ws_toml), &vec![]);
    let probe = |text: &str| deps_in(text, &ws_deps).pop().unwrap().default_features;
    assert!(!probe("[dependencies]\nws-off = { workspace = true }\n"));
    assert!(probe("[dependencies]\nws-off = { workspace = true, default-features = true }\n"));
    assert!(probe("[dependencies]\nws-on = { workspace = true, default-features = false }\n"));
}

#[test]
fn workspace_package_inheritance() {
    let ws_pkg = WorkspacePackage { edition: Some("2024".into()), version: Some("7.7.7".into()) };
    let d = Disk::new();

    let toml = parse(
        r#"
            [package]
            name = "ant-jeprof"
            edition.workspace = true
            version.workspace = true
            "#,
    )
    .unwrap();
    let pkg = toml.get("package").unwrap();
    let member = parse_member_manifest(&toml, pkg, "/tmp", &vec![], &ws_pkg, &d).unwrap();
    assert_eq!(member.edition, "2024", "edition.workspace=true must inherit");
    assert_eq!(member.version, "7.7.7", "version.workspace=true must inherit");

    let toml = parse(
        r#"
            [package]
            name = "legacy-member"
            edition = "2018"
            version = "0.1.0"
            "#,
    )
    .unwrap();
    let pkg = toml.get("package").unwrap();
    let member = parse_member_manifest(&toml, pkg, "/tmp", &vec![], &ws_pkg, &d).unwrap();
    assert_eq!(member.edition, "2018", "explicit edition overrides workspace");
    assert_eq!(member.version, "0.1.0");

    let empty_ws = WorkspacePackage::default();
    let toml = parse(
        r#"
            [package]
            name = "orphan"
            edition.workspace = true
            "#,
    )
    .unwrap();
    let pkg = toml.get("package").unwrap();
    let member = parse_member_manifest(&toml, pkg, "/tmp", &vec![], &empty_ws, &d).unwrap();
    assert_eq!(member.edition, "2021", "missing workspace.package.edition falls back to 2021");
}

#[test]
fn inherited_texts() {
    let toml = parse("a = \"x\"\nb.workspace = true\nc.workspace = false\n").unwrap();
    assert_eq!(inherit_pkg_str(&toml, "a", Some("w")), Some("x"));
    assert_eq!(inherit_pkg_str(&toml, "b", Some("w")), Some("w"));
    assert_eq!(inherit_pkg_str(&toml, "c", Some("w")), None);
    assert_eq!(inherit_pkg_str(&toml, "d", Some("w")), None);
}

#[test]
fn a_workspace_is_read_with_its_root_and_members() {
    let d = disk(
        &[
            (
                "/w/Cargo.toml",
                "[package]\nname = \"root\"\nversion = \"1.0.0\"\n[workspace]\nmembers = [\"m\", \".\"]\n",
            ),
            ("/w/./Cargo.toml", "[package]\nname = \"root\"\nversion = \"1.0.0\"\n"),
            ("/w/m/Cargo.toml", "[package]\nname = \"m\"\nversion = \"0.1.0\"\n[lib]\nproc-macro = true\n"),
            ("/w/src/lib.rs", ""),
            ("/w/m/src/lib.rs", ""),
        ],
        &[("/w", &["/w/m"]), ("/w/m", &["/w/m/Cargo.toml"])],
    );
    let ws = parse_workspace("/w", &d).unwrap();
    assert_eq!(ws.root_package.as_ref().unwrap().name, "root");
    assert!(ws.members.iter().any(|m| m.name == "m" && m.proc_macro));
    let names: Vec<&str> = ws.members.iter().map(|m| m.name.as_str()).collect();
    assert_eq!(names, vec!["root", "m"]);
    let doc = parse("[workspace]\nmembers = [\"m\", \".\"]\n").unwrap();
    assert_eq!(member_patterns(&doc), vec!["m", "."]);
}

#[test]
fn a_workspace_without_a_manifest_is_an_error() {
    assert!(parse_workspace("/w", &Disk::new()).is_err());
    assert!(parse_workspace("/w", &disk(&[("/w/Cargo.toml", "[[[")], &[])).is_err());
}

#[test]
fn a_checkout_is_scanned() {
    let d = disk(
        &[
            ("/c/Cargo.toml", "[workspace]\nmembers = [\"x\"]\n"),
            ("/c/x/Cargo.toml", "[package]\nname = \"x\"\nversion = \"0.2.0\"\n"),
        ],
        &[("/c", &["/c/x"]), ("/c/x", &["/c/x/Cargo.toml"])],
    );
    let checkout = GitCheckout::scan("/c", &d).unwrap();
    assert_eq!(checkout.find("x").unwrap().version, "0.2.0");
    assert!(checkout.find("y").is_none());
}
