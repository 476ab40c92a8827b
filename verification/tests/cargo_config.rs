use cargo_nix_plugin::cargo_config::{
    config_candidates, crates_io_index, crates_io_replacement, discover_crates_io_replacement, find_config,
    SourceReplacement,
};
use cargo_nix_plugin::disk::{Disk, FileContent};

fn disk(files: &[(&str, &str)]) -> Disk {
    let mut d = Disk::new();
    for (path, text) in files {
        d.files.push((path.to_string(), FileContent::Text(text.to_string())));
    }
    d
}

#[test]
fn no_source_section() {
    assert_eq!(crates_io_replacement(""), SourceReplacement::Unreplaced);
    assert_eq!(crates_io_replacement("[build]\njobs = 4\n"), SourceReplacement::Unreplaced);
}

#[test]
fn simple_mirror() {
    let cfg = r#"
            [source.crates-io]
            replace-with = "mirror"
            [source.mirror]
            registry = "sparse+https://mirror.example/index/"
        "#;
    assert_eq!(
        crates_io_replacement(cfg),
        SourceReplacement::Registry("sparse+https://mirror.example/index/".into())
    );
}

#[test]
fn chained_replace_with() {
    let cfg = r#"
            [source.crates-io]
            replace-with = "a"
            [source.a]
            replace-with = "b"
            [source.b]
            registry = "https://b.example/"
        "#;
    assert_eq!(crates_io_replacement(cfg), SourceReplacement::Registry("https://b.example/".into()));
}

#[test]
fn vendored_directory_is_unsupported() {
    let cfg = r#"
            [source.crates-io]
            replace-with = "vendored"
            [source.vendored]
            directory = "vendor"
        "#;
    assert_eq!(crates_io_replacement(cfg), SourceReplacement::Unsupported { kind: "directory" });
}

#[test]
fn dangling_replace_with() {
    let cfg = r#"
            [source.crates-io]
            replace-with = "missing"
        "#;
    assert_eq!(crates_io_replacement(cfg), SourceReplacement::Unreplaced);
}

#[test]
fn cycle_terminates() {
    let cfg = r#"
            [source.crates-io]
            replace-with = "a"
            [source.a]
            replace-with = "crates-io"
        "#;
    assert_eq!(crates_io_replacement(cfg), SourceReplacement::Unreplaced);
}

#[test]
fn find_config_walks_up() {
    let d = disk(&[("/tmp/x/.cargo/config.toml", "")]);
    let found = find_config("/tmp/x/a/b/c", "/nonexistent", &d).unwrap();
    assert_eq!(found, "/tmp/x/.cargo/config.toml");
}

#[test]
fn find_config_falls_back_to_cargo_home() {
    let d = disk(&[("/home/u/.cargo/config.toml", "")]);
    let found = find_config("/nonexistent-workspace-root", "/home/u/.cargo", &d).unwrap();
    assert_eq!(found, "/home/u/.cargo/config.toml");
}

#[test]
fn find_config_takes_the_former_name_and_the_root() {
    let d = disk(&[("/.cargo/config", "")]);
    assert_eq!(find_config("/a/b", "/home", &d).unwrap(), "/.cargo/config");
    let both = disk(&[("/a/.cargo/config", ""), ("/a/.cargo/config.toml", "")]);
    assert_eq!(find_config("/a", "/home", &both).unwrap(), "/a/.cargo/config.toml");
    assert!(find_config("/a/b", "/home", &Disk::new()).is_none());
}

#[test]
fn the_other_kinds_of_source_are_unsupported() {
    for kind in ["local-registry", "git"] {
        let cfg = format!("[source.crates-io]\nreplace-with = \"x\"\n[source.x]\n{kind} = \"y\"\n");
        match crates_io_replacement(&cfg) {
            SourceReplacement::Unsupported { kind: k } => assert_eq!(k, kind),
            other => panic!("{other:?}"),
        }
    }
    let odd = "[source.crates-io]\nreplace-with = \"x\"\n[source.x]\nother = \"y\"\n";
    assert_eq!(crates_io_replacement(odd), SourceReplacement::Unreplaced);
    let own = "[source.crates-io]\nregistry = \"https://own.example/\"\n";
    assert_eq!(crates_io_replacement(own), SourceReplacement::Unreplaced);
    assert_eq!(crates_io_replacement("[[["), SourceReplacement::Unreplaced);
}

#[test]
fn a_chain_of_sixteen_sources_is_followed_and_a_longer_one_is_not() {
    for (n, found) in [(15usize, true), (16, false)] {
        let mut cfg = String::from("[source.crates-io]\nreplace-with = \"s1\"\n");
        for i in 1..n {
            cfg.push_str(&format!("[source.s{i}]\nreplace-with = \"s{}\"\n", i + 1));
        }
        cfg.push_str(&format!("[source.s{n}]\nregistry = \"https://end.example/\"\n"));
        let want = if found {
            SourceReplacement::Registry("https://end.example/".into())
        } else {
            SourceReplacement::Unreplaced
        };
        assert_eq!(crates_io_replacement(&cfg), want, "{n}");
    }
}

#[test]
fn the_configuration_that_counts_is_read() {
    let cfg = "[source.crates-io]\nreplace-with = \"m\"\n[source.m]\nregistry = \"https://m.example/\"\n";
    let d = disk(&[("/ws/.cargo/config.toml", cfg)]);
    assert_eq!(
        discover_crates_io_replacement("/ws/sub", "/home", &d),
        SourceReplacement::Registry("https://m.example/".into())
    );
    assert_eq!(discover_crates_io_replacement("/other", "/home", &d), SourceReplacement::Unreplaced);
}

#[test]
fn the_index_is_a_sparse_one() {
    let index = |r: SourceReplacement| crates_io_index(&r);
    assert_eq!(index(SourceReplacement::Unreplaced).unwrap(), "sparse+https://index.crates.io/");
    assert_eq!(index(SourceReplacement::Registry("https://m/".into())).unwrap(), "sparse+https://m/");
    assert_eq!(index(SourceReplacement::Registry("sparse+https://m/".into())).unwrap(), "sparse+https://m/");
    assert!(index(SourceReplacement::Unsupported { kind: "git" }).unwrap_err().contains("'git'"));
}

#[test]
fn the_candidates_go_upwards_and_end_at_home() {
    let all = config_candidates("/a/b", "/home/c");
    assert_eq!(
        all,
        vec![
            "/a/b/.cargo/config.toml",
            "/a/b/.cargo/config",
            "/a/.cargo/config.toml",
            "/a/.cargo/config",
            "/.cargo/config.toml",
            "/.cargo/config",
            "/home/c/config.toml",
            "/home/c/config",
        ]
    );
    for path in &all {
        assert_eq!(find_config("/a/b", "/home/c", &disk(&[(path, "")])).as_ref(), Some(path));
    }
    assert_eq!(config_candidates("w", "h")[2..4], [".cargo/config.toml", ".cargo/config"]);
}
