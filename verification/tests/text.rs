use cargo_nix_plugin::disk::{extension_of, join_path, name_of_file};
use cargo_nix_plugin::positions::Positions;
use cargo_nix_plugin::sorted::{insert_text, sort_by_key, text_before, StrMap};
use cargo_nix_plugin::text::{
    contains_text, join, number_text, parse_u64, replace_char, replace_text, rsplit_once, same, signed_text, split_lines,
    split_once, split_whitespace, strip_prefix, strip_suffix, trim, trim_matches,
};
use cargo_nix_plugin::toml_tree::parse;

#[test]
fn parts_of_texts() {
    assert_eq!(split_once("a=b=c", '='), Some(("a", "b=c")));
    assert_eq!(rsplit_once("a=b=c", '='), Some(("a=b", "c")));
    assert_eq!(split_once("abc", '='), None);
    assert_eq!(strip_prefix("cargo:x", "cargo:"), Some("x"));
    assert_eq!(strip_suffix("x.rs", ".rs"), Some("x"));
    assert!(contains_text("abc", "bc") && !contains_text("abc", "cb") && contains_text("", ""));
    assert_eq!(trim(" \t\u{a0}x y\n"), "x y");
    assert_eq!(trim_matches("\"\"x\"", '"'), "x");
}

#[test]
fn words_and_lines() {
    assert_eq!(split_whitespace("  a \n b\u{3000}c "), vec!["a", "b", "c"]);
    assert_eq!(split_lines("a\r\nb\n\nc"), vec!["a", "b", "", "c"]);
    assert_eq!(split_lines("a\n"), vec!["a"]);
    assert_eq!(split_lines("é\nü"), vec!["é", "ü"]);
}

#[test]
fn replacing_and_joining() {
    assert_eq!(replace_char("a-b-c", '-', "__"), "a__b__c");
    assert_eq!(replace_text("aaaa", "aa", "b"), "bb");
    assert_eq!(replace_text("xay", "a", ""), "xy");
    assert_eq!(join(&vec!["a".to_string(), "b".to_string()], ", "), "a, b");
}

#[test]
fn numbers() {
    assert_eq!(number_text(0), "0");
    assert_eq!(number_text(u64::MAX), "18446744073709551615");
    assert_eq!(signed_text(i64::MIN), "-9223372036854775808");
    assert_eq!(parse_u64("+12"), Some(12));
    assert_eq!(parse_u64("18446744073709551616"), None);
    assert_eq!(parse_u64(""), None);
}

#[test]
fn paths() {
    assert_eq!(join_path("/a", "b"), "/a/b");
    assert_eq!(join_path("/a/", "b"), "/a/b");
    assert_eq!(join_path("/a", "/b"), "/b");
    assert_eq!(join_path("", "b"), "b");
    assert_eq!(name_of_file("/a/b.rs"), "b.rs");
    assert_eq!(extension_of("b.tar.gz"), Some("gz"));
    assert_eq!(extension_of(".hidden"), None);
    assert_eq!(extension_of("plain"), None);
}

#[test]
fn maps_and_sets_are_in_order() {
    let mut m: StrMap<String> = StrMap::new();
    m.insert("b".to_string(), "1".to_string());
    m.insert("a".to_string(), "2".to_string());
    m.insert("b".to_string(), "3".to_string());
    assert_eq!(m.len(), 2);
    assert_eq!(m.entries[0].0, "a");
    assert_eq!(m.get("b").unwrap(), "3");
    m.remove("a");
    assert!(!m.contains_key("a"));
    let mut s = vec![];
    for t in ["c", "a", "b", "a"] {
        insert_text(&mut s, t.to_string());
    }
    assert_eq!(s, vec!["a", "b", "c"]);
    assert!(text_before("a", "ab") && !text_before("b", "ab") && text_before("z", "é"));
    assert_eq!(sort_by_key(vec!["b".to_string(), "a".to_string(), "a".to_string()]), vec!["a", "a", "b"]);
}

#[test]
fn toml_is_read() {
    let t = parse("a = 1\nb = [\"x\", 2, \"y\"]\n[c]\nd = true\ne = 1.5\nf = 1979-05-27\n").unwrap();
    assert_eq!(t.get("c").unwrap().get("d").unwrap().as_bool(), Some(true));
    assert_eq!(t.get("b").unwrap().as_array().unwrap().len(), 3);
    assert_eq!(t.get("b").unwrap().as_array().unwrap()[2].as_str(), Some("y"));
    assert!(t.get("x").is_none());
    assert!(t.get("c").unwrap().as_table().is_some());
    let err = parse("a = ").unwrap_err();
    assert!(!err.is_empty());
}

#[test]
fn texts_are_compared_and_ordered() {
    assert!(same("", "") && same("a\u{e9}\u{1f600}", "a\u{e9}\u{1f600}"));
    assert!(!same("ab", "abc") && !same("ab", "ba") && !same("\u{e9}", "e"));
    let texts = ["", "a", "ab", "b", "\u{e9}", "\u{ffff}", "\u{1f600}", "\u{1f600}a"];
    for (i, a) in texts.iter().enumerate() {
        for (j, b) in texts.iter().enumerate() {
            assert_eq!(text_before(a, b), i < j, "{a:?} {b:?}");
            assert_eq!(text_before(a, b), a < b);
            assert_eq!(same(a, b), i == j);
        }
    }
}

#[test]
fn positions_of_texts() {
    let p = Positions::of(&vec!["a", "b", "a", "", "a"]);
    assert_eq!((p.first("a"), p.last("a"), p.count("a")), (Some(0), Some(4), 3));
    assert_eq!((p.first("b"), p.last("b"), p.count("b")), (Some(1), Some(1), 1));
    assert_eq!((p.first(""), p.last(""), p.count("")), (Some(3), Some(3), 1));
    assert_eq!((p.first("c"), p.last("c"), p.count("c")), (None, None, 0));
}
