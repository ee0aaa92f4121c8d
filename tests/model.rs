use zedex::catalog::{build_catalog, capability_queries, discover_capabilities, sort_by_downloads, Catalog};
use zedex::extension::{position_of, Extension, ExtensionVersionTracker};
use zedex::extensions_utils::filter_extensions;
use zedex::text::{
    chars_of, compare_chars, contains_chars, parse_i32, parse_u32, replace_all, split_str, str_eq,
};
use zedex::version::Version;
use std::cmp::Ordering;

fn ext(id: &str, version: &str, downloads: i32, provides: &[&str]) -> Extension {
    Extension {
        id: id.to_string(),
        name: format!("{} name", id),
        version: version.to_string(),
        description: String::new(),
        authors: vec!["someone".to_string()],
        repository: None,
        schema_version: 1,
        wasm_api_version: None,
        published_at: None,
        download_count: downloads,
        provides: provides.iter().map(|p| p.to_string()).collect(),
    }
}

fn ids(v: &[Extension]) -> Vec<String> {
    v.iter().map(|e| e.id.clone()).collect()
}

fn release(v: &str) -> Version {
    Version { version: v.to_string(), url: String::new(), api_url: None }
}

#[test]
fn parse_u32_accepts_plain_and_signed_digits() {
    assert_eq!(parse_u32(&chars_of("42")), Some(42));
    assert_eq!(parse_u32(&chars_of("+7")), Some(7));
    assert_eq!(parse_u32(&chars_of("4294967295")), Some(u32::MAX));
}

#[test]
fn parse_u32_rejects_malformed_or_large() {
    assert_eq!(parse_u32(&chars_of("")), None);
    assert_eq!(parse_u32(&chars_of("+")), None);
    assert_eq!(parse_u32(&chars_of("1a")), None);
    assert_eq!(parse_u32(&chars_of("-1")), None);
    assert_eq!(parse_u32(&chars_of("4294967296")), None);
}

#[test]
fn parse_i32_covers_its_range() {
    assert_eq!(parse_i32(&chars_of("-5")), Some(-5));
    assert_eq!(parse_i32(&chars_of("-2147483648")), Some(i32::MIN));
    assert_eq!(parse_i32(&chars_of("2147483647")), Some(i32::MAX));
    assert_eq!(parse_i32(&chars_of("2147483648")), None);
    assert_eq!(parse_i32(&chars_of("-")), None);
    assert_eq!(parse_i32(&chars_of("x")), None);
}

#[test]
fn split_keeps_empty_pieces() {
    assert_eq!(split_str("a,,b", ','), vec!["a", "", "b"]);
    assert_eq!(split_str("", ','), vec![""]);
    assert_eq!(split_str("abc", ','), vec!["abc"]);
    assert_eq!(split_str("a,", ','), vec!["a", ""]);
}

#[test]
fn substring_search_and_equality() {
    assert!(contains_chars(&chars_of("hello world"), &chars_of("o w")));
    assert!(contains_chars(&chars_of("abc"), &chars_of("")));
    assert!(!contains_chars(&chars_of("abc"), &chars_of("abcd")));
    assert!(str_eq("same", "same"));
    assert!(!str_eq("same", "Same"));
}

#[test]
fn lexicographic_order_of_strings() {
    assert_eq!(compare_chars(&chars_of("0.10.0"), &chars_of("0.2.0")), Ordering::Less);
    assert_eq!(compare_chars(&chars_of("ab"), &chars_of("a")), Ordering::Greater);
    assert_eq!(compare_chars(&chars_of("ab"), &chars_of("ab")), Ordering::Equal);
}

#[test]
fn replace_every_occurrence() {
    let r = replace_all("https://zed.dev/a?b=https://zed.dev", "https://zed.dev", "http://mirror");
    assert_eq!(r, "http://mirror/a?b=http://mirror");
    assert_eq!(replace_all("aaa", "aa", "b"), "ba");
    assert_eq!(replace_all("none here", "xyz", "q"), "none here");
}

#[test]
fn text_filter_folds_case_of_both_sides() {
    let mut e = ext("MiXeD", "1", 0, &[]);
    e.name = "ÄPFEL Tools".to_string();
    let all = vec![e];
    assert_eq!(ids(&filter_extensions(&all, Some("mixed"), None, None)), vec!["MiXeD"]);
    assert_eq!(ids(&filter_extensions(&all, Some("äpfel"), None, None)), vec!["MiXeD"]);
    assert!(filter_extensions(&all, Some("zzz"), None, None).is_empty());
}

#[test]
fn semver_triple_of_release_versions() {
    assert_eq!(release("0.187.8").parse_semver(), Some((0, 187, 8)));
    assert_eq!(release("1.2.3.4").parse_semver(), Some((1, 2, 3)));
    assert_eq!(release("1.2").parse_semver(), None);
    assert_eq!(release("1.x.3").parse_semver(), None);
}

#[test]
fn release_versions_compare_numerically() {
    assert_eq!(release("1.10.0").compare(&release("1.2.0")), Ordering::Greater);
    assert_eq!(release("0.9.9").compare(&release("1.0.0")), Ordering::Less);
    assert_eq!(release("2.0.0").compare(&release("2.0.0")), Ordering::Equal);
    assert!(release("1.2.0") < release("1.10.0"));
}

#[test]
fn release_versions_fall_back_to_string_order() {
    assert_eq!(release("beta").compare(&release("alpha")), Ordering::Greater);
    assert_eq!(release("1.10").compare(&release("1.9")), Ordering::Less);
    assert_eq!(release("1.2.3").compare(&release("nightly")), Ordering::Less);
}

#[test]
fn release_versions_equal_by_version_string() {
    let a = Version { version: "1.0.0".to_string(), url: "x".to_string(), api_url: None };
    let b = Version { version: "1.0.0".to_string(), url: "y".to_string(), api_url: Some("z".to_string()) };
    assert!(a == b);
    assert!(a != release("1.0.1"));
}

#[test]
fn tracker_merge_is_last_write_wins() {
    let tracker_of = |v: &str| {
        let mut t = ExtensionVersionTracker::new();
        t.update_extension(&ext("a", v, 0, &[]));
        t
    };
    let mut forward = ExtensionVersionTracker::new();
    forward.merge(tracker_of("1"));
    forward.merge(tracker_of("2"));
    assert_eq!(forward.get("a"), Some("2".to_string()));
    assert_eq!(forward.entries().len(), 1);

    let mut backward = ExtensionVersionTracker::new();
    backward.merge(tracker_of("2"));
    backward.merge(tracker_of("1"));
    assert_eq!(backward.get("a"), Some("1".to_string()));
}

#[test]
fn tracker_has_newer_version() {
    let mut t = ExtensionVersionTracker::new();
    assert!(t.has_newer_version(&ext("absent", "1.0.0", 0, &[])));
    t.update_extension(&ext("x", "1.0.0", 0, &[]));
    assert!(!t.has_newer_version(&ext("x", "1.0.0", 0, &[])));
    assert!(t.has_newer_version(&ext("x", "1.0.1", 0, &[])));
    assert!(t.has_newer_version(&ext("x", "1.0", 0, &[])));
}

#[test]
fn tracker_update_replaces_and_lists_each_id_once() {
    let mut t = ExtensionVersionTracker::new();
    t.update_extension(&ext("x", "1", 0, &[]));
    t.update_extension(&ext("y", "1", 0, &[]));
    t.update_extension(&ext("x", "3", 0, &[]));
    let mut entries = t.entries();
    entries.sort();
    assert_eq!(entries, vec![("x".to_string(), "3".to_string()), ("y".to_string(), "1".to_string())]);
    assert_eq!(t.get("z"), None);
}

#[test]
fn capability_lookup() {
    let e = ext("lang", "1", 0, &["languages", "grammars"]);
    assert!(e.provides_capability("grammars"));
    assert!(!e.provides_capability("themes"));
    assert!(!e.provides_capability(""));
}

#[test]
fn filter_by_text_ignores_case() {
    let mut a = ext("rust", "1", 0, &[]);
    a.description = "Rust Language Support".to_string();
    let b = ext("python", "1", 0, &[]);
    let all = vec![a, b];
    assert_eq!(ids(&filter_extensions(&all, Some("LANGUAGE"), None, None)), vec!["rust"]);
    assert_eq!(ids(&filter_extensions(&all, Some("PYTH"), None, None)), vec!["python"]);
    assert_eq!(ids(&filter_extensions(&all, Some(""), None, None)), vec!["rust", "python"]);
    assert_eq!(ids(&filter_extensions(&all, None, None, None)), vec!["rust", "python"]);
}

#[test]
fn filter_by_schema_and_capability() {
    let mut old = ext("old", "1", 0, &["themes"]);
    old.schema_version = 0;
    let mut new = ext("new", "1", 0, &["languages"]);
    new.schema_version = 2;
    let all = vec![old, new];
    assert_eq!(ids(&filter_extensions(&all, None, Some(1), None)), vec!["old"]);
    assert_eq!(ids(&filter_extensions(&all, None, None, Some("languages"))), vec!["new"]);
    assert_eq!(ids(&filter_extensions(&all, None, None, Some(""))), vec!["old", "new"]);
    assert!(filter_extensions(&all, None, Some(1), Some("languages")).is_empty());
}

#[test]
fn catalog_is_sorted_by_downloads() {
    let fetched = vec![ext("a", "1", 5, &[]), ext("b", "1", 50, &[]), ext("c", "1", 5, &[]), ext("d", "1", 7, &[])];
    let sorted = build_catalog(vec![fetched]);
    assert_eq!(ids(&sorted), vec!["b", "d", "a", "c"]);
    for w in sorted.windows(2) {
        assert!(w[0].download_count >= w[1].download_count);
    }
}

#[test]
fn catalog_later_fetch_wins() {
    let first = vec![ext("a", "1", 1, &[]), ext("b", "1", 2, &[])];
    let second = vec![ext("a", "2", 9, &[])];
    let r = build_catalog(vec![first, second]);
    assert_eq!(ids(&r), vec!["a", "b"]);
    assert_eq!(r[0].version, "2");
}

#[test]
fn catalog_merge_twice_equals_once() {
    let fetch = || vec![ext("a", "1", 3, &[]), ext("b", "1", 4, &[]), ext("a", "2", 1, &[])];
    let mut once = Catalog::new();
    once.insert(ext("c", "1", 2, &[]));
    once.merge_fetch(fetch());
    let mut twice = Catalog::new();
    twice.insert(ext("c", "1", 2, &[]));
    twice.merge_fetch(fetch());
    twice.merge_fetch(fetch());
    let a = once.into_sorted();
    let b = twice.into_sorted();
    assert_eq!(ids(&a), ids(&b));
    let va: Vec<String> = a.iter().map(|e| e.version.clone()).collect();
    let vb: Vec<String> = b.iter().map(|e| e.version.clone()).collect();
    assert_eq!(va, vb);
    assert_eq!(ids(&a), vec!["b", "c", "a"]);
}

#[test]
fn sort_keeps_equal_counts_in_order() {
    let v = vec![ext("x", "1", 1, &[]), ext("y", "1", 1, &[]), ext("z", "1", 2, &[])];
    assert_eq!(ids(&sort_by_downloads(v)), vec!["z", "x", "y"]);
    assert!(sort_by_downloads(Vec::new()).is_empty());
}

#[test]
fn capabilities_are_discovered_once_each() {
    let v = vec![ext("a", "1", 0, &["languages", "grammars"]), ext("b", "1", 0, &["grammars", "themes"])];
    assert_eq!(discover_capabilities(&v), vec!["languages", "grammars", "themes"]);
    assert_eq!(capability_queries(&Vec::new(), &v), vec!["languages", "grammars", "themes"]);
    assert_eq!(capability_queries(&vec!["themes".to_string()], &v), vec!["themes"]);
}

#[test]
fn lookup_by_id_finds_first() {
    let v = vec![ext("a", "1", 0, &[]), ext("b", "1", 0, &[]), ext("b", "2", 0, &[])];
    assert_eq!(position_of(&v, "b"), Some(1));
    assert_eq!(position_of(&v, "c"), None);
    assert_eq!(position_of(&Vec::new(), "a"), None);
}
