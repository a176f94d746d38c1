use hoshi::catalog::{Constellation, PackageMetadata};
use hoshi::search::{contains, eq_ignore_ascii_case, matches_query, search_packages, select_constellations};

fn meta(name: &str) -> PackageMetadata {
    PackageMetadata {
        name: name.to_string(),
        version: "1.0".to_string(),
        description: String::new(),
        download_url: String::new(),
        size_mb: 0,
        archive_type: "zip".to_string(),
        dependencies: None,
    }
}

fn source(name: &str) -> Constellation {
    Constellation { name: name.to_string(), metadata_url: format!("http://h/{}.json", name) }
}

#[test]
fn ascii_case_insensitive_equality() {
    assert!(eq_ignore_ascii_case("Hoshi-Core", "hoshi-core"));
    assert!(!eq_ignore_ascii_case("Hoshi-Core", "hoshi-cor"));
    assert!(eq_ignore_ascii_case("", ""));
}

#[test]
fn substring_search() {
    assert!(contains("telescope", "scope"));
    assert!(contains("telescope", ""));
    assert!(!contains("tele", "telescope"));
    assert!(!contains("telescope", "Scope"));
}

#[test]
fn query_matching() {
    assert!(matches_query("libfoo", "foo"));
    assert!(matches_query("FOO", "foo"));
    assert!(!matches_query("bar", "foo"));
}

#[test]
fn select_sources_by_name() {
    let cs = vec![source("Hoshi-Core"), source("Hoshi-Extra")];
    assert_eq!(select_constellations(&cs, Some("hoshi-extra")), vec![1]);
    assert_eq!(select_constellations(&cs, None), vec![0, 1]);
    assert!(select_constellations(&cs, Some("none")).is_empty());
}

#[test]
fn search_sorts_by_name() {
    let catalog = vec![meta("zeta-foo"), meta("bar"), meta("alpha-foo"), meta("FOO"), meta("alpha-foo")];
    assert_eq!(search_packages(&catalog, "foo"), vec![3, 2, 4, 0]);
    assert!(search_packages(&catalog, "qux").is_empty());
}
