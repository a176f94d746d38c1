use hoshi::catalog::{resolve, Constellation, MergeError, PackageMetadata};

fn meta(name: &str, deps: Option<Vec<&str>>) -> PackageMetadata {
    PackageMetadata {
        name: name.to_string(),
        version: "1.0".to_string(),
        description: String::new(),
        download_url: format!("http://host/{}.tar.gz", name),
        size_mb: 1,
        archive_type: "gz".to_string(),
        dependencies: deps.map(|d| d.into_iter().map(|s| s.to_string()).collect()),
    }
}

#[test]
fn resolution_skips_missing_dependency() {
    let catalog = vec![meta("X", Some(vec!["Y", "Z"])), meta("Y", Some(vec![]))];
    let res = resolve(&catalog, "X").unwrap();
    assert_eq!(res.selected, vec![0, 1]);
    assert_eq!(res.missing, vec!["Z".to_string()]);
}

#[test]
fn resolution_of_absent_target_is_not_found() {
    let catalog = vec![meta("Y", None)];
    assert_eq!(resolve(&catalog, "X").err(), Some(MergeError::NotFound));
}

#[test]
fn resolution_queues_each_dependency_once() {
    let catalog = vec![meta("A", Some(vec!["B", "B", "A"])), meta("B", None)];
    let res = resolve(&catalog, "A").unwrap();
    assert_eq!(res.selected, vec![0, 1]);
    assert!(res.missing.is_empty());
}

#[test]
fn resolution_takes_earliest_match() {
    let catalog = vec![meta("B", None), meta("A", Some(vec!["B"])), meta("A", None)];
    let res = resolve(&catalog, "A").unwrap();
    assert_eq!(res.selected, vec![1, 0]);
}

#[test]
fn default_constellation_list() {
    let c = Constellation::default_constellations();
    assert_eq!(c.len(), 1);
    assert_eq!(c[0].name, "Hoshi Core");
    assert_eq!(c[0].metadata_url, "http://localhost:8000/hoshi-core-constellation.json");
}

#[test]
fn search_constellation_list() {
    let c = Constellation::search_constellations();
    assert_eq!(c.len(), 2);
    assert_eq!(c[0].name, "Hoshi-Core");
    assert_eq!(c[1].name, "Hoshi-Extra");
    assert_eq!(c[1].metadata_url, "http://localhost:8000/hoshi-extra-constellation.json");
}
