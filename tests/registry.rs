use hoshi::registry::{InstalledPackage, PackageRegistry};

fn pkg(name: &str, version: &str, path: &str) -> InstalledPackage {
    InstalledPackage {
        name: name.to_string(),
        version: version.to_string(),
        install_path: path.to_string(),
    }
}

#[test]
fn add_twice_keeps_one_entry() {
    let mut reg = PackageRegistry::new();
    reg.add(pkg("foo", "1.0", "/opt/foo/1.0"));
    reg.add(pkg("foo", "1.0", "/opt/foo/1.0"));
    let list = reg.list_packages();
    assert_eq!(list.len(), 1);
    assert_eq!(list[0].name, "foo");
    assert_eq!(list[0].version, "1.0");
}

#[test]
fn add_replaces_record_with_same_key() {
    let mut reg = PackageRegistry::new();
    reg.add(pkg("foo", "1.0", "/a"));
    reg.add(pkg("bar", "2.0", "/b"));
    reg.add(pkg("foo", "1.0", "/c"));
    let list = reg.list_packages();
    assert_eq!(list.len(), 2);
    assert_eq!(list[0].install_path, "/c");
    assert_eq!(list[1].name, "bar");
}

#[test]
fn several_versions_coexist() {
    let mut reg = PackageRegistry::new();
    reg.add(pkg("foo", "1.0", "/a"));
    reg.add(pkg("foo", "2.0", "/b"));
    assert_eq!(reg.list_packages().len(), 2);
}

#[test]
fn remove_without_version_takes_greatest_version() {
    let mut one = PackageRegistry::new();
    one.add(pkg("foo", "1.0", "/a"));
    one.add(pkg("foo", "2.0", "/b"));
    let mut two = PackageRegistry::new();
    two.add(pkg("foo", "2.0", "/b"));
    two.add(pkg("foo", "1.0", "/a"));
    assert_eq!(one.remove("foo", None).unwrap().version, "2.0");
    assert_eq!(two.remove("foo", None).unwrap().version, "2.0");
    let left = one.list_packages();
    assert_eq!(left.len(), 1);
    assert_eq!(left[0].version, "1.0");
    assert_eq!(two.list_packages()[0].version, "1.0");
}

#[test]
fn remove_without_version_compares_bytes() {
    let mut reg = PackageRegistry::new();
    reg.add(pkg("foo", "10.0", "/a"));
    reg.add(pkg("foo", "9.1", "/b"));
    reg.add(pkg("bar", "99", "/c"));
    assert_eq!(reg.remove("foo", None).unwrap().version, "9.1");
    assert_eq!(reg.remove("foo", None).unwrap().version, "10.0");
    assert!(reg.remove("foo", None).is_none());
}

#[test]
fn remove_with_version_is_exact() {
    let mut reg = PackageRegistry::new();
    reg.add(pkg("foo", "1.0", "/a"));
    reg.add(pkg("foo", "2.0", "/b"));
    let removed = reg.remove("foo", Some("2.0")).unwrap();
    assert_eq!(removed.install_path, "/b");
    assert!(reg.remove("foo", Some("3.0")).is_none());
    assert_eq!(reg.list_packages().len(), 1);
}

#[test]
fn remove_missing_name_changes_nothing() {
    let mut reg = PackageRegistry::new();
    reg.add(pkg("foo", "1.0", "/a"));
    assert!(reg.remove("bar", None).is_none());
    assert_eq!(reg.list_packages().len(), 1);
}

#[test]
fn entries_round_trip() {
    let mut reg = PackageRegistry::new();
    reg.add(pkg("foo", "1.0", "/a"));
    reg.add(pkg("bar", "2.0", "/b"));
    let back = PackageRegistry::from_entries(reg.entries()).unwrap();
    let a = reg.entries();
    let b = back.entries();
    assert_eq!(a.len(), b.len());
    for i in 0..a.len() {
        assert_eq!(a[i].name, b[i].name);
        assert_eq!(a[i].version, b[i].version);
        assert_eq!(a[i].install_path, b[i].install_path);
    }
}

#[test]
fn from_entries_rejects_duplicate_keys() {
    let entries = vec![pkg("foo", "1.0", "/a"), pkg("foo", "1.0", "/b")];
    assert!(PackageRegistry::from_entries(entries).is_none());
}

#[test]
fn empty_registry_lists_nothing() {
    assert!(PackageRegistry::new().list_packages().is_empty());
}
