use hoshi::archive::{entry_name, entry_name_from, kind_from_declared, kind_from_extension, kind_from_path, zip_entry_is_dir, ArchiveError, ArchiveKind};
use hoshi::catalog::MergeError;
use hoshi::orchestrator::{
    download_file_name, install_dir, join_transfers, next_phase, record_run, RunEvent, RunPhase,
};
use hoshi::registry::{InstalledPackage, PackageRegistry};

fn pkg(name: &str, version: &str) -> InstalledPackage {
    InstalledPackage {
        name: name.to_string(),
        version: version.to_string(),
        install_path: format!("/base/{}/{}", name, version),
    }
}

#[test]
fn failed_transfer_leaves_registry_unchanged() {
    let mut reg = PackageRegistry::new();
    reg.add(pkg("old", "1"));
    let outcomes = vec![Ok(pkg("a", "1")), Err(MergeError::TransferFailed)];
    assert_eq!(record_run(&mut reg, outcomes), Err(MergeError::TransferFailed));
    let list = reg.list_packages();
    assert_eq!(list.len(), 1);
    assert_eq!(list[0].name, "old");
}

#[test]
fn successful_run_registers_all() {
    let mut reg = PackageRegistry::new();
    let outcomes = vec![Ok(pkg("a", "1")), Ok(pkg("b", "2"))];
    assert_eq!(record_run(&mut reg, outcomes), Ok(()));
    assert_eq!(reg.list_packages().len(), 2);
}

#[test]
fn join_reports_first_failure() {
    let r = join_transfers(vec![
        Ok("/t/a".to_string()),
        Err(MergeError::TransferFailed),
        Err(MergeError::ArchiveFailed),
    ]);
    assert_eq!(r, Err(MergeError::TransferFailed));
    let ok = join_transfers(vec![Ok("/t/a".to_string()), Ok("/t/b".to_string())]).unwrap();
    assert_eq!(ok, vec!["/t/a".to_string(), "/t/b".to_string()]);
}

#[test]
fn phases_follow_the_run() {
    let mut p = RunPhase::Resolving;
    p = next_phase(p, RunEvent::Resolved);
    assert_eq!(p, RunPhase::Confirmed);
    p = next_phase(p, RunEvent::Answered(true));
    assert_eq!(p, RunPhase::Downloading);
    p = next_phase(p, RunEvent::TransfersJoined(true));
    assert_eq!(p, RunPhase::Extracting);
    p = next_phase(p, RunEvent::ExtractionsFinished(true));
    assert_eq!(p, RunPhase::Registering);
    p = next_phase(p, RunEvent::RegistrySaved);
    assert_eq!(p, RunPhase::Done);
    assert_eq!(next_phase(RunPhase::Resolving, RunEvent::TargetMissing), RunPhase::Aborted);
    assert_eq!(next_phase(RunPhase::Confirmed, RunEvent::Answered(false)), RunPhase::Aborted);
    assert_eq!(next_phase(RunPhase::Downloading, RunEvent::TransfersJoined(false)), RunPhase::Aborted);
    assert_eq!(next_phase(RunPhase::Aborted, RunEvent::Resolved), RunPhase::Aborted);
}

#[test]
fn install_dir_joins_components() {
    assert_eq!(install_dir("./hoshi_packages", "foo", "1.2"), "./hoshi_packages/foo/1.2");
}

#[test]
fn download_name_from_url() {
    assert_eq!(download_file_name("http://h/x/foo-1.tar.gz", "foo", "1"), "foo-1.tar.gz");
    assert_eq!(download_file_name("nourl", "foo", "1"), "foo-1.archive");
}

#[test]
fn archive_dispatch_by_extension() {
    assert_eq!(kind_from_path("x.tar.gz"), Ok(ArchiveKind::TarGz));
    assert_eq!(kind_from_path("dir/x.zip"), Ok(ArchiveKind::Zip));
    assert_eq!(kind_from_path("a.b/x.tar"), Ok(ArchiveKind::Tar));
    assert_eq!(kind_from_path("x.tar.bz2"), Ok(ArchiveKind::TarBz2));
    assert_eq!(kind_from_path("x.tar.xz"), Ok(ArchiveKind::TarXz));
    assert_eq!(kind_from_path("x.rar"), Err(ArchiveError::UnsupportedFormat));
    assert_eq!(kind_from_path("a.zip/noext"), Err(ArchiveError::UnsupportedFormat));
    assert_eq!(kind_from_path(".zip"), Err(ArchiveError::UnsupportedFormat));
    assert_eq!(kind_from_path("x.tar/"), Ok(ArchiveKind::Tar));
    assert_eq!(kind_from_extension(Some("bz2")), Ok(ArchiveKind::TarBz2));
    assert_eq!(kind_from_extension(Some("tgz")), Err(ArchiveError::UnsupportedFormat));
    assert_eq!(kind_from_extension(None), Err(ArchiveError::UnsupportedFormat));
}

#[test]
fn declared_kind() {
    assert_eq!(kind_from_declared("zip"), Ok(ArchiveKind::Zip));
    assert_eq!(kind_from_declared("xz"), Ok(ArchiveKind::TarXz));
    assert_eq!(kind_from_declared("7z"), Err(ArchiveError::UnsupportedFormat));
}

#[test]
fn zip_directory_entries() {
    assert!(zip_entry_is_dir("docs/"));
    assert!(!zip_entry_is_dir("docs/readme.txt"));
    assert!(!zip_entry_is_dir(""));
}

#[test]
fn entry_names_relative_to_cwd() {
    assert_eq!(entry_name("/home/u/proj/src/a.rs", "/home/u/proj"), "src/a.rs");
    assert_eq!(entry_name("/home/u/proj/src/a.rs", "/home/u/proj/"), "src/a.rs");
    assert_eq!(entry_name("/home/u/project/a.rs", "/home/u/proj"), "/home/u/project/a.rs");
    assert_eq!(entry_name("/etc/hosts", "/home/u"), "/etc/hosts");
    assert_eq!(entry_name("rel/file", "/home/u"), "rel/file");
    assert_eq!(entry_name("/home/u/proj//src/a.rs", "/home/u/proj"), "src/a.rs");
    assert_eq!(entry_name("/home/u/proj///x", "/home/u/proj/"), "x");
    assert_eq!(entry_name("/home/u/proj", "/home/u/proj"), "");
    assert_eq!(entry_name("/a/./b", "/a"), "b");
    assert_eq!(entry_name("/a/b/", "/a"), "b");
}

#[test]
fn entry_name_falls_back_to_path() {
    assert_eq!(entry_name_from("/etc/hosts", None), "/etc/hosts");
    assert_eq!(entry_name_from("/a/b", Some("b".to_string())), "b");
}
