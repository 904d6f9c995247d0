use manderrow::builder::{build_index, BuildError};
use manderrow::index::{Index, IndexEntryV1, IndexPath, INDEX_FILE_NAME};
use manderrow::scan::{
    digest_needed, scan_installed_package_for_changes, FsKind, ManifestRead, ScanError, Status, TargetKind,
    WalkEntry,
};

fn path(parts: &[&str]) -> IndexPath {
    IndexPath(parts.iter().map(|s| s.to_string()).collect())
}

fn file(depth: usize, parts: &[&str], byte: u8) -> WalkEntry {
    WalkEntry { depth, path: Some(path(parts)), kind: FsKind::File { hash: [byte; 32] } }
}

fn dir(depth: usize, parts: &[&str]) -> WalkEntry {
    WalkEntry { depth, path: Some(path(parts)), kind: FsKind::Directory }
}

fn link(depth: usize, parts: &[&str], target: &str, in_root: Option<&str>) -> WalkEntry {
    WalkEntry {
        depth,
        path: Some(path(parts)),
        kind: FsKind::Symlink {
            target: Some(target.to_string()),
            target_in_root: in_root.map(|s| s.to_string()),
        },
    }
}

fn manifest_entry() -> WalkEntry {
    file(1, &[INDEX_FILE_NAME], 9)
}

/// The package of the scenarios: `a.txt` and `sub/b.txt`.
fn package() -> Vec<WalkEntry> {
    vec![file(1, &["a.txt"], 1), dir(1, &["sub"]), file(2, &["sub", "b.txt"], 2)]
}

fn installed_index() -> Index {
    build_index(&package()).unwrap()
}

fn scan(entries: &Vec<WalkEntry>) -> (Vec<(usize, Status)>, Vec<Vec<String>>) {
    let rep = scan_installed_package_for_changes(
        TargetKind::Directory,
        ManifestRead::Loaded(installed_index()),
        entries,
    )
    .unwrap();
    (rep.changes, rep.deleted.into_iter().map(|p| p.0).collect())
}

#[test]
fn fresh_install_builds_index() {
    let idx = installed_index();
    let Index::V1(records) = &idx;
    assert_eq!(records.len(), 3);
    assert!(matches!(idx.get(&path(&["a.txt"])), Some(IndexEntryV1::File { hash }) if *hash == [1; 32]));
    assert!(matches!(idx.get(&path(&["sub"])), Some(IndexEntryV1::Directory)));
    assert!(matches!(idx.get(&path(&["sub", "b.txt"])), Some(IndexEntryV1::File { hash }) if *hash == [2; 32]));
    assert!(idx.get(&path(&["b.txt"])).is_none());
}

#[test]
fn reinstall_without_changes_scans_clean() {
    let mut entries = package();
    entries.insert(0, manifest_entry());
    let (changes, deleted) = scan(&entries);
    assert!(changes.is_empty());
    assert!(deleted.is_empty());
}

#[test]
fn user_edit_is_content_modified() {
    let mut entries = package();
    entries[0] = file(1, &["a.txt"], 7);
    let (changes, deleted) = scan(&entries);
    assert_eq!(changes, vec![(0, Status::ContentModified)]);
    assert!(deleted.is_empty());
}

#[test]
fn user_created_file_is_created() {
    let mut entries = package();
    entries.insert(1, file(1, &["notes.md"], 5));
    let (changes, deleted) = scan(&entries);
    assert_eq!(changes, vec![(1, Status::Created)]);
    assert!(deleted.is_empty());
}

#[test]
fn created_directory_is_one_status() {
    let mut entries = package();
    entries.push(dir(1, &["extra"]));
    entries.push(file(2, &["extra", "x"], 3));
    entries.push(dir(2, &["extra", "y"]));
    entries.push(file(3, &["extra", "y", "z"], 3));
    let (changes, deleted) = scan(&entries);
    assert_eq!(changes, vec![(3, Status::Created)]);
    assert!(deleted.is_empty());
}

#[test]
fn deleted_directory_yields_one_status() {
    let entries = vec![file(1, &["a.txt"], 1)];
    let (changes, deleted) = scan(&entries);
    assert!(changes.is_empty());
    assert_eq!(deleted, vec![vec!["sub".to_string()]]);
}

#[test]
fn deleted_file_is_reported() {
    let entries = vec![dir(1, &["sub"]), file(2, &["sub", "b.txt"], 2)];
    let (changes, deleted) = scan(&entries);
    assert!(changes.is_empty());
    assert_eq!(deleted, vec![vec!["a.txt".to_string()]]);
}

#[test]
fn missing_target_is_index_not_found() {
    let r = scan_installed_package_for_changes(TargetKind::Missing, ManifestRead::Absent, &vec![]);
    assert_eq!(r.unwrap_err(), ScanError::IndexNotFoundError);
}

#[test]
fn target_that_is_a_file_is_refused() {
    let r = scan_installed_package_for_changes(TargetKind::NotADirectory, ManifestRead::Absent, &vec![]);
    assert_eq!(r.unwrap_err(), ScanError::NotADirectory);
}

#[test]
fn unreadable_and_malformed_manifests_are_errors() {
    let r = scan_installed_package_for_changes(TargetKind::Directory, ManifestRead::Unreadable, &package());
    assert_eq!(r.unwrap_err(), ScanError::ReadIndexError);
    let r = scan_installed_package_for_changes(TargetKind::Directory, ManifestRead::Malformed, &package());
    assert_eq!(r.unwrap_err(), ScanError::InvalidIndexError);
}

#[test]
fn absent_manifest_makes_everything_created() {
    let rep = scan_installed_package_for_changes(TargetKind::Directory, ManifestRead::Absent, &package())
        .unwrap();
    assert_eq!(rep.changes, vec![(0, Status::Created), (1, Status::Created)]);
    assert!(rep.deleted.is_empty());
}

#[test]
fn file_replaced_by_directory_is_type_changed() {
    let entries = vec![
        dir(1, &["a.txt"]),
        file(2, &["a.txt", "inner"], 4),
        dir(1, &["sub"]),
        file(2, &["sub", "b.txt"], 2),
    ];
    let (changes, deleted) = scan(&entries);
    assert_eq!(changes, vec![(0, Status::TypeChanged)]);
    assert!(deleted.is_empty());
}

#[test]
fn directory_replaced_by_file_is_type_changed() {
    let entries = vec![file(1, &["a.txt"], 1), file(1, &["sub"], 6)];
    let (changes, deleted) = scan(&entries);
    assert_eq!(changes, vec![(1, Status::TypeChanged)]);
    assert_eq!(deleted, vec![vec!["sub".to_string(), "b.txt".to_string()]]);
}

#[test]
fn untrackable_directory_is_one_status() {
    let mut entries = package();
    entries.push(WalkEntry { depth: 1, path: None, kind: FsKind::Directory });
    entries.push(WalkEntry { depth: 2, path: None, kind: FsKind::File { hash: [0; 32] } });
    let (changes, _) = scan(&entries);
    assert_eq!(changes, vec![(3, Status::UntrackablePath)]);
}

#[test]
fn link_naming_recorded_target_is_reported() {
    let shipped = vec![file(1, &["b.txt"], 2), link(1, &["l"], "b.txt", None)];
    let idx = build_index(&shipped).unwrap();
    assert!(matches!(idx.get(&path(&["l"])), Some(IndexEntryV1::Symlink { target }) if target == "b.txt"));
    let now = vec![file(1, &["b.txt"], 2), link(1, &["l"], "/t/pkg/b.txt", Some("b.txt"))];
    let rep = scan_installed_package_for_changes(TargetKind::Directory, ManifestRead::Loaded(idx), &now)
        .unwrap();
    assert_eq!(rep.changes, vec![(1, Status::LinkTargetChanged)]);
}

#[test]
fn link_naming_other_target_is_not_reported() {
    let shipped = vec![file(1, &["b.txt"], 2), link(1, &["l"], "b.txt", None)];
    let idx = build_index(&shipped).unwrap();
    let now = vec![file(1, &["b.txt"], 2), link(1, &["l"], "c.txt", None)];
    let rep = scan_installed_package_for_changes(TargetKind::Directory, ManifestRead::Loaded(idx), &now)
        .unwrap();
    assert!(rep.changes.is_empty());
}

#[test]
fn link_replaced_by_file_is_type_changed() {
    let shipped = vec![link(1, &["l"], "x", None)];
    let idx = build_index(&shipped).unwrap();
    let now = vec![file(1, &["l"], 2)];
    let rep = scan_installed_package_for_changes(TargetKind::Directory, ManifestRead::Loaded(idx), &now)
        .unwrap();
    assert_eq!(rep.changes, vec![(0, Status::TypeChanged)]);
}

#[test]
fn build_rejects_untextual_path() {
    let mut entries = package();
    entries.push(WalkEntry { depth: 1, path: None, kind: FsKind::File { hash: [0; 32] } });
    assert_eq!(build_index(&entries).unwrap_err(), BuildError::UnsupportedPath);
}

#[test]
fn build_rejects_untextual_link_and_other_types() {
    let entries = vec![WalkEntry {
        depth: 1,
        path: Some(path(&["l"])),
        kind: FsKind::Symlink { target: None, target_in_root: None },
    }];
    assert_eq!(build_index(&entries).unwrap_err(), BuildError::UnsupportedLinkTarget);
    let entries = vec![WalkEntry { depth: 1, path: Some(path(&["fifo"])), kind: FsKind::Other }];
    assert_eq!(build_index(&entries).unwrap_err(), BuildError::UnsupportedFileType);
}

#[test]
fn build_records_link_relative_to_root() {
    let entries = vec![link(1, &["l"], "/t/pkg/a", Some("a")), link(1, &["m"], "/elsewhere", None)];
    let idx = build_index(&entries).unwrap();
    assert!(matches!(idx.get(&path(&["l"])), Some(IndexEntryV1::Symlink { target }) if target == "a"));
    assert!(matches!(idx.get(&path(&["m"])), Some(IndexEntryV1::Symlink { target }) if target == "/elsewhere"));
}

#[test]
fn empty_package_scans_clean() {
    let idx = build_index(&vec![]).unwrap();
    let rep = scan_installed_package_for_changes(TargetKind::Directory, ManifestRead::Loaded(idx), &vec![])
        .unwrap();
    assert!(rep.changes.is_empty() && rep.deleted.is_empty());
}

#[test]
fn path_from_components() {
    let p = IndexPath::from_components(vec![Some("a".to_string()), Some("b".to_string())]).unwrap();
    assert_eq!(p.0, vec!["a".to_string(), "b".to_string()]);
    assert!(IndexPath::from_components(vec![Some("a".to_string()), None]).is_none());
    assert!(path(&[INDEX_FILE_NAME]).is_index_file());
    assert!(!path(&["sub", INDEX_FILE_NAME]).is_index_file());
    assert!(path(&["a", "b"]).same(&path(&["a", "b"])));
    assert!(!path(&["a", "b"]).same(&path(&["a"])));
}

#[test]
fn build_leaves_out_manifest_file() {
    let mut entries = package();
    entries.insert(1, manifest_entry());
    let idx = build_index(&entries).unwrap();
    let Index::V1(records) = &idx;
    assert_eq!(records.len(), 3);
    assert!(idx.get(&path(&[INDEX_FILE_NAME])).is_none());
    assert!(idx.get(&path(&["a.txt"])).is_some());
}

#[test]
fn build_records_a_path_once() {
    let entries = vec![file(1, &["a.txt"], 1), file(1, &["a.txt"], 2)];
    let idx = build_index(&entries).unwrap();
    let Index::V1(records) = &idx;
    assert_eq!(records.len(), 1);
    assert!(matches!(idx.get(&path(&["a.txt"])), Some(IndexEntryV1::File { hash }) if *hash == [1; 32]));
}

#[test]
fn digest_needed_only_for_recorded_files() {
    let idx = installed_index();
    assert!(digest_needed(&idx, &path(&["a.txt"])));
    assert!(digest_needed(&idx, &path(&["sub", "b.txt"])));
    assert!(!digest_needed(&idx, &path(&["sub"])));
    assert!(!digest_needed(&idx, &path(&["notes.md"])));
    assert!(!digest_needed(&idx, &path(&[INDEX_FILE_NAME])));
}

#[test]
fn created_file_with_unread_digest_is_created() {
    let mut entries = package();
    entries.push(WalkEntry { depth: 1, path: Some(path(&["new.bin"])), kind: FsKind::File { hash: [0; 32] } });
    let (changes, deleted) = scan(&entries);
    assert_eq!(changes, vec![(3, Status::Created)]);
    assert!(deleted.is_empty());
}
