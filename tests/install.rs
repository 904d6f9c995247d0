use manderrow::install::{
    cache_file_name, changes_to_preserve, expected_digest, merge_step, needs_fetch,
    preserve_action, CacheError, DestKind, MergeStep, Preserve, Removal,
};
use manderrow::scan::{ScanError, ScanReport, Status};

#[test]
fn cache_name_is_digest_with_zip() {
    let hex = "ab".repeat(32);
    assert_eq!(cache_file_name(&hex), format!("{hex}.zip"));
}

#[test]
fn expected_digest_reads_hex_of_either_case() {
    assert_eq!(expected_digest(&"ab".repeat(32)).unwrap(), [0xab; 32]);
    assert_eq!(expected_digest(&"AB".repeat(32)).unwrap(), [0xab; 32]);
    let mut hex = "00".repeat(31);
    hex.push_str("1f");
    let mut want = [0u8; 32];
    want[31] = 0x1f;
    assert_eq!(expected_digest(&hex).unwrap(), want);
}

#[test]
fn expected_digest_rejects_bad_input() {
    assert_eq!(expected_digest(&"a".repeat(63)).unwrap_err(), CacheError::InvalidDigest);
    assert_eq!(expected_digest(&"gg".repeat(32)).unwrap_err(), CacheError::InvalidDigest);
    assert_eq!(expected_digest("").unwrap_err(), CacheError::InvalidDigest);
}

#[test]
fn cache_hit_skips_fetch() {
    assert!(!needs_fetch(&[3; 32], &Some([3; 32])));
}

#[test]
fn corrupt_cache_triggers_refetch() {
    let mut corrupt = [3; 32];
    corrupt[5] ^= 1;
    assert!(needs_fetch(&[3; 32], &Some(corrupt)));
    assert!(needs_fetch(&[3; 32], &None));
}

#[test]
fn first_install_preserves_nothing() {
    let r = changes_to_preserve(Err(ScanError::IndexNotFoundError)).unwrap();
    assert!(r.is_none());
    let r = changes_to_preserve(Err(ScanError::InvalidIndexError));
    assert_eq!(r.unwrap_err(), ScanError::InvalidIndexError);
    let rep = ScanReport { changes: vec![(2, Status::Created)], deleted: vec![] };
    let kept = changes_to_preserve(Ok(rep)).unwrap().unwrap();
    assert_eq!(kept.changes, vec![(2, Status::Created)]);
}

#[test]
fn deleted_paths_are_removed_others_overlaid() {
    assert_eq!(preserve_action(Status::Deleted), Preserve::Remove);
    assert_eq!(preserve_action(Status::ContentModified), Preserve::Overlay);
    assert_eq!(preserve_action(Status::Created), Preserve::Overlay);
    assert_eq!(preserve_action(Status::UntrackablePath), Preserve::Overlay);
}

#[test]
fn merge_table_rows() {
    let step = |remove, create_dir, copy_file| MergeStep { remove, create_dir, copy_file };
    assert_eq!(merge_step(true, DestKind::Directory), step(Removal::Nothing, false, false));
    assert_eq!(merge_step(true, DestKind::FileLike), step(Removal::File, true, false));
    assert_eq!(merge_step(true, DestKind::Absent), step(Removal::Nothing, true, false));
    assert_eq!(merge_step(false, DestKind::Directory), step(Removal::DirectoryTree, false, true));
    assert_eq!(merge_step(false, DestKind::FileLike), step(Removal::Nothing, false, true));
    assert_eq!(merge_step(false, DestKind::Absent), step(Removal::Nothing, false, true));
}
