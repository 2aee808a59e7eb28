use nono_guard::hash::ContentHash;
use nono_guard::snapshot::{
    latest_number, Change, ChangeType, ExclusionConfig, FileState, IncrementalError,
    SnapshotManager, SnapshotManifest,
};
use nono_guard::table::Table;

fn s(t: &str) -> String {
    String::from(t)
}

fn strings(v: &[&str]) -> Vec<String> {
    v.iter().map(|t| s(t)).collect()
}

fn state(size: u64) -> FileState {
    FileState { hash: ContentHash { bytes: [7; 32] }, size, mtime: -5, permissions: 0o644 }
}

fn manifest(number: u32) -> SnapshotManifest {
    let mut files: Table<FileState> = Table::new();
    files.insert(s("/w/a"), state(1));
    files.insert(s("/w/b"), state(2));
    SnapshotManifest {
        number,
        timestamp: s("1700000000"),
        parent: number.checked_sub(1),
        merkle_root: ContentHash { bytes: [9; 32] },
        files,
    }
}

#[test]
fn a_file_state_shows_octal_permissions() {
    let f = state(1234);
    assert_eq!(f.size(), 1234);
    assert_eq!(f.mtime(), -5);
    assert_eq!(f.permissions(), 0o644);
    assert!(f.hash().__eq__(&ContentHash { bytes: [7; 32] }));
    assert_eq!(f.__repr__(), "FileState(size=1234, permissions=644)");
}

#[test]
fn changes_are_told_by_their_texts() {
    let change = |change_type: ChangeType| Change {
        path: s("/w/a"),
        change_type,
        size_delta: Some(-3),
    };
    assert_eq!(change(ChangeType::Created).change_type(), "created");
    assert_eq!(change(ChangeType::Modified).change_type(), "modified");
    assert_eq!(change(ChangeType::Deleted).change_type(), "deleted");
    let c = change(ChangeType::PermissionsChanged);
    assert_eq!(c.change_type(), "permissions_changed");
    assert_eq!(c.path(), "/w/a");
    assert_eq!(c.size_delta(), Some(-3));
    assert_eq!(c.__repr__(), "Change(path='/w/a', type=permissions_changed)");
}

#[test]
fn a_manifest_is_copied_with_its_files() {
    let m = manifest(3);
    let c = m.copy();
    assert_eq!(c.number(), 3);
    assert_eq!(c.timestamp(), "1700000000");
    assert_eq!(c.parent(), Some(2));
    assert!(c.merkle_root().__eq__(&ContentHash { bytes: [9; 32] }));
    assert_eq!(c.files().len(), 2);
    assert_eq!(c.files().keys(), strings(&["/w/a", "/w/b"]));
    assert_eq!(c.files().get("/w/b").map(|f| f.size), Some(2));
    assert_eq!(c.__repr__(), "SnapshotManifest(number=3, files=2)");
}

#[test]
fn exclusions_are_kept_and_have_defaults() {
    let e = ExclusionConfig::new(
        false,
        strings(&["node_modules"]),
        strings(&["*.o", "*.tmp"]),
        strings(&["keep"]),
    );
    assert!(!e.use_gitignore());
    assert_eq!(e.exclude_patterns(), strings(&["node_modules"]));
    assert_eq!(e.exclude_globs(), strings(&["*.o", "*.tmp"]));
    assert_eq!(e.force_include(), strings(&["keep"]));
    assert_eq!(e.__repr__(), "ExclusionConfig(gitignore=false, patterns=1, globs=2)");
    let same = ExclusionConfig::or_default(Some(&e));
    assert_eq!(same.exclude_globs(), strings(&["*.o", "*.tmp"]));
    assert!(!same.use_gitignore());
    let d = ExclusionConfig::or_default(None);
    assert_eq!(d.__repr__(), "ExclusionConfig(gitignore=true, patterns=0, globs=0)");
    assert!(d.force_include().is_empty());
}

#[test]
fn the_latest_snapshot_has_the_greatest_number() {
    let names = strings(&["000.json", "002.json", "010.json", "9.json", "x.json", "11.txt", ".json"]);
    assert_eq!(latest_number(&names), Some(10));
    assert_eq!(latest_number(&strings(&["x.json", "json", "-1.json", "4294967296.json"])), None);
    assert_eq!(latest_number(&[]), None);
    assert_eq!(latest_number(&strings(&["+5.json", "4294967295.json"])), Some(u32::MAX));
    assert_eq!(latest_number(&strings(&["000.json"])), Some(0));
}

#[test]
fn names_of_snapshots_are_read_back() {
    for n in [0u32, 1, 12, 123, 1234, 999, u32::MAX] {
        assert_eq!(latest_number(&[format!("{:03}.json", n)]), Some(n));
    }
}

#[test]
fn a_new_session_needs_a_baseline() {
    let mut m = SnapshotManager::new(None);
    assert_eq!(m.snapshot_count(0), 0);
    assert_eq!(m.__repr__(0), "SnapshotManager(snapshots=0)");
    assert!(m.previous::<String>().is_err());
    let r = m.create_incremental::<String>(Ok((manifest(1), Vec::new())));
    match r {
        Err(e) => {
            assert_eq!(e.message(), Some("No previous snapshot. Call create_baseline() first."))
        }
        Ok(_) => panic!("no error"),
    }
    assert!(m.latest_manifest.is_none());
    let failed = m.create_baseline::<String>(Err(s("disk full")));
    assert!(matches!(failed, Err(e) if e == "disk full"));
    assert!(m.latest_manifest.is_none());
    let made = m.create_baseline::<String>(Ok(manifest(0)));
    assert!(matches!(made, Ok(b) if b.number() == 0));
    assert!(matches!(m.previous::<String>(), Ok(b) if b.number() == 0));
    assert_eq!(m.snapshot_count(1), 1);
    let change = Change { path: s("/w/a"), change_type: ChangeType::Modified, size_delta: None };
    let next = m.create_incremental::<String>(Ok((manifest(1), vec![change])));
    assert!(matches!(next, Ok((b, c)) if b.number() == 1 && c.len() == 1));
    let lost = m.create_incremental::<String>(Err(s("walk failed")));
    assert!(matches!(lost, Err(IncrementalError::Failed(e)) if e == "walk failed"));
    assert!(matches!(m.previous::<String>(), Ok(b) if b.number() == 1));
    assert_eq!(m.snapshot_count(2), 2);
    assert_eq!(m.__repr__(2), "SnapshotManager(snapshots=2)");
}

#[test]
fn a_resumed_session_knows_its_count() {
    let m = SnapshotManager::new(Some(manifest(4)));
    assert_eq!(m.snapshot_count(0), 5);
    assert_eq!(m.snapshot_count(6), 6);
    let m = SnapshotManager::new(Some(manifest(u32::MAX)));
    assert_eq!(m.snapshot_count(0), u32::MAX);
}
