use appdata_cleaner::reconcile::reconcile_scan;
use appdata_cleaner::scanner::{scan_root, total_size, FsNode, ScanEvent, encode_event,
    decode_event};
use appdata_cleaner::store::{InventoryStore, StoreError};

fn file(size: u64) -> FsNode {
    FsNode::File { size, readable: true }
}

fn dir(entries: Vec<(String, FsNode)>) -> FsNode {
    FsNode::Dir { entries, readable: true }
}

#[test]
fn empty_directory_yields_only_the_completion_marker() {
    let root = dir(vec![]);
    let events = scan_root(&root);
    assert_eq!(events.len(), 1);
    assert!(matches!(events[0], ScanEvent::Completed));
}

#[test]
fn unreadable_root_yields_one_terminal_error_event() {
    let root = FsNode::Dir { entries: vec![], readable: false };
    let events = scan_root(&root);
    assert_eq!(events.len(), 1);
    assert!(matches!(events[0], ScanEvent::Failed));
}

#[test]
fn child_with_unreadable_file_is_still_measured() {
    let child = dir(vec![
        ("ok.txt".to_string(), file(100)),
        ("secret.txt".to_string(), FsNode::File { size: 900, readable: false }),
    ]);
    let root = dir(vec![("child".to_string(), child)]);
    let events = scan_root(&root);
    assert_eq!(events.len(), 2);
    match &events[0] {
        ScanEvent::Measured { name, size } => {
            assert_eq!(name, "child");
            assert_eq!(*size, 100);
        },
        other => panic!("expected a measurement, got {:?}", kind_of(other)),
    }
    assert!(matches!(events[1], ScanEvent::Completed));
}

fn kind_of(e: &ScanEvent) -> &'static str {
    match e {
        ScanEvent::Measured { .. } => "Measured",
        ScanEvent::Completed => "Completed",
        ScanEvent::Failed => "Failed",
    }
}

#[test]
fn symlinks_and_unreadable_subtrees_count_as_zero() {
    let child = dir(vec![
        ("a".to_string(), file(7)),
        ("link".to_string(), FsNode::Symlink),
        ("blocked".to_string(), FsNode::Dir { entries: vec![("x".to_string(), file(50))], readable: false }),
    ]);
    assert_eq!(total_size(&child), 7);
}

#[test]
fn total_size_saturates_instead_of_overflowing() {
    let child = dir(vec![
        ("a".to_string(), file(u64::MAX)),
        ("b".to_string(), file(12)),
    ]);
    assert_eq!(total_size(&child), u64::MAX);
}

#[test]
fn channel_encoding_round_trips_measurements() {
    let event = ScanEvent::Measured { name: "folder".to_string(), size: 9 };
    let (name, size) = encode_event(&event);
    assert_eq!(name, "folder");
    assert_eq!(size, 9);
    match decode_event(name, size) {
        ScanEvent::Measured { name, size } => {
            assert_eq!(name, "folder");
            assert_eq!(size, 9);
        },
        _ => panic!("measurement did not round trip"),
    }
    let (done_name, done_size) = encode_event(&ScanEvent::Completed);
    assert!(matches!(decode_event(done_name, done_size), ScanEvent::Completed));
    let (err_name, err_size) = encode_event(&ScanEvent::Failed);
    assert!(matches!(decode_event(err_name, err_size), ScanEvent::Failed));
}

#[test]
fn rescan_records_new_folder_with_first_observation_time() {
    let mut store = InventoryStore::new();
    let first = vec![("alpha".to_string(), 10u64)];
    assert!(reconcile_scan(&mut store, "Roaming", &first, 100).is_ok());
    let second = vec![("alpha".to_string(), 11u64), ("fresh".to_string(), 5u64)];
    assert!(reconcile_scan(&mut store, "Roaming", &second, 200).is_ok());
    let rows = store.get_folders_by_type("Roaming");
    assert_eq!(rows.len(), 2);
    assert_eq!(rows[0].folder_name, "alpha");
    assert_eq!(rows[0].created_at, 100);
    assert_eq!(rows[0].folder_size, 11);
    assert_eq!(rows[1].folder_name, "fresh");
    assert_eq!(rows[1].created_at, 200);
    assert_eq!(rows[1].updated_at, 200);
}

#[test]
fn reconciliation_removes_the_vanished_folder_and_only_it() {
    let mut store = InventoryStore::new();
    let first = vec![
        ("alpha".to_string(), 10u64),
        ("beta".to_string(), 20u64),
        ("gamma".to_string(), 30u64),
    ];
    assert!(reconcile_scan(&mut store, "Roaming", &first, 100).is_ok());
    let second = vec![("alpha".to_string(), 10u64), ("gamma".to_string(), 31u64)];
    assert!(reconcile_scan(&mut store, "Roaming", &second, 200).is_ok());
    let rows = store.get_folders_by_type("Roaming");
    let names: Vec<&str> = rows.iter().map(|r| r.folder_name.as_str()).collect();
    assert_eq!(names, vec!["alpha", "gamma"]);
}

#[test]
fn reconcile_rejects_an_empty_folder_name_and_changes_nothing() {
    let mut store = InventoryStore::new();
    let first = vec![("alpha".to_string(), 10u64)];
    assert!(reconcile_scan(&mut store, "Roaming", &first, 100).is_ok());
    let bad = vec![("".to_string(), 1u64)];
    assert_eq!(reconcile_scan(&mut store, "Roaming", &bad, 200), Err(StoreError::Malformed));
    let rows = store.get_folders_by_type("Roaming");
    assert_eq!(rows.len(), 1);
    assert_eq!(rows[0].updated_at, 100);
}

#[test]
fn reconcile_of_one_category_leaves_the_others_alone() {
    let mut store = InventoryStore::new();
    let local = vec![("cache".to_string(), 50u64)];
    assert!(reconcile_scan(&mut store, "Local", &local, 100).is_ok());
    let roaming = vec![("alpha".to_string(), 10u64)];
    assert!(reconcile_scan(&mut store, "Roaming", &roaming, 200).is_ok());
    let local_rows = store.get_folders_by_type("Local");
    assert_eq!(local_rows.len(), 1);
    assert_eq!(local_rows[0].folder_size, 50);
}
