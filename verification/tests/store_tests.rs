use appdata_cleaner::store::{FolderRecord, InventoryStore, StoreError, RawRow};

fn record(folder_type: &str, name: &str, size: u64, when: i64) -> FolderRecord {
    FolderRecord {
        id: None,
        folder_type: folder_type.to_string(),
        folder_name: name.to_string(),
        folder_size: size,
        last_modified: when,
        created_at: when,
        updated_at: when,
    }
}

#[test]
fn upsert_inserts_then_updates_preserving_created_at() {
    let mut store = InventoryStore::new();
    store.upsert_folder(&record("Roaming", "alpha", 10, 100), 100);
    store.upsert_folder(&record("Roaming", "alpha", 25, 200), 200);
    let rows = store.get_folders_by_type("Roaming");
    assert_eq!(rows.len(), 1);
    assert_eq!(rows[0].folder_size, 25);
    assert_eq!(rows[0].created_at, 100);
    assert_eq!(rows[0].updated_at, 200);
    assert_eq!(rows[0].last_modified, 200);
}

#[test]
fn batch_upsert_is_idempotent_on_sizes_and_created_at() {
    let mut store = InventoryStore::new();
    let batch = vec![
        record("Roaming", "alpha", 10, 100),
        record("Roaming", "beta", 20, 100),
    ];
    assert!(store.batch_upsert_folders(&batch, 100).is_ok());
    let first = store.get_folders_by_type("Roaming");
    assert!(store.batch_upsert_folders(&batch, 300).is_ok());
    let second = store.get_folders_by_type("Roaming");
    assert_eq!(first.len(), 2);
    assert_eq!(second.len(), 2);
    for (a, b) in first.iter().zip(second.iter()) {
        assert_eq!(a.folder_name, b.folder_name);
        assert_eq!(a.folder_size, b.folder_size);
        assert_eq!(a.created_at, b.created_at);
        assert_eq!(b.updated_at, 300);
    }
}

#[test]
fn batch_upsert_rejects_malformed_and_writes_nothing() {
    let mut store = InventoryStore::new();
    store.upsert_folder(&record("Roaming", "alpha", 10, 100), 100);
    let batch = vec![
        record("Roaming", "beta", 20, 200),
        record("Roaming", "", 30, 200),
    ];
    assert_eq!(store.batch_upsert_folders(&batch, 200), Err(StoreError::Malformed));
    let rows = store.get_folders_by_type("Roaming");
    assert_eq!(rows.len(), 1);
    assert_eq!(rows[0].folder_name, "alpha");
    assert_eq!(rows[0].updated_at, 100);
}

#[test]
fn remove_missing_with_empty_listing_deletes_nothing() {
    let mut store = InventoryStore::new();
    store.upsert_folder(&record("Roaming", "alpha", 10, 100), 100);
    store.upsert_folder(&record("Roaming", "beta", 20, 100), 100);
    store.remove_missing_folders("Roaming", &Vec::new());
    assert_eq!(store.get_folders_by_type("Roaming").len(), 2);
}

#[test]
fn remove_missing_deletes_only_the_unobserved_of_that_category() {
    let mut store = InventoryStore::new();
    store.upsert_folder(&record("Roaming", "alpha", 10, 100), 100);
    store.upsert_folder(&record("Roaming", "beta", 20, 100), 100);
    store.upsert_folder(&record("Local", "beta", 30, 100), 100);
    store.remove_missing_folders("Roaming", &vec!["alpha".to_string()]);
    let roaming = store.get_folders_by_type("Roaming");
    assert_eq!(roaming.len(), 1);
    assert_eq!(roaming[0].folder_name, "alpha");
    let local = store.get_folders_by_type("Local");
    assert_eq!(local.len(), 1);
    assert_eq!(local[0].folder_name, "beta");
}

#[test]
fn get_folders_by_type_orders_by_name_ascending() {
    let mut store = InventoryStore::new();
    store.upsert_folder(&record("Roaming", "gamma", 1, 100), 100);
    store.upsert_folder(&record("Roaming", "alpha", 2, 100), 100);
    store.upsert_folder(&record("Roaming", "beta", 3, 100), 100);
    store.upsert_folder(&record("Local", "zeta", 4, 100), 100);
    let rows = store.get_folders_by_type("Roaming");
    let names: Vec<&str> = rows.iter().map(|r| r.folder_name.as_str()).collect();
    assert_eq!(names, vec!["alpha", "beta", "gamma"]);
}

#[test]
fn has_data_for_type_sees_only_its_category() {
    let mut store = InventoryStore::new();
    assert!(!store.has_data_for_type("Roaming"));
    store.upsert_folder(&record("Roaming", "alpha", 10, 100), 100);
    assert!(store.has_data_for_type("Roaming"));
    assert!(!store.has_data_for_type("Local"));
}

#[test]
fn get_stats_reports_count_and_latest_update() {
    let mut store = InventoryStore::new();
    let (count, label) = store.get_stats();
    assert_eq!(count, 0);
    assert_eq!(label, "no data");
    store.upsert_folder(&record("Roaming", "alpha", 10, 100), 1_700_000_000);
    store.upsert_folder(&record("Roaming", "beta", 20, 100), 1_700_000_500);
    let (count, label) = store.get_stats();
    assert_eq!(count, 2);
    let expected = chrono::DateTime::<chrono::Utc>::from_timestamp(1_700_000_500, 0)
        .unwrap()
        .to_rfc3339();
    assert_eq!(label, expected);
}

#[test]
fn load_from_rows_accepts_clean_rows() {
    let stamp = chrono::DateTime::<chrono::Utc>::from_timestamp(1_700_000_000, 0)
        .unwrap()
        .to_rfc3339();
    let rows = vec![RawRow {
        id: 1,
        folder_type: "Roaming".to_string(),
        folder_name: "alpha".to_string(),
        folder_size: 42,
        last_modified: stamp.clone(),
        created_at: stamp.clone(),
        updated_at: stamp.clone(),
    }];
    let store = InventoryStore::load_from_rows(&rows).expect("clean rows load");
    let loaded = store.get_folders_by_type("Roaming");
    assert_eq!(loaded.len(), 1);
    assert_eq!(loaded[0].folder_size, 42);
    assert_eq!(loaded[0].created_at, 1_700_000_000);
}

#[test]
fn load_from_rows_rejects_unparseable_timestamp_as_corrupt() {
    let rows = vec![RawRow {
        id: 1,
        folder_type: "Roaming".to_string(),
        folder_name: "alpha".to_string(),
        folder_size: 42,
        last_modified: "not a timestamp".to_string(),
        created_at: "not a timestamp".to_string(),
        updated_at: "not a timestamp".to_string(),
    }];
    assert_eq!(InventoryStore::load_from_rows(&rows).err(), Some(StoreError::Corrupt));
}

#[test]
fn load_from_rows_rejects_negative_size_as_corrupt() {
    let stamp = chrono::DateTime::<chrono::Utc>::from_timestamp(0, 0).unwrap().to_rfc3339();
    let rows = vec![RawRow {
        id: 1,
        folder_type: "Roaming".to_string(),
        folder_name: "alpha".to_string(),
        folder_size: -5,
        last_modified: stamp.clone(),
        created_at: stamp.clone(),
        updated_at: stamp,
    }];
    assert_eq!(InventoryStore::load_from_rows(&rows).err(), Some(StoreError::Corrupt));
}

#[test]
fn default_db_path_and_existence_probe() {
    assert_eq!(appdata_cleaner::get_default_db_path(), "appdata_cleaner.db");
    assert!(!appdata_cleaner::database_exists(
        "no_such_directory_here/certainly_no_such_database.db"
    ));
}
