use appdata_cleaner::clear_tab::{AppDataCleaner, ClearTabState};
use appdata_cleaner::descriptions::{create_default_descriptions, FolderDescriptions, YamlEditor};
use appdata_cleaner::utils::{format_size, get_appdata_dir};

#[test]
fn format_size_renders_exact_values() {
    assert_eq!(format_size(0), "0.00 B");
    assert_eq!(format_size(512), "512.00 B");
    assert_eq!(format_size(1023), "1023.00 B");
    assert_eq!(format_size(1024), "1.00 KB");
    assert_eq!(format_size(1536), "1.50 KB");
    assert_eq!(format_size(1048576), "1.00 MB");
    assert_eq!(format_size(1073741824), "1.00 GB");
    assert_eq!(format_size(1099511627776), "1.00 TB");
    assert_eq!(format_size(2966521462784), "2.70 TB");
}

#[test]
fn category_resolution_handles_custom_and_unknown_tokens() {
    assert_eq!(get_appdata_dir("Custom:/srv/data"), Some("/srv/data".to_string()));
    assert_eq!(
        get_appdata_dir("LocalLow"),
        Some("C:/Users/Default/AppData/LocalLow".to_string())
    );
    assert_eq!(get_appdata_dir("Bogus"), None);
    assert_eq!(get_appdata_dir("Custom:"), Some("".to_string()));
}

#[test]
fn scan_lifecycle_collects_folders_until_the_marker() {
    let mut tab = ClearTabState::new();
    assert!(!tab.is_scanning);
    assert!(tab.begin_scan());
    assert!(tab.is_scanning);
    assert!(!tab.begin_scan());
    tab.apply_scan_message("alpha".to_string(), 10);
    tab.apply_scan_message("beta".to_string(), 30);
    assert_eq!(tab.folder_data.len(), 2);
    tab.apply_scan_message("__SCAN_COMPLETE__".to_string(), 0);
    assert!(!tab.is_scanning);
    assert_eq!(tab.status.as_deref(), Some("scan complete"));
    assert_eq!(tab.folder_data.len(), 2);
}

#[test]
fn failed_scan_reports_and_keeps_partial_data() {
    let mut tab = ClearTabState::new();
    assert!(tab.begin_scan());
    tab.apply_scan_message("__SCAN_ERROR__".to_string(), 0);
    assert!(!tab.is_scanning);
    assert_eq!(tab.status.as_deref(), Some("scan failed"));
}

#[test]
fn switching_category_resets_the_listing() {
    let mut tab = ClearTabState::new();
    assert!(tab.begin_scan());
    tab.apply_scan_message("alpha".to_string(), 10);
    tab.set_selected_appdata_folder("Local".to_string());
    assert_eq!(tab.selected_appdata_folder, "Local");
    assert!(tab.folder_data.is_empty());
    assert!(!tab.is_scanning);
    assert_eq!(tab.status.as_deref(), Some("not scanned"));
}

fn listed(tab: &ClearTabState) -> Vec<(String, u64)> {
    tab.folder_data.clone()
}

#[test]
fn sorting_follows_criterion_and_order() {
    let mut tab = ClearTabState::new();
    tab.folder_data = vec![
        ("beta".to_string(), 30),
        ("alpha".to_string(), 10),
        ("gamma".to_string(), 20),
    ];
    tab.sort_criterion = Some("name".to_string());
    tab.sort_order = Some("asc".to_string());
    tab.sort_folder_data();
    assert_eq!(
        listed(&tab),
        vec![
            ("alpha".to_string(), 10),
            ("beta".to_string(), 30),
            ("gamma".to_string(), 20)
        ]
    );
    tab.sort_order = Some("desc".to_string());
    tab.sort_folder_data();
    assert_eq!(listed(&tab)[0].0, "gamma");
    tab.sort_criterion = Some("size".to_string());
    tab.sort_order = Some("asc".to_string());
    tab.sort_folder_data();
    assert_eq!(listed(&tab)[0].1, 10);
    tab.sort_order = Some("desc".to_string());
    tab.sort_folder_data();
    assert_eq!(listed(&tab)[0].1, 30);
}

#[test]
fn unsorted_listing_keeps_arrival_order() {
    let mut tab = ClearTabState::new();
    tab.folder_data = vec![("beta".to_string(), 30), ("alpha".to_string(), 10)];
    tab.sort_folder_data();
    assert_eq!(listed(&tab)[0].0, "beta");
}

#[test]
fn total_size_sums_the_listing() {
    let mut tab = ClearTabState::new();
    tab.folder_data = vec![("a".to_string(), 10), ("b".to_string(), 32)];
    tab.compute_total_size();
    assert_eq!(tab.total_size, 42);
}

#[test]
fn ignoring_a_folder_twice_stores_it_once() {
    let mut tab = ClearTabState::new();
    tab.ignore_folder("alpha".to_string());
    tab.ignore_folder("alpha".to_string());
    tab.ignore_folder("beta".to_string());
    assert_eq!(tab.ignored_folders, vec!["alpha".to_string(), "beta".to_string()]);
}

#[test]
fn requesting_a_delete_arms_the_confirmation() {
    let mut tab = ClearTabState::new();
    tab.request_delete("alpha".to_string());
    assert_eq!(tab.confirm_delete, Some(("alpha".to_string(), false)));
    assert!(tab.status.is_none());
}

#[test]
fn descriptions_update_and_read_back() {
    let mut doc = create_default_descriptions();
    assert!(doc.update_description("alpha", "Roaming", "app settings".to_string()).is_ok());
    assert_eq!(
        doc.get_description("alpha", "Roaming"),
        Some("app settings".to_string())
    );
    assert_eq!(doc.get_description("alpha", "Local"), None);
    assert_eq!(doc.get_description("missing", "Roaming"), None);
    assert!(doc.update_description("alpha", "Nowhere", "x".to_string()).is_err());
    // replacing is in place, not appended
    assert!(doc.update_description("alpha", "Roaming", "newer text".to_string()).is_ok());
    assert_eq!(doc.get_description("alpha", "Roaming"), Some("newer text".to_string()));
    assert_eq!(doc.Roaming.len(), 1);
}

#[test]
fn editor_saves_non_blank_descriptions_only() {
    let mut editor = YamlEditor::new();
    assert_eq!(editor.save_description("alpha", "Roaming", "   ".to_string()), None);
    assert!(editor.folder_descriptions.is_none());
    let status = editor.save_description("alpha", "Roaming", "useful".to_string());
    assert_eq!(status.as_deref(), Some("description updated"));
    let doc = editor.folder_descriptions.as_ref().unwrap();
    assert_eq!(doc.get_description("alpha", "Roaming"), Some("useful".to_string()));
    let bad = editor.save_description("alpha", "Nowhere", "text".to_string());
    assert_eq!(bad.as_deref(), Some("invalid folder type"));
}

#[test]
fn editor_opens_with_the_current_description() {
    let mut editor = YamlEditor::new();
    editor.open_description_editor("alpha", "current text");
    assert_eq!(
        editor.edit_description,
        Some(("alpha".to_string(), "current text".to_string()))
    );
}

#[test]
fn cloned_description_documents_are_independent() {
    let mut doc = create_default_descriptions();
    assert!(doc.update_description("alpha", "Local", "cache".to_string()).is_ok());
    let copy: FolderDescriptions = doc.clone();
    assert_eq!(copy.get_description("alpha", "Local"), Some("cache".to_string()));
}

#[test]
fn app_state_starts_on_the_home_tab() {
    let app = AppDataCleaner::new();
    assert_eq!(app.current_tab, "home");
    assert!(app.dark_mode);
    assert!(!app.clear_tab.is_scanning);
    assert_eq!(app.clear_tab.selected_appdata_folder, "Roaming");
}

#[test]
fn editor_load_hands_back_the_loaded_document() {
    let mut editor = YamlEditor::new();
    assert!(editor.load_descriptions(None).is_none());
    let mut doc = create_default_descriptions();
    assert!(doc.update_description("alpha", "Roaming", "settings".to_string()).is_ok());
    let copy = editor.load_descriptions(Some(doc)).expect("document loads");
    assert_eq!(copy.get_description("alpha", "Roaming"), Some("settings".to_string()));
    assert!(editor.folder_descriptions.is_some());
}

#[test]
fn delete_outcome_names_the_folder_in_every_status() {
    let mut tab = ClearTabState::new();
    tab.request_delete("alpha".to_string());
    tab.apply_delete_outcome(true, Some(true));
    assert_eq!(tab.status.as_deref(), Some("folder deleted: alpha"));
    assert!(tab.confirm_delete.is_none());

    tab.request_delete("beta".to_string());
    tab.apply_delete_outcome(true, Some(false));
    assert_eq!(tab.status.as_deref(), Some("folder delete failed: beta"));

    tab.request_delete("gamma".to_string());
    tab.apply_delete_outcome(true, None);
    assert_eq!(
        tab.status.as_deref(),
        Some("cannot resolve the folder path for gamma")
    );

    tab.request_delete("delta".to_string());
    tab.apply_delete_outcome(false, Some(true));
    assert!(tab.status.is_none());
    assert!(tab.confirm_delete.is_none());
}

#[test]
fn blank_test_covers_unicode_whitespace() {
    let mut editor = YamlEditor::new();
    // a vertical tab and an ideographic space trim to nothing, as str::trim
    // sees them
    assert_eq!(
        editor.save_description("alpha", "Roaming", "\u{000B}\u{3000}".to_string()),
        None
    );
    assert!(editor.folder_descriptions.is_none());
    // the same characters around real text are no blank
    let status = editor.save_description("alpha", "Roaming", "\u{000B}x\u{3000}".to_string());
    assert_eq!(status.as_deref(), Some("description updated"));
}

#[test]
fn closing_the_editor_saves_only_a_changed_text() {
    let mut editor = YamlEditor::new();
    editor.open_description_editor("alpha", "old text");
    assert_eq!(editor.finish_edit("old text".to_string(), "Roaming"), None);
    assert!(editor.edit_description.is_none());
    assert!(editor.folder_descriptions.is_none());

    editor.open_description_editor("alpha", "old text");
    let status = editor.finish_edit("new text".to_string(), "Roaming");
    assert_eq!(status.as_deref(), Some("description updated"));
    let doc = editor.folder_descriptions.as_ref().unwrap();
    assert_eq!(doc.get_description("alpha", "Roaming"), Some("new text".to_string()));

    // with no edit open, closing does nothing
    assert_eq!(editor.finish_edit("anything".to_string(), "Roaming"), None);
}

#[test]
fn failed_description_loads_raise_the_error_flag() {
    let mut editor = YamlEditor::new();
    assert!(!editor.yaml_error_logged);
    assert!(editor.load_descriptions(None).is_none());
    assert!(editor.yaml_error_logged);

    let mut tab = ClearTabState::new();
    assert!(!tab.yaml_error_logged);
    tab.update_folder_descriptions(None);
    assert!(tab.yaml_error_logged);
    tab.update_folder_descriptions(Some(create_default_descriptions()));
    assert!(tab.yaml_error_logged);
}
