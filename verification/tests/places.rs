use saforia::config::{
    default_lang, default_output_clear_secs, default_true, default_viewer_prompt_secs, or_keep,
    read_prefs, set_prefs, Prefs, PrefsUpdate,
};
use saforia::crypto::{
    active_after_delete, has_master, list_master_fingerprints, master_file_path_for,
};
use saforia::paths::{
    app_data_dir, default_name, entries_file, file_stem, join, masters_dir, prefs_path,
};

fn strs(v: &[&str]) -> Vec<String> {
    v.iter().map(|s| s.to_string()).collect()
}

fn no_update() -> PrefsUpdate {
    PrefsUpdate {
        default_method: None,
        auto_clear_seconds: None,
        mask_sensitive: None,
        autosave_quick: None,
        pinned_ids: None,
        lang: None,
        block_while_captured: None,
        show_postfix_in_list: None,
        viewer_prompt_timeout_seconds: None,
        output_clear_seconds: None,
        copy_on_console_generate: None,
        hold_only_reveal: None,
        clear_clipboard_on_blur: None,
    }
}

#[test]
fn file_places_below_the_data_directory() {
    assert_eq!(join("/data", "x"), "/data/x");
    assert_eq!(join("/data/", "x"), "/data/x");
    assert_eq!(join("", "x"), "x");
    assert_eq!(entries_file("/data"), "/data/postfixes.json");
    assert_eq!(prefs_path("/data"), "/data/config.json");
    assert_eq!(masters_dir("/data/"), "/data/masters");
    assert_eq!(master_file_path_for("/data", "abc123"), "/data/masters/abc123.enc");
    assert_eq!(app_data_dir(Some("/custom".to_string()), "/std".to_string()), "/custom");
    assert_eq!(app_data_dir(None, "/std".to_string()), "/std");
}

#[test]
fn file_stems() {
    assert_eq!(file_stem("abc.enc"), Some("abc".to_string()));
    assert_eq!(file_stem("abc"), Some("abc".to_string()));
    assert_eq!(file_stem(".hidden"), Some(".hidden".to_string()));
    assert_eq!(file_stem("a.b.c"), Some("a.b".to_string()));
    assert_eq!(file_stem("a."), Some("a".to_string()));
    assert_eq!(file_stem(".a.b"), Some(".a".to_string()));
    assert_eq!(file_stem(".."), None);
    assert_eq!(file_stem("..."), Some("..".to_string()));
    for name in ["abc.enc", "abc", ".hidden", "a.b.c", "a.", ".a.b", "...", "x..y", "..x"] {
        let expected = std::path::Path::new(name)
            .file_stem()
            .and_then(|s| s.to_str())
            .map(|s| s.to_string());
        assert_eq!(file_stem(name), expected);
    }
}

#[test]
fn fingerprints_are_the_stems_of_the_record_files() {
    assert_eq!(
        list_master_fingerprints(&strs(&["aa.enc", "bb.enc", "..", "notes"])),
        strs(&["aa", "bb", "notes"])
    );
    assert_eq!(list_master_fingerprints(&vec![]), Vec::<String>::new());
    assert!(has_master(&strs(&["aa.enc"])));
    assert!(!has_master(&vec![]));
}

#[test]
fn deleting_the_active_vault_selects_the_first_remaining() {
    let remaining = strs(&["b", "c"]);
    assert_eq!(
        active_after_delete(Some("a".to_string()), "a", &remaining),
        Some("b".to_string())
    );
    assert_eq!(active_after_delete(Some("a".to_string()), "a", &vec![]), None);
    assert_eq!(
        active_after_delete(Some("x".to_string()), "a", &remaining),
        Some("x".to_string())
    );
    assert_eq!(active_after_delete(None, "a", &remaining), None);
}

#[test]
fn backup_file_names() {
    assert_eq!(
        default_name("2024-01-02T03-04-05", "json"),
        "saforia-backup-2024-01-02T03-04-05.json"
    );
    assert_eq!(default_name("t", ".csv"), "saforia-backup-t.csv");
    assert_eq!(default_name("t", "..a.b"), "saforia-backup-t.a.b");
    assert_eq!(default_name("t", ""), "saforia-backup-t.");
}

#[test]
fn default_preferences() {
    let p = read_prefs(None);
    assert_eq!(p.default_method, "len36_strong");
    assert_eq!(p.auto_clear_seconds, 30);
    assert!(!p.mask_sensitive);
    assert!(!p.autosave_quick);
    assert!(p.pinned_ids.is_empty());
    assert_eq!(p.active_fingerprint, None);
    assert_eq!(p.lang, "en");
    assert!(p.block_while_captured);
    assert!(!p.show_postfix_in_list);
    assert_eq!(p.viewer_prompt_timeout_seconds, 30);
    assert_eq!(p.output_clear_seconds, 60);
    assert!(!p.copy_on_console_generate);
    assert!(!p.hold_only_reveal);
    assert!(!p.clear_clipboard_on_blur);
    assert_eq!(default_lang(), "en");
    assert!(default_true());
    assert_eq!(default_viewer_prompt_secs(), 30);
    assert_eq!(default_output_clear_secs(), 60);
}

#[test]
fn stored_preferences_win() {
    let mut stored = read_prefs(None);
    stored.lang = "de".to_string();
    stored.auto_clear_seconds = 0;
    stored.active_fingerprint = Some("fp".to_string());
    let p = read_prefs(Some(read_prefs(Some(stored))));
    assert_eq!(p.lang, "de");
    assert_eq!(p.auto_clear_seconds, 0);
    assert_eq!(p.active_fingerprint, Some("fp".to_string()));
}

#[test]
fn updates_change_named_preferences_only() {
    let mut start = read_prefs(None);
    start.active_fingerprint = Some("fp".to_string());
    let same: Prefs = set_prefs(read_prefs(None), no_update());
    assert_eq!(same, read_prefs(None));
    let update = PrefsUpdate {
        default_method: Some("len20".to_string()),
        auto_clear_seconds: Some(0),
        mask_sensitive: Some(true),
        pinned_ids: Some(strs(&["a", "b"])),
        block_while_captured: Some(false),
        output_clear_seconds: Some(5),
        ..no_update()
    };
    let p = set_prefs(start, update);
    assert_eq!(p.default_method, "len20");
    assert_eq!(p.auto_clear_seconds, 0);
    assert!(p.mask_sensitive);
    assert!(!p.autosave_quick);
    assert_eq!(p.pinned_ids, strs(&["a", "b"]));
    assert_eq!(p.active_fingerprint, Some("fp".to_string()));
    assert_eq!(p.lang, "en");
    assert!(!p.block_while_captured);
    assert_eq!(p.viewer_prompt_timeout_seconds, 30);
    assert_eq!(p.output_clear_seconds, 5);
    assert_eq!(or_keep(Some(1), 2), 1);
    assert_eq!(or_keep(None, 2), 2);
}

#[test]
fn uses_custom_env_dir_when_set() {
    let custom = "/tmp/custom-data-dir".to_string();
    let p = app_data_dir(Some(custom.clone()), "/home/user/.local/share/saforia".to_string());
    assert!(p.starts_with(&custom));
    assert!(entries_file(&p).starts_with(&custom));
    assert!(master_file_path_for(&p, "abc").starts_with(&custom));
}
