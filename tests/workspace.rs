use mystudio::config::{AppConfig, AppConfigGeneralOptions};
use mystudio::workspace::{SearchResult, Workspace};

#[test]
fn workspace_tracks_root_and_open_file() {
    let mut ws = Workspace::new();
    assert_eq!(ws.get_path(), "");
    assert_eq!(ws.get_open_file_path(), None);
    ws.set_open_file_path(Some("/tmp/a.rs".to_string()));
    assert_eq!(ws.get_open_file_path(), Some("/tmp/a.rs".to_string()));
    ws.update_path("/tmp".to_string());
    assert_eq!(ws.get_path(), "/tmp");
    assert_eq!(ws.get_open_file_path(), None);
    ws.set_open_file_path(Some("/tmp/b.rs".to_string()));
    assert_eq!(ws.get_path(), "/tmp");
    assert_eq!(Workspace::default().get_path(), "");
}

#[test]
fn search_result_fields_must_fit() {
    let r = SearchResult::from_match(12, "let x = 1;".to_string(), "/w/a.rs".to_string(), 4, 5).unwrap();
    assert_eq!(r.line_number, 12);
    assert_eq!((r.offset_start, r.offset_end), (4, 5));
    assert_eq!(r.path, "/w/a.rs");
    assert!(SearchResult::from_match(1 << 31, String::new(), String::new(), 0, 0).is_none());
    assert!(SearchResult::from_match(1, String::new(), String::new(), 0, 1 << 40).is_none());
}

#[test]
fn default_config_is_1024_by_768() {
    let c = AppConfig::default();
    assert_eq!(c.General, AppConfigGeneralOptions { application_width: 1024, application_height: 768 });
}
