use mystudio::tab_cache::{handle_notebook_event, record_new_tab, NotebookAction, NotebookTabCache};
use mystudio::workspace::Workspace;

fn get_mock_cache() -> NotebookTabCache {
    NotebookTabCache {
        file_path: "/tmp/1".to_string(),
        icon_name: "error".to_string(),
        position: 0,
    }
}

fn locate_cache_item(cache: &Vec<NotebookTabCache>) -> Option<NotebookTabCache> {
    let mock_cache = get_mock_cache();
    NotebookTabCache::find_by_path(cache, mock_cache.file_path)
}

#[test]
fn tab_cache_find_test() {
    let mut cache: Vec<NotebookTabCache> = Vec::new();
    let mock_cache = get_mock_cache();

    // insert cache
    NotebookTabCache::insert(&mut cache, mock_cache.clone());

    // find by file_path
    let found_cache = locate_cache_item(&cache);

    // verify cache is found
    assert!(found_cache.is_some());

    // remove the item
    NotebookTabCache::remove(&mut cache, mock_cache.position);

    // find again
    let found_cache = locate_cache_item(&cache);

    // verify cache is none
    assert!(found_cache.is_none());
}

#[test]
fn tab_cache_find() {
    let mut cache: Vec<NotebookTabCache> = Vec::new();
    let mock_cache = get_mock_cache();

    NotebookTabCache::insert(&mut cache, mock_cache.clone());

    let found_cache = locate_cache_item(&cache);
    assert!(found_cache.is_some());

    NotebookTabCache::remove(&mut cache, mock_cache.position);

    let found_cache = locate_cache_item(&cache);
    assert!(found_cache.is_none());
}

fn tab(path: &str, position: u32) -> NotebookTabCache {
    NotebookTabCache {
        file_path: path.to_string(),
        position,
        icon_name: "text-plain".to_string(),
    }
}

#[test]
fn find_returns_first_match_and_copies_fields() {
    let mut cache = vec![tab("/a", 0), tab("/b", 1), tab("/b", 2)];
    let found = NotebookTabCache::find_by_path(&cache, "/b".to_string()).unwrap();
    assert_eq!(found.position, 1);
    assert_eq!(found.icon_name, "text-plain");
    let by_pos = NotebookTabCache::find_by_position(&cache, 2).unwrap();
    assert_eq!(by_pos.file_path, "/b");
    assert!(NotebookTabCache::find_by_position(&cache, 7).is_none());
    NotebookTabCache::reset(&mut cache);
    assert!(NotebookTabCache::is_empty(&cache));
}

#[test]
fn remove_moves_last_entry_into_place() {
    let mut cache = vec![tab("/a", 0), tab("/b", 1), tab("/c", 2)];
    NotebookTabCache::remove(&mut cache, 0);
    assert_eq!(cache.len(), 2);
    assert_eq!(cache[0].file_path, "/c");
    assert_eq!(cache[1].file_path, "/b");
}

#[test]
fn notebook_event_resets_focuses_or_creates() {
    let mut cache = vec![tab("/a", 0), tab("/b", 3)];
    let mut ws = Workspace::new();
    ws.update_path("/w".to_string());
    let action = handle_notebook_event(&mut cache, &mut ws, &Some("x".to_string()), &Some("/b".to_string()));
    assert_eq!(action, NotebookAction::Focus { position: 3 });
    assert_eq!(ws.get_open_file_path(), Some("/b".to_string()));
    assert_eq!(ws.get_path(), "/w");
    let action = handle_notebook_event(&mut cache, &mut ws, &Some("x".to_string()), &Some("/c".to_string()));
    assert_eq!(action, NotebookAction::CreateTab);
    assert_eq!(cache.len(), 2);
    assert_eq!(ws.get_open_file_path(), Some("/b".to_string()));
    let action = handle_notebook_event(&mut cache, &mut ws, &None, &Some("/a".to_string()));
    assert_eq!(action, NotebookAction::ResetAll);
    assert!(cache.is_empty());
}

#[test]
fn new_tab_is_recorded_with_its_icon() {
    let mut cache = vec![tab("/a", 0)];
    assert!(record_new_tab(&mut cache, "/src/app/main.js".to_string(), 1));
    assert_eq!(cache.len(), 2);
    assert_eq!(cache[1].file_path, "/src/app/main.js");
    assert_eq!(cache[1].position, 1);
    assert_eq!(cache[1].icon_name, "application-javascript");
    assert!(!record_new_tab(&mut cache, "/".to_string(), 2));
    assert_eq!(cache.len(), 2);
}
