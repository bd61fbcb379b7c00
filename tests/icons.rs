use mystudio::tree::{cell_icon_name, get_icon_for_name, TreeNodeType};

fn test_icon_name_mime(name: &str, mime: &str, fallback_mime: Option<&str>) -> bool {
    let fetched_mime = get_icon_for_name(name, TreeNodeType::File);

    if let Some(fallback) = fallback_mime {
        fetched_mime == fallback || fetched_mime == mime
    } else {
        fetched_mime == mime
    }
}

#[test]
fn get_icon_name_rust() {
    assert!(test_icon_name_mime("file.rs", "text-rust", Some("text-x-rust")));
}

#[test]
fn get_icon_name_js() {
    assert!(test_icon_name_mime("file.js", "application-javascript", None));
}

#[test]
fn directory_icon_is_folder() {
    assert_eq!(get_icon_for_name("file.js", TreeNodeType::Directory), "folder");
}

#[test]
fn unknown_extension_falls_back_to_plain_text() {
    assert_eq!(get_icon_for_name("README", TreeNodeType::File), "text-plain");
}

#[test]
fn cell_icons_by_entry_kind() {
    assert_eq!(cell_icon_name("x.rs", TreeNodeType::Unknown), "dialog-warning");
    assert_eq!(cell_icon_name("x.rs", TreeNodeType::Workspace), "folder-open");
    assert_eq!(cell_icon_name("x.rs", TreeNodeType::Directory), "folder");
    assert_eq!(cell_icon_name("x.js", TreeNodeType::File), "application-javascript");
    assert_eq!(TreeNodeType::default(), TreeNodeType::Unknown);
}
