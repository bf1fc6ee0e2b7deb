use xos_apps::breadcrumb::{breadcrumb, Breadcrumb};
use xos_apps::operations::{
    candidate, destination_step, empty_listing_message, listing_notice, row_activation, row_label,
    row_widget_name, selected_entry_uri, BrowserState, ClipboardOperation, DestinationStep, RowActivation,
};
use xos_apps::search::FileItem;

fn item(name: &str, is_dir: bool) -> FileItem {
    FileItem {
        uri: format!("file:///home/u/{name}"),
        name: name.to_string(),
        is_dir,
        size: 0,
        modified: 0,
        content_type: String::new(),
    }
}

fn crumbs(b: Breadcrumb) -> Vec<(String, String)> {
    match b {
        Breadcrumb::Crumbs(c) => c.into_iter().map(|c| (c.label, c.uri)).collect(),
        other => panic!("no crumbs: {other:?}"),
    }
}

#[test]
fn rows_name_their_entries() {
    assert_eq!(row_widget_name(&item("docs", true)), "dir:file:///home/u/docs");
    assert_eq!(row_widget_name(&item("a.txt", false)), "file:///home/u/a.txt");
    assert_eq!(row_label(&item("docs", true)), "📁 docs");
    assert_eq!(row_label(&item("a.txt", false)), "📄 a.txt");
    assert_eq!(empty_listing_message(), "No matching files");
}

#[test]
fn selection_reads_row_names() {
    assert_eq!(selected_entry_uri("dir:file:///x"), Some("file:///x".to_string()));
    assert_eq!(selected_entry_uri("file:///y"), Some("file:///y".to_string()));
    assert_eq!(selected_entry_uri("nav:file:///y"), None);
    assert!(matches!(row_activation("dir:file:///x"), RowActivation::Navigate(u) if u == "file:///x"));
    assert!(matches!(row_activation("file:///y"), RowActivation::OpenUnlessDirectory(u) if u == "file:///y"));
    assert!(matches!(row_activation("smb://z"), RowActivation::Ignore));
}

#[test]
fn network_locations_show_a_notice() {
    assert_eq!(
        listing_notice("network:///").unwrap(),
        "Network places — smb:// and other URIs coming in a future release"
    );
    assert_eq!(listing_notice("file:///"), None);
}

#[test]
fn clipboard_copy_stays_after_paste_move_leaves() {
    let mut b = BrowserState::new("file:///home/u".to_string());
    assert!(b.paste_request().is_none());
    assert_eq!(b.take_selection(None, ClipboardOperation::Copy), "Select a file or folder first");
    assert_eq!(b.take_selection(Some("file:///a".into()), ClipboardOperation::Copy), "Copied to clipboard");
    let (entry, dest) = b.paste_request().unwrap();
    assert_eq!(entry.source_uri, "file:///a");
    assert_eq!(dest, "file:///home/u");
    b.paste_done(ClipboardOperation::Copy);
    assert!(b.clipboard().is_some());
    assert_eq!(b.take_selection(Some("file:///b".into()), ClipboardOperation::Move), "Ready to move");
    b.set_current_uri("file:///tmp".into());
    assert_eq!(b.paste_request().unwrap().1, "file:///tmp");
    b.paste_done(ClipboardOperation::Move);
    assert!(b.clipboard().is_none());
}

#[test]
fn trashing_the_clipboard_entry_clears_it() {
    let mut b = BrowserState::new("file:///".to_string());
    b.take_selection(Some("file:///a".into()), ClipboardOperation::Copy);
    b.trashed("file:///b");
    assert!(b.clipboard().is_some());
    b.trashed("file:///a");
    assert!(b.clipboard().is_none());
}

#[test]
fn candidate_names_follow_the_file_stem() {
    assert_eq!(candidate("photo.jpg", 0), "photo.jpg");
    assert_eq!(candidate("photo.jpg", 1), "photo (1).jpg");
    assert_eq!(candidate("archive.tar.gz", 12), "archive.tar (12).gz");
    assert_eq!(candidate("README", 3), "README (3)");
    assert_eq!(candidate(".bashrc", 2), ".bashrc (2)");
    assert_eq!(candidate("notes.", 1), "notes (1).");
    assert_eq!(candidate("..", 1), ".. (1)");
}

#[test]
fn destination_search_steps() {
    assert!(matches!(destination_step("a.txt", 0, false), DestinationStep::Use(n) if n == "a.txt"));
    assert!(matches!(destination_step("a.txt", 0, true), DestinationStep::Check(n) if n == "a (1).txt"));
    assert!(matches!(destination_step("a.txt", 998, true), DestinationStep::Check(n) if n == "a (999).txt"));
    assert!(
        matches!(destination_step("a.txt", 999, true), DestinationStep::GiveUp(m) if m == "Could not find available name for a.txt")
    );
}

#[test]
fn breadcrumb_inside_home() {
    let b = breadcrumb(
        "file:///home/u/Documents/work",
        Some("/home/u/Documents/work".into()),
        "file:///home/u",
        Some("/home/u".into()),
    );
    assert_eq!(
        crumbs(b),
        vec![
            ("Home".to_string(), "file:///home/u".to_string()),
            ("Documents".to_string(), "file:///home/u/Documents".to_string()),
            ("work".to_string(), "file:///home/u/Documents/work".to_string()),
        ]
    );
}

#[test]
fn breadcrumb_outside_home() {
    let b = breadcrumb("file:///etc/xos", Some("/etc/xos".into()), "file:///home/u", Some("/home/u".into()));
    assert_eq!(
        crumbs(b),
        vec![
            ("/".to_string(), "file:///".to_string()),
            ("etc".to_string(), "file:///etc".to_string()),
            ("xos".to_string(), "file:///etc/xos".to_string()),
        ]
    );
    // component-wise: /home/user is not inside /home/u
    let c = breadcrumb("file:///home/user", Some("/home/user".into()), "file:///home/u", Some("/home/u".into()));
    assert_eq!(crumbs(c).len(), 3);
}

#[test]
fn breadcrumb_special_locations() {
    assert!(matches!(breadcrumb("network:///", None, "file:///home/u", None), Breadcrumb::Network));
    assert!(matches!(breadcrumb("trash:///", None, "file:///home/u", None), Breadcrumb::Plain(u) if u == "trash:///"));
    let home = breadcrumb("file:///home/u", Some("/home/u/".into()), "file:///home/u", Some("/home/u".into()));
    assert_eq!(crumbs(home), vec![("Home".to_string(), "file:///home/u".to_string())]);
}
