use xos_apps::preview::{is_probably_text, preview_details, preview_kind, preview_text, preview_title, PreviewKind};

#[test]
fn kinds_by_extension() {
    assert_eq!(preview_kind("/home/u/photo.PNG"), PreviewKind::Image);
    assert_eq!(preview_kind("logo.svg"), PreviewKind::Image);
    assert_eq!(preview_kind("/src/main.rs"), PreviewKind::Text);
    assert_eq!(preview_kind("Cargo.Toml"), PreviewKind::Text);
    assert_eq!(preview_kind("/v/film.mkv"), PreviewKind::Video);
    assert_eq!(preview_kind("/d/paper.pdf"), PreviewKind::Pdf);
    assert_eq!(preview_kind("/d/blob.bin"), PreviewKind::Other);
    assert_eq!(preview_kind("/d/Makefile"), PreviewKind::Other);
    assert_eq!(preview_kind("/d/.rs"), PreviewKind::Other);
    assert_eq!(preview_kind("/"), PreviewKind::Other);
}

#[test]
fn text_detection() {
    assert!(!is_probably_text(&vec![]));
    assert!(is_probably_text(&b"hello\r\n\tworld".to_vec()));
    assert!(!is_probably_text(&vec![b'a', 0, b'b']));
    assert!(!is_probably_text(&vec![0xC3, 0xA9]));
    assert!(!is_probably_text(&vec![0x1B]));
    let mut late = vec![b'a'; 512];
    late.push(0);
    assert!(is_probably_text(&late));
    let mut early = vec![b'a'; 511];
    early.push(0);
    assert!(!is_probably_text(&early));
}

#[test]
fn long_text_is_cut() {
    assert_eq!(preview_text("short"), "short");
    let exact = "x".repeat(32768);
    assert_eq!(preview_text(&exact), exact);
    let long = "y".repeat(40000);
    let p = preview_text(&long);
    assert_eq!(p.len(), 32768 + "…".len());
    assert!(p.ends_with("y…"));
}

#[test]
fn details_line() {
    assert_eq!(preview_details("text/plain", 42, "2024-01-02 03:04"), "text/plain\n42 bytes · modified 2024-01-02 03:04");
    assert_eq!(preview_details("inode/directory", -1, "?"), "inode/directory\n-1 bytes · modified ?");
}

#[test]
fn preview_titles() {
    assert_eq!(preview_title("/home/u/notes.txt"), "notes.txt");
    assert_eq!(preview_title("/home/u/dir/"), "dir");
    assert_eq!(preview_title("/"), "File");
    assert_eq!(preview_title("/home/.."), "File");
}
