use xos_apps::errors::NotesError;
use xos_apps::notes::{
    join_path, new_note, note_entry, notes_dir, parse_title, row_to_select, select_note_files, NoteEntry,
};

#[test]
fn title_is_the_first_heading() {
    assert_eq!(parse_title("intro\n# Groceries \nmore"), Some("Groceries".to_string()));
    assert_eq!(parse_title("# # Nested\n"), Some("Nested".to_string()));
    assert_eq!(parse_title("#NoSpace\n"), None);
    assert_eq!(parse_title("#   \n# Later"), None);
    assert_eq!(parse_title(""), None);
    assert_eq!(parse_title("## Sub"), None);
}

#[test]
fn note_files_are_md_sorted() {
    let names: Vec<String> = vec!["b.md", "a.txt", "c.MD", ".md", "a.md", "z.md.bak"].into_iter().map(String::from).collect();
    assert_eq!(select_note_files(&names), vec!["a.md".to_string(), "b.md".to_string()]);
}

#[test]
fn entries_take_the_heading_or_the_id() {
    let e = note_entry("/home/u/.local/share/xos/notes", "note-5.md", Some("# Plan\n".into()));
    assert_eq!(e.id, "note-5");
    assert_eq!(e.title, "Plan");
    assert_eq!(e.path, "/home/u/.local/share/xos/notes/note-5.md");
    let f = note_entry("/n/", "x.md", None);
    assert_eq!(f.title, "x");
    assert_eq!(f.path, "/n/x.md");
    let g = note_entry("/n", "y.md", Some("no heading".into()));
    assert_eq!(g.title, "y");
}

#[test]
fn notes_live_under_the_home_folder() {
    assert_eq!(notes_dir(Some("/home/u")).ok(), Some("/home/u/.local/share/xos/notes".to_string()));
    match notes_dir(None) {
        Err(NotesError::Storage(m)) => assert_eq!(m, "HOME is not set"),
        other => panic!("unexpected {:?}", other),
    }
    assert_eq!(join_path("", "a"), "a");
}

#[test]
fn a_new_note() {
    let (e, text) = new_note("/n", 1700000000);
    assert_eq!(e.id, "note-1700000000");
    assert_eq!(e.title, "New Note");
    assert_eq!(e.path, "/n/note-1700000000.md");
    assert_eq!(text, "# New Note\n\n");
    assert_eq!(parse_title(&text), Some("New Note".to_string()));
}

fn entry(p: &str) -> NoteEntry {
    NoteEntry { id: p.to_string(), title: p.to_string(), path: p.to_string() }
}

#[test]
fn selection_after_refresh() {
    let notes = vec![entry("/a"), entry("/b"), entry("/c")];
    assert_eq!(row_to_select(&notes, Some("/b")), Some(1));
    assert_eq!(row_to_select(&notes, Some("/z")), Some(0));
    assert_eq!(row_to_select(&notes, None), Some(0));
    assert_eq!(row_to_select(&vec![], Some("/a")), None);
}

#[test]
fn a_new_note_is_listed_under_its_id_and_title() {
    let (e, text) = new_note("/n", 42);
    let name = "note-42.md".to_string();
    assert_eq!(select_note_files(&vec![name.clone(), "x.txt".to_string()]), vec![name.clone()]);
    let listed = note_entry("/n", &name, Some(text));
    assert_eq!((listed.id, listed.title, listed.path), (e.id, e.title, e.path));
}

#[test]
fn a_heading_line_gives_the_title() {
    assert_eq!(parse_title("# Shopping list\n- milk\n# Other"), Some("Shopping list".to_string()));
    assert_eq!(parse_title("# Trip\r\n"), Some("Trip".to_string()));
}
