//! The notes application's storage rules: where notes live, which files are
//! notes, how a note's title is read from its text, and what a new note
//! holds.
use vstd::prelude::*;

use crate::breadcrumb::push_name;
use crate::errors::NotesError;
use crate::operations::stem_and_extension;
use crate::order::{arranged, is_stable_sorted_order, stable_sorted_order};
use crate::search::{after_last_dot_index, after_last_dot_pos, lemma_after_last_dot_pos};
use crate::text::{
    dec_seq, lemma_lines_split, lemma_one_line, lemma_trim_keeps_last, lines_acc, strip_cr, chars_eq, chars_eq_str, chars_of, extend_chars, lines_of, lines_seq, starts_with_seq,
    starts_with_str, string_of, sub_chars, trim, trim_seq,
};

verus! {

/// A note as the note list shows it.
#[derive(Debug)]
pub struct NoteEntry {
    pub id: String,
    pub title: String,
    pub path: String,
}

/// `line` with every leading `"# "` removed (`trim_start_matches("# ")`).
pub open spec fn strip_heading_marks(line: Seq<char>) -> Seq<char>
    decreases line.len(),
{
    if line.len() >= 2 && line[0] == '#' && line[1] == ' ' {
        strip_heading_marks(line.skip(2))
    } else {
        line
    }
}

/// The first of `lines` that starts with `"# "`.
pub open spec fn first_heading(lines: Seq<Seq<char>>) -> Option<Seq<char>>
    decreases lines.len(),
{
    if lines.len() == 0 {
        None
    } else if starts_with_seq(lines[0], "# "@) {
        Some(lines[0])
    } else {
        first_heading(lines.drop_first())
    }
}

/// A note's title: the text of its first `# ` heading line, without the
/// heading marks and surrounding white space; none when there is no such
/// line or its text is blank.
pub open spec fn title_of(content: Seq<char>) -> Option<Seq<char>> {
    match first_heading(lines_seq(content)) {
        Some(line) => {
            let t = trim_seq(strip_heading_marks(line));
            if t.len() > 0 {
                Some(t)
            } else {
                None
            }
        },
        None => None,
    }
}

fn strip_heading_marks_exec(line: &Vec<char>) -> (r: Vec<char>)
    ensures
        r@ == strip_heading_marks(line@),
{
    let mut i: usize = 0;
    assert(line@.skip(0) =~= line@);
    while i < line.len() && line.len() - i >= 2 && line[i] == '#' && line[i + 1] == ' '
        invariant
            i <= line.len(),
            strip_heading_marks(line@) == strip_heading_marks(line@.skip(i as int)),
        decreases line.len() - i,
    {
        assert(line@.skip(i as int).skip(2) =~= line@.skip(i + 2));
        i = i + 2;
    }
    sub_chars(line, i, line.len())
}

/// The title written in a note's text, if it has one.
pub fn parse_title(content: &str) -> (r: Option<String>)
    ensures
        match title_of(content@) {
            Some(t) => r matches Some(s) && s@ == t,
            None => r is None,
        },
{
    proof {
        reveal_strlit("# ");
    }
    let c = chars_of(content);
    let lines = lines_of(&c);
    let ghost lv = lines@.map_values(|l: Vec<char>| l@);
    let mut i: usize = 0;
    assert(lv.skip(0) =~= lv);
    while i < lines.len()
        invariant
            i <= lines.len(),
            lv == lines@.map_values(|l: Vec<char>| l@),
            lv == lines_seq(c@),
            c@ == content@,
            first_heading(lv) == first_heading(lv.skip(i as int)),
        decreases lines.len() - i,
    {
        assert(lv.skip(i as int)[0] == lines@[i as int]@);
        if starts_with_str(&lines[i], "# ") {
            assert(first_heading(lv.skip(i as int)) == Some(lines@[i as int]@));
            assert(first_heading(lines_seq(content@)) == Some(lines@[i as int]@));
            let stripped = strip_heading_marks_exec(&lines[i]);
            let t = trim(&stripped);
            if t.len() > 0 {
                return Some(string_of(&t));
            } else {
                return None;
            }
        }
        assert(lv.skip(i as int).drop_first() =~= lv.skip(i + 1));
        i = i + 1;
    }
    assert(lv.skip(i as int) =~= Seq::<Seq<char>>::empty());
    None
}

/// A file is a note when its extension is `md`.
pub open spec fn is_note_file(name: Seq<char>) -> bool {
    stem_and_extension(name).1 == Some("md"@)
}

/// Whether the file called `name` is a note.
pub fn is_note_file_name(name: &Vec<char>) -> (r: bool)
    ensures
        r == is_note_file(name@),
{
    proof {
        reveal_strlit("..");
        lemma_after_last_dot_pos(name@);
    }
    let p = after_last_dot_index(name);
    if chars_eq_str(name, "..") || p <= 1 {
        return false;
    }
    let ext = sub_chars(name, p, name.len());
    chars_eq_str(&ext, "md")
}

/// The names among `names` that are note files, in their order.
pub open spec fn note_names(names: Seq<String>) -> Seq<Seq<char>> {
    names.map_values(|n: String| n@).filter(|n: Seq<char>| is_note_file(n))
}

/// The note files among the names in a directory, in ascending order of
/// name.
pub fn select_note_files(names: &Vec<String>) -> (r: Vec<String>)
    ensures
        exists|perm: Seq<usize>|
            is_stable_sorted_order(note_names(names@), perm) && arranged(
                note_names(names@),
                perm,
                r@.map_values(|s: String| s@),
            ),
{
    let ghost all = names@.map_values(|n: String| n@);
    let mut keys: Vec<Vec<char>> = Vec::new();
    let mut i: usize = 0;
    while i < names.len()
        invariant
            i <= names.len(),
            all == names@.map_values(|n: String| n@),
            keys@.map_values(|k: Vec<char>| k@) == all.take(i as int).filter(|n: Seq<char>| is_note_file(n)),
        decreases names.len() - i,
    {
        proof {
            reveal(Seq::filter);
        }
        assert(all.take(i + 1).drop_last() =~= all.take(i as int));
        assert(all.take(i + 1).last() == names@[i as int]@);
        let n = chars_of(names[i].as_str());
        if is_note_file_name(&n) {
            let ghost before = keys@.map_values(|k: Vec<char>| k@);
            let ghost nv = n@;
            keys.push(n);
            assert(keys@.map_values(|k: Vec<char>| k@) =~= before.push(nv));
        }
        i = i + 1;
    }
    assert(all.take(names.len() as int) =~= all);
    let ghost notes = all.filter(|n: Seq<char>| is_note_file(n));
    let perm = stable_sorted_order(&keys);
    let mut out: Vec<String> = Vec::new();
    let mut j: usize = 0;
    while j < perm.len()
        invariant
            j <= perm.len(),
            perm.len() == keys.len(),
            keys@.map_values(|k: Vec<char>| k@) == notes,
            forall|k: int| 0 <= k < perm.len() ==> #[trigger] perm@[k] < keys.len(),
            out.len() == j,
            forall|k: int| 0 <= k < j ==> (#[trigger] out@[k])@ == notes[perm@[k] as int],
        decreases perm.len() - j,
    {
        out.push(string_of(&keys[perm[j]]));
        j = j + 1;
    }
    assert(arranged(notes, perm@, out@.map_values(|s: String| s@)));
    assert(note_names(names@) == notes);
    assert(is_stable_sorted_order(note_names(names@), perm@) && arranged(
        note_names(names@),
        perm@,
        out@.map_values(|s: String| s@),
    ));
    out
}

/// The path of `name` inside the directory `dir` (`Path::join` of a plain
/// name).
pub fn join_path(dir: &str, name: &str) -> (r: String)
    ensures
        r@ == push_name(dir@, name@),
{
    let d = chars_of(dir);
    let n = chars_of(name);
    let mut out = sub_chars(&d, 0, d.len());
    assert(out@ =~= d@);
    if !(d.len() == 0 || d[d.len() - 1] == '/') {
        out.push('/');
        assert(d@ + "/"@ =~= d@.push('/')) by {
            reveal_strlit("/");
        }
    }
    extend_chars(&mut out, &n);
    string_of(&out)
}

/// The folder that holds the notes, inside the home folder named by the
/// `HOME` variable of the environment; an error when it is not set.
pub fn notes_dir(home: Option<&str>) -> (r: Result<String, NotesError>)
    ensures
        match home {
            Some(h) => r matches Ok(d) && d@ == push_name(h@, ".local/share/xos/notes"@),
            None => r matches Err(NotesError::Storage(m)) && m@ == "HOME is not set"@,
        },
{
    match home {
        Some(h) => Ok(join_path(h, ".local/share/xos/notes")),
        None => Err(NotesError::Storage(string_of(&chars_of("HOME is not set")))),
    }
}

/// The id of a note file: its name without the extension.
pub open spec fn note_id_of(name: Seq<char>) -> Seq<char> {
    stem_and_extension(name).0
}

/// The list entry for the note file `name` in `dir`, whose text is `content`
/// when it could be read: the title is the note's heading, or its id when it
/// has none.
pub fn note_entry(dir: &str, name: &str, content: Option<String>) -> (r: NoteEntry)
    ensures
        r.id@ == note_id_of(name@),
        r.path@ == push_name(dir@, name@),
        r.title@ == (match content {
            Some(c) => match title_of(c@) {
                Some(t) => t,
                None => note_id_of(name@),
            },
            None => note_id_of(name@),
        }),
{
    proof {
        reveal_strlit("..");
        lemma_after_last_dot_pos(name@);
    }
    let n = chars_of(name);
    let p = after_last_dot_index(&n);
    let id_chars = if chars_eq_str(&n, "..") || p <= 1 {
        let all = sub_chars(&n, 0, n.len());
        assert(all@ =~= n@);
        all
    } else {
        sub_chars(&n, 0, p - 1)
    };
    let id = string_of(&id_chars);
    let title = match content {
        Some(c) => match parse_title(c.as_str()) {
            Some(t) => t,
            None => string_of(&id_chars),
        },
        None => string_of(&id_chars),
    };
    NoteEntry { id, title, path: join_path(dir, name) }
}

/// A newly created note, made at `timestamp` (seconds since the epoch), in
/// the folder `dir`, with the text it starts with.
pub fn new_note(dir: &str, timestamp: u64) -> (r: (NoteEntry, String))
    ensures
        r.0.id@ == "note-"@ + crate::text::dec_seq(timestamp as nat),
        r.0.title@ == "New Note"@,
        r.0.path@ == push_name(dir@, r.0.id@ + ".md"@),
        r.1@ == "# New Note\n\n"@,
{
    let mut id_chars = chars_of("note-");
    let num = crate::text::dec_chars(timestamp);
    extend_chars(&mut id_chars, &num);
    let id = string_of(&id_chars);
    let mut file = sub_chars(&id_chars, 0, id_chars.len());
    assert(file@ =~= id@);
    let md = chars_of(".md");
    extend_chars(&mut file, &md);
    let file_name = string_of(&file);
    let path = join_path(dir, file_name.as_str());
    let entry = NoteEntry { id, title: string_of(&chars_of("New Note")), path };
    (entry, string_of(&chars_of("# New Note\n\n")))
}

/// The note's path is the wanted one.
pub open spec fn is_wanted(n: NoteEntry, wanted: Option<&str>) -> bool {
    wanted matches Some(w) && n.path@ == w@
}

/// The row of the note list to select after refreshing it: the last note
/// whose path is `wanted`, else the first note; none when there are no
/// notes.
pub fn row_to_select(notes: &Vec<NoteEntry>, wanted: Option<&str>) -> (r: Option<usize>)
    ensures
        notes.len() == 0 ==> r is None,
        notes.len() > 0 ==> (r matches Some(k) && k < notes.len() && (if exists|j: int|
            0 <= j < notes.len() && is_wanted(#[trigger] notes@[j], wanted) {
            is_wanted(notes@[k as int], wanted) && forall|j: int|
                k < j < notes.len() ==> !is_wanted(#[trigger] notes@[j], wanted)
        } else {
            k == 0
        })),
{
    if notes.len() == 0 {
        return None;
    }
    let mut found: Option<usize> = None;
    match wanted {
        Some(w) => {
            let wc = chars_of(w);
            let mut i: usize = 0;
            while i < notes.len()
                invariant
                    i <= notes.len(),
                    wc@ == w@,
                    found matches Some(k) ==> k < i && notes@[k as int].path@ == w@ && forall|j: int|
                        k < j < i ==> (#[trigger] notes@[j]).path@ != w@,
                    found is None ==> forall|j: int| 0 <= j < i ==> (#[trigger] notes@[j]).path@ != w@,
                decreases notes.len() - i,
            {
                let pc = chars_of(notes[i].path.as_str());
                if chars_eq(&pc, &wc) {
                    found = Some(i);
                }
                i = i + 1;
            }
        },
        None => {},
    }
    match found {
        Some(k) => Some(k),
        None => Some(0),
    }
}

/// A note whose first line is the heading `# t` is listed under the title
/// `t`, whatever follows, when `t` is a single line without surrounding
/// white space that does not itself start with `# `.
pub proof fn law_heading_is_title(t: Seq<char>, rest: Seq<char>)
    requires
        t.len() > 0,
        forall|i: int| 0 <= i < t.len() ==> t[i] != '\n',
        trim_seq(t) == t,
        !starts_with_seq(t, "# "@),
    ensures
        title_of("# "@ + t + "\n"@ + rest) == Some(t),
{
    reveal_strlit("# ");
    reveal_strlit("\n");
    let line = "# "@ + t;
    assert forall|i: int| 0 <= i < line.len() implies line[i] != '\n' by {
        if i >= 2 {
            assert(line[i] == t[i - 2]);
        }
    }
    let first = line + seq!['\n'];
    assert("# "@ + t + "\n"@ + rest =~= first + rest);
    lemma_lines_split(first, rest, seq![]);
    lemma_one_line(line, seq![]);
    assert(Seq::<char>::empty() + line =~= line);
    lemma_trim_keeps_last(t);
    assert(line.last() == t.last());
    assert(strip_cr(line) == line);
    let lines = lines_seq("# "@ + t + "\n"@ + rest);
    assert(lines =~= seq![line] + lines_acc(rest, seq![]));
    assert(lines[0] == line);
    assert(line.subrange(0, 2) =~= "# "@);
    assert(starts_with_seq(lines[0], "# "@));
    assert(line.skip(2) =~= t);
    assert(line[0] == '#' && line[1] == ' ');
    assert(strip_heading_marks(line) == strip_heading_marks(t));
    if t.len() >= 2 && t[0] == '#' && t[1] == ' ' {
        assert(t.subrange(0, 2) =~= "# "@);
    }
    assert(strip_heading_marks(t) == t);
}

/// A new note is a note file, listed with the id it was created with.
pub proof fn law_new_note_is_listed(timestamp: nat)
    ensures
        is_note_file("note-"@ + dec_seq(timestamp) + ".md"@),
        note_id_of("note-"@ + dec_seq(timestamp) + ".md"@) == "note-"@ + dec_seq(timestamp),
{
    reveal_strlit("note-");
    reveal_strlit(".md");
    reveal_strlit("md");
    reveal_strlit("..");
    let id = "note-"@ + dec_seq(timestamp);
    let name = id + ".md"@;
    assert(name.drop_last() =~= id + seq!['.', 'm']);
    assert(name.last() == 'd');
    assert((id + seq!['.', 'm']).last() == 'm');
    assert((id + seq!['.']).last() == '.');
    assert((id + seq!['.', 'm']).drop_last() =~= id + seq!['.']);
    assert(after_last_dot_pos(id + seq!['.']) == id.len() + 1);
    assert(after_last_dot_pos(id + seq!['.', 'm']) == after_last_dot_pos(id + seq!['.']));
    assert(after_last_dot_pos(name) == after_last_dot_pos(id + seq!['.', 'm']));
    assert(name.len() > 2);
    assert(name.take(id.len() as int) =~= id);
    assert(name.skip(id.len() as int + 1) =~= "md"@);
}

} // verus!
