//! Recursive file search: the filters a user sets, whether an entry matches
//! them, what the directory walk does with each entry, and the order of the
//! results.
use vstd::prelude::*;

use crate::order::{arranged, is_stable_sorted_order, stable_sorted_order};
use crate::text::{
    ascii_lower, ascii_lower_seq, chars_eq_str, chars_of, contains, contains_seq, parse_unsigned,
    parse_unsigned_seq, starts_with_seq, starts_with_str, string_of, trim, trim_seq,
};

verus! {

/// The kind of entry a search is restricted to.
#[derive(Debug, Clone, Copy, PartialEq, Eq, Structural)]
pub enum FileTypeFilter {
    All,
    Directories,
    Images,
    Video,
    Pdf,
    Code,
}

impl Default for FileTypeFilter {
    fn default() -> (r: Self)
        ensures
            r == FileTypeFilter::All,
    {
        FileTypeFilter::All
    }
}

/// What a search looks for.
#[derive(Debug)]
pub struct SearchFilters {
    pub name: String,
    pub file_type: FileTypeFilter,
    pub min_size: Option<u64>,
    pub max_size: Option<u64>,
    pub modified_within_days: Option<u32>,
}

impl Default for SearchFilters {
    fn default() -> (r: Self)
        ensures
            r.name@.len() == 0,
            r.file_type == FileTypeFilter::All,
            r.min_size is None,
            r.max_size is None,
            r.modified_within_days is None,
    {
        SearchFilters {
            name: String::new(),
            file_type: FileTypeFilter::All,
            min_size: None,
            max_size: None,
            modified_within_days: None,
        }
    }
}

/// One entry found while walking a directory tree.
#[derive(Debug)]
pub struct FileItem {
    pub uri: String,
    pub name: String,
    pub is_dir: bool,
    pub size: u64,
    pub modified: i64,
    pub content_type: String,
}

impl FileItem {
    /// A copy of this item.
    pub fn duplicate(&self) -> (r: FileItem)
        ensures
            r == *self,
    {
        FileItem {
            uri: self.uri.clone(),
            name: self.name.clone(),
            is_dir: self.is_dir,
            size: self.size,
            modified: self.modified,
            content_type: self.content_type.clone(),
        }
    }
}

/// Some filter is set, so the listing shows search results rather than the
/// plain directory.
pub open spec fn filters_active(f: &SearchFilters) -> bool {
    ||| f.name@.len() > 0
    ||| f.file_type != FileTypeFilter::All
    ||| f.min_size is Some
    ||| f.max_size is Some
    ||| f.modified_within_days is Some
}

impl SearchFilters {
    /// Whether any filter is set.
    pub fn is_active(&self) -> (r: bool)
        ensures
            r == filters_active(self),
    {
        self.name.as_str().unicode_len() != 0 || self.file_type != FileTypeFilter::All
            || self.min_size.is_some() || self.max_size.is_some()
            || self.modified_within_days.is_some()
    }
}

/// The position just after the last `.` in `s` (0 when `s` has none).
pub open spec fn after_last_dot_pos(s: Seq<char>) -> int
    decreases s.len(),
{
    if s.len() == 0 {
        0
    } else if s.last() == '.' {
        s.len() as int
    } else {
        after_last_dot_pos(s.drop_last())
    }
}

/// The part of `s` after its last `.` (all of `s` when it has none), as
/// `rsplit('.').next()` gives it.
pub open spec fn after_last_dot(s: Seq<char>) -> Seq<char> {
    s.skip(after_last_dot_pos(s))
}

/// `after_last_dot_pos` is a position in `s`, and the character before it
/// is the last `.`.
pub proof fn lemma_after_last_dot_pos(s: Seq<char>)
    ensures
        0 <= after_last_dot_pos(s) <= s.len(),
        after_last_dot_pos(s) > 0 ==> s[after_last_dot_pos(s) - 1] == '.',
        forall|k: int| after_last_dot_pos(s) <= k < s.len() ==> #[trigger] s[k] != '.',
    decreases s.len(),
{
    if s.len() > 0 && s.last() != '.' {
        lemma_after_last_dot_pos(s.drop_last());
        assert forall|k: int| after_last_dot_pos(s) <= k < s.len() implies #[trigger] s[k] != '.' by {
            if k < s.len() - 1 {
                assert(s.drop_last()[k] == s[k]);
            }
        }
    }
}

/// The file-name extensions that the `Code` filter accepts.
pub open spec fn is_code_extension(e: Seq<char>) -> bool {
    ||| e == "rs"@
    ||| e == "py"@
    ||| e == "js"@
    ||| e == "ts"@
    ||| e == "tsx"@
    ||| e == "jsx"@
    ||| e == "md"@
    ||| e == "txt"@
    ||| e == "sh"@
    ||| e == "toml"@
    ||| e == "json"@
    ||| e == "yaml"@
    ||| e == "yml"@
    ||| e == "css"@
    ||| e == "html"@
    ||| e == "c"@
    ||| e == "cpp"@
    ||| e == "go"@
}

/// What the search knows of an entry: its URI, name, whether it is a
/// folder, its size, its modification time and its MIME type.
pub struct ItemView {
    pub uri: Seq<char>,
    pub name: Seq<char>,
    pub is_dir: bool,
    pub size: u64,
    pub modified: i64,
    pub content_type: Seq<char>,
}

/// What an item records.
pub open spec fn view_of(item: &FileItem) -> ItemView {
    ItemView {
        uri: item.uri@,
        name: item.name@,
        is_dir: item.is_dir,
        size: item.size,
        modified: item.modified,
        content_type: item.content_type@,
    }
}

/// The entry's name contains the filter's name, ignoring ASCII case.
pub open spec fn view_name_matches(v: ItemView, f: &SearchFilters) -> bool {
    f.name@.len() == 0 || contains_seq(ascii_lower_seq(v.name), ascii_lower_seq(f.name@))
}

/// The entry is of the kind that the type filter asks for.
pub open spec fn view_type_matches(v: ItemView, t: FileTypeFilter) -> bool {
    match t {
        FileTypeFilter::All => true,
        FileTypeFilter::Directories => v.is_dir,
        FileTypeFilter::Images => !v.is_dir && starts_with_seq(v.content_type, "image/"@),
        FileTypeFilter::Video => !v.is_dir && starts_with_seq(v.content_type, "video/"@),
        FileTypeFilter::Pdf => !v.is_dir && v.content_type == "application/pdf"@,
        FileTypeFilter::Code => !v.is_dir && is_code_extension(ascii_lower_seq(after_last_dot(v.name))),
    }
}

/// The item's name contains the filter's name, ignoring ASCII case.
pub open spec fn name_matches(item: &FileItem, f: &SearchFilters) -> bool {
    view_name_matches(view_of(item), f)
}

/// The item is of the kind that the type filter asks for.
pub open spec fn type_matches(item: &FileItem, t: FileTypeFilter) -> bool {
    view_type_matches(view_of(item), t)
}

/// The earliest modification time (seconds since the epoch) that a
/// "modified within `days` days" filter accepts at time `now`: 0 where that
/// moment lies before the epoch, and the seconds converted to `i64` (which
/// wraps past `i64::MAX`) otherwise.
pub open spec fn modified_cutoff(now: u64, days: u32) -> i64 {
    if now >= days * 86400 {
        ((now - days * 86400) as u64) as i64
    } else {
        0
    }
}

/// The entry passes every filter that is set, at time `now` (whole seconds
/// since the epoch).
pub open spec fn view_matches(v: ItemView, f: &SearchFilters, now: u64) -> bool {
    &&& view_name_matches(v, f)
    &&& view_type_matches(v, f.file_type)
    &&& (f.min_size matches Some(min) ==> v.size >= min)
    &&& (f.max_size matches Some(max) ==> v.size <= max)
    &&& (f.modified_within_days matches Some(days) ==> v.modified >= modified_cutoff(now, days))
}

/// The item passes every filter that is set, at time `now` (whole seconds
/// since the epoch).
pub open spec fn item_matches(item: &FileItem, f: &SearchFilters, now: u64) -> bool {
    view_matches(view_of(item), f, now)
}

/// The position just after the last `.` in `s` (0 when it has none).
pub fn after_last_dot_index(s: &Vec<char>) -> (r: usize)
    ensures
        r == after_last_dot_pos(s@),
{
    let mut i: usize = s.len();
    assert(s@.take(s.len() as int) =~= s@);
    while i > 0 && s[i - 1] != '.'
        invariant
            i <= s.len(),
            after_last_dot_pos(s@) == after_last_dot_pos(s@.take(i as int)),
        decreases i,
    {
        let ghost t = s@.take(i as int);
        assert(t.drop_last() =~= s@.take(i - 1));
        assert(t.last() == s@[i - 1]);
        i = i - 1;
    }
    proof {
        let t = s@.take(i as int);
        if i > 0 {
            assert(t.last() == s@[i - 1]);
        }
    }
    i
}

/// The part of `s` after its last `.`.
fn after_last_dot_exec(s: &Vec<char>) -> (r: Vec<char>)
    ensures
        r@ == after_last_dot(s@),
{
    let i = after_last_dot_index(s);
    proof {
        lemma_after_last_dot_pos(s@);
    }
    crate::text::sub_chars(s, i, s.len())
}

/// Whether `e` is one of the code extensions.
fn is_code_extension_exec(e: &Vec<char>) -> (r: bool)
    ensures
        r == is_code_extension(e@),
{
    chars_eq_str(e, "rs") || chars_eq_str(e, "py") || chars_eq_str(e, "js") || chars_eq_str(e, "ts")
        || chars_eq_str(e, "tsx") || chars_eq_str(e, "jsx") || chars_eq_str(e, "md")
        || chars_eq_str(e, "txt") || chars_eq_str(e, "sh") || chars_eq_str(e, "toml")
        || chars_eq_str(e, "json") || chars_eq_str(e, "yaml") || chars_eq_str(e, "yml")
        || chars_eq_str(e, "css") || chars_eq_str(e, "html") || chars_eq_str(e, "c")
        || chars_eq_str(e, "cpp") || chars_eq_str(e, "go")
}

/// Whether the item is of the kind the type filter asks for.
fn type_matches_exec(item: &FileItem, t: FileTypeFilter) -> (r: bool)
    ensures
        r == type_matches(item, t),
{
    match t {
        FileTypeFilter::All => true,
        FileTypeFilter::Directories => item.is_dir,
        FileTypeFilter::Images => {
            let ct = chars_of(item.content_type.as_str());
            !item.is_dir && starts_with_str(&ct, "image/")
        },
        FileTypeFilter::Video => {
            let ct = chars_of(item.content_type.as_str());
            !item.is_dir && starts_with_str(&ct, "video/")
        },
        FileTypeFilter::Pdf => {
            let ct = chars_of(item.content_type.as_str());
            !item.is_dir && chars_eq_str(&ct, "application/pdf")
        },
        FileTypeFilter::Code => {
            if item.is_dir {
                false
            } else {
                let name = chars_of(item.name.as_str());
                let ext = after_last_dot_exec(&name);
                let lower = ascii_lower(&ext);
                is_code_extension_exec(&lower)
            }
        },
    }
}

/// Whether `item` passes every filter that is set, at time `now` (whole
/// seconds since the epoch).
pub fn matches_filters(item: &FileItem, filters: &SearchFilters, now: u64) -> (r: bool)
    ensures
        r == item_matches(item, filters, now),
{
    let fname = chars_of(filters.name.as_str());
    if fname.len() != 0 {
        let iname = chars_of(item.name.as_str());
        let hay = ascii_lower(&iname);
        let needle = ascii_lower(&fname);
        if !contains(&hay, &needle) {
            return false;
        }
    }
    if !type_matches_exec(item, filters.file_type) {
        return false;
    }
    if let Some(min_size) = filters.min_size {
        if item.size < min_size {
            return false;
        }
    }
    if let Some(max_size) = filters.max_size {
        if item.size > max_size {
            return false;
        }
    }
    if let Some(days) = filters.modified_within_days {
        let span: u64 = (days as u64) * 86400;
        let cutoff: i64 = if now >= span {
            let c: u64 = now - span;
            #[verifier::truncate]
            (c as i64)
        } else {
            0
        };
        if item.modified < cutoff {
            return false;
        }
    }
    true
}


/// What an optional number field holds: nothing when it is blank, else the
/// number that `str::parse` reads from the trimmed text (nothing when that
/// fails or does not fit below `max`).
pub open spec fn optional_number(text: Seq<char>, max: nat) -> Option<nat> {
    let t = trim_seq(text);
    if t.len() == 0 {
        None
    } else {
        parse_unsigned_seq(t, max)
    }
}

/// Reads an optional `u64` field.
pub fn parse_optional_u64(value: &str) -> (r: Option<u64>)
    ensures
        match optional_number(value@, u64::MAX as nat) {
            Some(v) => r == Some(v as u64),
            None => r is None,
        },
{
    let v = chars_of(value);
    let t = trim(&v);
    if t.len() == 0 {
        None
    } else {
        parse_unsigned(&t, u64::MAX)
    }
}

/// Reads an optional `u32` field.
pub fn parse_optional_u32(value: &str) -> (r: Option<u32>)
    ensures
        match optional_number(value@, u32::MAX as nat) {
            Some(v) => r == Some(v as u32),
            None => r is None,
        },
{
    let v = chars_of(value);
    let t = trim(&v);
    if t.len() == 0 {
        None
    } else {
        match parse_unsigned(&t, u32::MAX as u64) {
            Some(n) => Some(n as u32),
            None => None,
        }
    }
}

/// The type filter chosen by the position of the entry in the type list
/// ("All types", "Folders", "Images", "Video", "PDF", "Code").
pub open spec fn file_type_at(index: u32) -> FileTypeFilter {
    if index == 1 {
        FileTypeFilter::Directories
    } else if index == 2 {
        FileTypeFilter::Images
    } else if index == 3 {
        FileTypeFilter::Video
    } else if index == 4 {
        FileTypeFilter::Pdf
    } else if index == 5 {
        FileTypeFilter::Code
    } else {
        FileTypeFilter::All
    }
}

/// The type filter for a position in the type list.
pub fn file_type_for_index(index: u32) -> (r: FileTypeFilter)
    ensures
        r == file_type_at(index),
{
    match index {
        1 => FileTypeFilter::Directories,
        2 => FileTypeFilter::Images,
        3 => FileTypeFilter::Video,
        4 => FileTypeFilter::Pdf,
        5 => FileTypeFilter::Code,
        _ => FileTypeFilter::All,
    }
}

/// The filters described by the search bar's fields: the name text as typed,
/// the chosen position in the type list, and the texts of the size and age
/// fields.
pub fn filters_from_fields(
    name: &str,
    type_index: u32,
    min_size_text: &str,
    max_size_text: &str,
    days_text: &str,
) -> (r: SearchFilters)
    ensures
        r.name@ == name@,
        r.file_type == file_type_at(type_index),
        match optional_number(min_size_text@, u64::MAX as nat) {
            Some(v) => r.min_size == Some(v as u64),
            None => r.min_size is None,
        },
        match optional_number(max_size_text@, u64::MAX as nat) {
            Some(v) => r.max_size == Some(v as u64),
            None => r.max_size is None,
        },
        match optional_number(days_text@, u32::MAX as nat) {
            Some(v) => r.modified_within_days == Some(v as u32),
            None => r.modified_within_days is None,
        },
{
    let n = chars_of(name);
    SearchFilters {
        name: string_of(&n),
        file_type: file_type_for_index(type_index),
        min_size: parse_optional_u64(min_size_text),
        max_size: parse_optional_u64(max_size_text),
        modified_within_days: parse_optional_u32(days_text),
    }
}

/// The deepest level below the search root that the walk enters.
pub open spec fn max_walk_depth() -> int {
    8
}

/// What the walk does with one entry of a directory it enumerates.
#[derive(Debug)]
pub enum WalkStep {
    /// The entry is `.` or `..` and is passed over.
    Skip,
    /// The entry becomes `item`; it is added to the results when `keep`
    /// holds, and the walk enters it when `descend` holds.
    Visit { item: FileItem, keep: bool, descend: bool },
}

/// The MIME type recorded when the file system reports none.
pub open spec fn unknown_content_type() -> Seq<char> {
    "application/octet-stream"@
}

/// Decides what the search walk does with one directory entry, seen at
/// `depth` levels below the root (the root's own entries are at depth 0):
/// its display name, the URI of the child, whether it is a directory, the
/// size the file system reports, its modification time in seconds since the
/// epoch, and its MIME type if known. `now` is the current time in whole
/// seconds since the epoch.
pub fn walk_entry(
    name: String,
    child_uri: String,
    is_dir: bool,
    reported_size: i64,
    modified: i64,
    content_type: Option<String>,
    filters: &SearchFilters,
    now: u64,
    depth: u8,
) -> (r: WalkStep)
    requires
        depth <= max_walk_depth(),
    ensures
        (name@ == "."@ || name@ == ".."@) ==> r is Skip,
        !(name@ == "."@ || name@ == ".."@) ==> (r matches WalkStep::Visit { item, keep, descend } && {
            &&& item.uri == child_uri
            &&& item.name == name
            &&& item.is_dir == is_dir
            &&& item.size == (if is_dir { 0 } else { reported_size as u64 })
            &&& item.modified == modified
            &&& item.content_type@ == (match content_type {
                Some(t) => t@,
                None => unknown_content_type(),
            })
            &&& keep == item_matches(&item, filters, now)
            &&& descend == (is_dir && depth < max_walk_depth())
            &&& view_of(&item) == entry_view(
                name@,
                child_uri@,
                is_dir,
                reported_size,
                modified,
                match content_type {
                    Some(t) => Some(t@),
                    None => None,
                },
            )
            &&& keep == view_matches(view_of(&item), filters, now)
        }),
{
    let n = chars_of(name.as_str());
    if chars_eq_str(&n, ".") || chars_eq_str(&n, "..") {
        return WalkStep::Skip;
    }
    let size: u64 = if is_dir {
        0
    } else {
        #[verifier::truncate]
        (reported_size as u64)
    };
    let content_type = match content_type {
        Some(t) => t,
        None => {
            let d = chars_of("application/octet-stream");
            string_of(&d)
        },
    };
    let item = FileItem { uri: child_uri, name, is_dir, size, modified, content_type };
    let keep = matches_filters(&item, filters, now);
    WalkStep::Visit { item, keep, descend: is_dir && depth < 8 }
}

/// What the search knows of an entry read from a folder: its display name,
/// the URI of the child, whether it is a folder, the size the file system
/// reports, its modification time and its MIME type if known (the size of a
/// folder counts as 0; an unknown type as `unknown_content_type`).
pub open spec fn entry_view(
    name: Seq<char>,
    uri: Seq<char>,
    is_dir: bool,
    reported_size: i64,
    modified: i64,
    content_type: Option<Seq<char>>,
) -> ItemView {
    ItemView {
        uri,
        name,
        is_dir,
        size: if is_dir { 0 } else { reported_size as u64 },
        modified,
        content_type: match content_type {
            Some(t) => t,
            None => unknown_content_type(),
        },
    }
}

/// The entry is `.` or `..`.
pub open spec fn is_dot_entry(name: Seq<char>) -> bool {
    name == "."@ || name == ".."@
}

/// One entry of a folder as the search walk reads it, and, for a folder,
/// what the walk would read inside it.
pub struct EntryRead {
    pub name: Seq<char>,
    pub uri: Seq<char>,
    pub is_dir: bool,
    pub reported_size: i64,
    pub modified: i64,
    pub content_type: Option<Seq<char>>,
    pub contents: FolderRead,
}

/// A folder as the search walk reads it: its entries in the order the file
/// system lists them, and whether listing it fails after them (with no
/// entries: fails at once).
pub struct FolderRead {
    pub entries: Seq<EntryRead>,
    pub fails: bool,
}

/// What the search knows of a read entry.
pub open spec fn entry_item(e: EntryRead) -> ItemView {
    entry_view(e.name, e.uri, e.is_dir, e.reported_size, e.modified, e.content_type)
}

/// The items that a search walk collects from `entries`, found at `depth`
/// levels below the searched folder, each with the level it was found at,
/// in the order found, and whether the walk went through (false: a listing
/// failed, which ends the search with an error). Entries `.` and `..` are
/// passed over; an entry is collected when it matches the filters at time
/// `now`; a folder is entered when it lies above the deepest level.
pub open spec fn walk_entries(entries: Seq<EntryRead>, f: &SearchFilters, now: u64, depth: int) -> (
    Seq<(ItemView, int)>,
    bool,
)
    decreases entries,
{
    if entries.len() == 0 {
        (seq![], true)
    } else {
        let e = entries[0];
        let rest = entries.subrange(1, entries.len() as int);
        if is_dot_entry(e.name) {
            walk_entries(rest, f, now, depth)
        } else {
            let here: Seq<(ItemView, int)> = if view_matches(entry_item(e), f, now) {
                seq![(entry_item(e), depth)]
            } else {
                seq![]
            };
            let below = if e.is_dir && depth < max_walk_depth() {
                walk_folder(e.contents, f, now, depth + 1)
            } else {
                (seq![], true)
            };
            if !below.1 {
                (here + below.0, false)
            } else {
                let after = walk_entries(rest, f, now, depth);
                (here + below.0 + after.0, after.1)
            }
        }
    }
}

/// The items that a search walk collects from `folder`, read at `depth`
/// levels below the searched folder, and whether it went through.
pub open spec fn walk_folder(folder: FolderRead, f: &SearchFilters, now: u64, depth: int) -> (
    Seq<(ItemView, int)>,
    bool,
)
    decreases folder,
{
    let inner = walk_entries(folder.entries, f, now, depth);
    (inner.0, inner.1 && !folder.fails)
}

/// Every item found matches the filters at `now`, none is `.` or `..`, and
/// each lies between level `depth` and the deepest level.
pub open spec fn found_well(found: Seq<(ItemView, int)>, f: &SearchFilters, now: u64, depth: int) -> bool {
    forall|k: int|
        0 <= k < found.len() ==> {
            &&& view_matches((#[trigger] found[k]).0, f, now)
            &&& !is_dot_entry(found[k].0.name)
            &&& depth <= found[k].1 <= max_walk_depth()
        }
}

proof fn lemma_found_well_concat(a: Seq<(ItemView, int)>, b: Seq<(ItemView, int)>, f: &SearchFilters, now: u64, depth: int)
    requires
        found_well(a, f, now, depth),
        found_well(b, f, now, depth),
    ensures
        found_well(a + b, f, now, depth),
{
    assert forall|k: int| 0 <= k < (a + b).len() implies {
        &&& view_matches((#[trigger] (a + b)[k]).0, f, now)
        &&& !is_dot_entry((a + b)[k].0.name)
        &&& depth <= (a + b)[k].1 <= max_walk_depth()
    } by {
        if k < a.len() {
            assert((a + b)[k] == a[k]);
        } else {
            assert((a + b)[k] == b[k - a.len()]);
        }
    }
}

proof fn lemma_walk_entries_found_well(entries: Seq<EntryRead>, f: &SearchFilters, now: u64, depth: int)
    requires
        0 <= depth <= max_walk_depth(),
    ensures
        found_well(walk_entries(entries, f, now, depth).0, f, now, depth),
    decreases entries,
{
    if entries.len() > 0 {
        let e = entries[0];
        let rest = entries.subrange(1, entries.len() as int);
        lemma_walk_entries_found_well(rest, f, now, depth);
        if !is_dot_entry(e.name) {
            let here: Seq<(ItemView, int)> = if view_matches(entry_item(e), f, now) {
                seq![(entry_item(e), depth)]
            } else {
                seq![]
            };
            assert(found_well(here, f, now, depth)) by {
                if view_matches(entry_item(e), f, now) {
                    assert(here[0] == (entry_item(e), depth));
                }
            }
            let below = if e.is_dir && depth < max_walk_depth() {
                walk_folder(e.contents, f, now, depth + 1)
            } else {
                (Seq::<(ItemView, int)>::empty(), true)
            };
            assert(found_well(below.0, f, now, depth)) by {
                if e.is_dir && depth < max_walk_depth() {
                    lemma_walk_folder_found_well(e.contents, f, now, depth + 1);
                    let b = below.0;
                    assert forall|k: int| 0 <= k < b.len() implies {
                        &&& view_matches((#[trigger] b[k]).0, f, now)
                        &&& !is_dot_entry(b[k].0.name)
                        &&& depth <= b[k].1 <= max_walk_depth()
                    } by {
                        assert(depth + 1 <= b[k].1);
                    }
                }
            }
            lemma_found_well_concat(here, below.0, f, now, depth);
            let after = walk_entries(rest, f, now, depth);
            lemma_found_well_concat(here + below.0, after.0, f, now, depth);
        }
    }
}

proof fn lemma_walk_folder_found_well(folder: FolderRead, f: &SearchFilters, now: u64, depth: int)
    requires
        0 <= depth <= max_walk_depth(),
    ensures
        found_well(walk_folder(folder, f, now, depth).0, f, now, depth),
    decreases folder,
{
    lemma_walk_entries_found_well(folder.entries, f, now, depth);
}

/// Over a whole search walk of a folder, read at `depth` levels below the
/// searched folder (the search starts at 0): every item collected matches
/// the filters, none is `.` or `..`, and each was found between that level
/// and the deepest level, so no folder deeper than that is entered.
pub proof fn law_walk_collects_only_matches(folder: FolderRead, f: &SearchFilters, now: u64, depth: int)
    requires
        0 <= depth <= max_walk_depth(),
    ensures
        forall|k: int|
            0 <= k < walk_folder(folder, f, now, depth).0.len() ==> {
                let (item, level) = #[trigger] walk_folder(folder, f, now, depth).0[k];
                &&& view_matches(item, f, now)
                &&& !is_dot_entry(item.name)
                &&& depth <= level <= max_walk_depth()
            },
{
    lemma_walk_folder_found_well(folder, f, now, depth);
}

/// The items of a list of found items, without their levels.
pub open spec fn found_items(found: Seq<(ItemView, int)>) -> Seq<ItemView> {
    found.map_values(|p: (ItemView, int)| p.0)
}

/// The search walk as the directory walk runs it: the results gathered so
/// far, with the items it collects from `entries` (read at `depth` levels
/// below the searched folder) appended to them in the order found, and
/// whether it went through. An entry `.` or `..` is passed over; an entry
/// that matches the filters at `now` is appended; a folder is then walked
/// one level deeper.
pub open spec fn walk_entries_into(
    results: Seq<ItemView>,
    entries: Seq<EntryRead>,
    f: &SearchFilters,
    now: u64,
    depth: int,
) -> (Seq<ItemView>, bool)
    decreases entries,
{
    if entries.len() == 0 {
        (results, true)
    } else {
        let e = entries[0];
        let rest = entries.subrange(1, entries.len() as int);
        if is_dot_entry(e.name) {
            walk_entries_into(results, rest, f, now, depth)
        } else {
            let kept = if view_matches(entry_item(e), f, now) {
                results.push(entry_item(e))
            } else {
                results
            };
            let below = if e.is_dir {
                walk_folder_into(kept, e.contents, f, now, depth + 1)
            } else {
                (kept, true)
            };
            if !below.1 {
                below
            } else {
                walk_entries_into(below.0, rest, f, now, depth)
            }
        }
    }
}

/// The directory walk of `folder` at `depth` levels below the searched
/// folder, appending to `results`: beyond the deepest level it returns at
/// once, reading nothing; else it walks the folder's entries and fails when
/// listing the folder fails.
pub open spec fn walk_folder_into(
    results: Seq<ItemView>,
    folder: FolderRead,
    f: &SearchFilters,
    now: u64,
    depth: int,
) -> (Seq<ItemView>, bool)
    decreases folder,
{
    if depth > max_walk_depth() {
        (results, true)
    } else {
        let inner = walk_entries_into(results, folder.entries, f, now, depth);
        (inner.0, inner.1 && !folder.fails)
    }
}

/// `v` is an entry of one of `entries`, other than `.` and `..`, found
/// `below` folders down: with `below` 0 it is one of the entries; else it
/// lies that far down in a folder among them.
pub open spec fn lies_in(entries: Seq<EntryRead>, v: ItemView, below: nat) -> bool
    decreases below,
{
    exists|i: int|
        0 <= i < entries.len() && !is_dot_entry(#[trigger] entries[i].name) && if below == 0 {
            entry_item(entries[i]) == v
        } else {
            entries[i].is_dir && lies_in(entries[i].contents.entries, v, (below - 1) as nat)
        }
}

proof fn lemma_views_concat(a: Seq<(ItemView, int)>, b: Seq<(ItemView, int)>)
    ensures
        found_items(a + b) == found_items(a) + found_items(b),
{
    assert(found_items(a + b) =~= found_items(a) + found_items(b));
}

proof fn lemma_walk_entries_into(
    results: Seq<ItemView>,
    entries: Seq<EntryRead>,
    f: &SearchFilters,
    now: u64,
    depth: int,
)
    requires
        0 <= depth <= max_walk_depth(),
    ensures
        walk_entries_into(results, entries, f, now, depth) == (
            results + found_items(walk_entries(entries, f, now, depth).0),
            walk_entries(entries, f, now, depth).1,
        ),
    decreases entries,
{
    if entries.len() == 0 {
        assert(results + found_items(seq![]) =~= results);
    } else {
        let e = entries[0];
        let rest = entries.subrange(1, entries.len() as int);
        if is_dot_entry(e.name) {
            lemma_walk_entries_into(results, rest, f, now, depth);
        } else {
            let here: Seq<(ItemView, int)> = if view_matches(entry_item(e), f, now) {
                seq![(entry_item(e), depth)]
            } else {
                seq![]
            };
            let kept = if view_matches(entry_item(e), f, now) {
                results.push(entry_item(e))
            } else {
                results
            };
            assert(kept =~= results + found_items(here));
            let below = if e.is_dir && depth < max_walk_depth() {
                walk_folder(e.contents, f, now, depth + 1)
            } else {
                (Seq::<(ItemView, int)>::empty(), true)
            };
            let below_into = if e.is_dir {
                walk_folder_into(kept, e.contents, f, now, depth + 1)
            } else {
                (kept, true)
            };
            if e.is_dir && depth < max_walk_depth() {
                lemma_walk_entries_into(kept, e.contents.entries, f, now, depth + 1);
            } else {
                assert(kept + found_items(below.0) =~= kept);
            }
            assert(below_into == (kept + found_items(below.0), below.1));
            lemma_views_concat(here, below.0);
            assert(below_into.0 =~= results + found_items(here + below.0));
            if below.1 {
                lemma_walk_entries_into(below_into.0, rest, f, now, depth);
                let after = walk_entries(rest, f, now, depth);
                lemma_views_concat(here + below.0, after.0);
                assert(below_into.0 + found_items(after.0) =~= results + found_items(here + below.0 + after.0));
            }
        }
    }
}

proof fn lemma_walk_entries_lie_in(entries: Seq<EntryRead>, f: &SearchFilters, now: u64, depth: int)
    requires
        0 <= depth <= max_walk_depth(),
    ensures
        forall|k: int|
            0 <= k < walk_entries(entries, f, now, depth).0.len() ==> lies_in(
                entries,
                (#[trigger] walk_entries(entries, f, now, depth).0[k]).0,
                (walk_entries(entries, f, now, depth).0[k].1 - depth) as nat,
            ),
    decreases entries,
{
    if entries.len() > 0 {
        let e = entries[0];
        let rest = entries.subrange(1, entries.len() as int);
        lemma_walk_entries_lie_in(rest, f, now, depth);
        lemma_walk_entries_found_well(rest, f, now, depth);
        let after = walk_entries(rest, f, now, depth);
        assert forall|k: int| 0 <= k < after.0.len() implies lies_in(
            entries,
            (#[trigger] after.0[k]).0,
            (after.0[k].1 - depth) as nat,
        ) by {
            let b = (after.0[k].1 - depth) as nat;
            assert(lies_in(rest, after.0[k].0, b));
            let i = choose|i: int|
                0 <= i < rest.len() && !is_dot_entry(#[trigger] rest[i].name) && if b == 0 {
                    entry_item(rest[i]) == after.0[k].0
                } else {
                    rest[i].is_dir && lies_in(rest[i].contents.entries, after.0[k].0, (b - 1) as nat)
                };
            assert(entries[i + 1] == rest[i]);
        }
        if !is_dot_entry(e.name) {
            let here: Seq<(ItemView, int)> = if view_matches(entry_item(e), f, now) {
                seq![(entry_item(e), depth)]
            } else {
                seq![]
            };
            let below = if e.is_dir && depth < max_walk_depth() {
                walk_folder(e.contents, f, now, depth + 1)
            } else {
                (Seq::<(ItemView, int)>::empty(), true)
            };
            assert forall|k: int| 0 <= k < here.len() implies lies_in(
                entries,
                (#[trigger] here[k]).0,
                (here[k].1 - depth) as nat,
            ) by {
                assert(entries[0] == e);
            }
            assert forall|k: int| 0 <= k < below.0.len() implies lies_in(
                entries,
                (#[trigger] below.0[k]).0,
                (below.0[k].1 - depth) as nat,
            ) by {
                lemma_walk_entries_lie_in(e.contents.entries, f, now, depth + 1);
                lemma_walk_entries_found_well(e.contents.entries, f, now, depth + 1);
                assert(depth + 1 <= below.0[k].1);
                assert(lies_in(e.contents.entries, below.0[k].0, (below.0[k].1 - (depth + 1)) as nat));
                assert(entries[0] == e);
            }
            let found = walk_entries(entries, f, now, depth).0;
            assert forall|k: int| 0 <= k < found.len() implies lies_in(
                entries,
                (#[trigger] found[k]).0,
                (found[k].1 - depth) as nat,
            ) by {
                if k < here.len() {
                    assert(found[k] == here[k]);
                } else if k < here.len() + below.0.len() {
                    assert(found[k] == below.0[k - here.len()]);
                } else {
                    assert(found[k] == after.0[k - here.len() - below.0.len()]);
                }
            }
        }
    }
}

/// The directory walk of a folder at any level `depth` below the searched
/// folder (the search starts at 0) keeps the results gathered before it as
/// a prefix of the results, whether it goes through or fails; every item it
/// appends matches the filters, is not `.` or `..`, and lies in the folder
/// at most as many levels down as remain above the deepest level. Beyond
/// the deepest level it appends nothing and goes through.
pub proof fn law_walk_appends_matches_under_folder(
    results: Seq<ItemView>,
    folder: FolderRead,
    f: &SearchFilters,
    now: u64,
    depth: int,
)
    requires
        0 <= depth,
    ensures
        ({
            let r = walk_folder_into(results, folder, f, now, depth).0;
            &&& results.len() <= r.len()
            &&& r.take(results.len() as int) == results
            &&& forall|k: int|
                results.len() <= k < r.len() ==> {
                    &&& view_matches(#[trigger] r[k], f, now)
                    &&& !is_dot_entry(r[k].name)
                    &&& exists|below: nat|
                        below <= max_walk_depth() - depth && lies_in(folder.entries, r[k], below)
                }
        }),
        depth > max_walk_depth() ==> walk_folder_into(results, folder, f, now, depth) == (results, true),
{
    if depth <= max_walk_depth() {
        lemma_walk_entries_into(results, folder.entries, f, now, depth);
        lemma_walk_entries_found_well(folder.entries, f, now, depth);
        lemma_walk_entries_lie_in(folder.entries, f, now, depth);
        let found = walk_entries(folder.entries, f, now, depth).0;
        let r = walk_folder_into(results, folder, f, now, depth).0;
        assert(r == results + found_items(found));
        assert(r.take(results.len() as int) =~= results);
        assert forall|k: int| results.len() <= k < r.len() implies {
            &&& view_matches(#[trigger] r[k], f, now)
            &&& !is_dot_entry(r[k].name)
            &&& exists|below: nat|
                below <= max_walk_depth() - depth && lies_in(folder.entries, r[k], below)
        } by {
            let j = k - results.len();
            assert(r[k] == found[j].0);
            let below = (found[j].1 - depth) as nat;
            assert(lies_in(folder.entries, r[k], below));
        }
    } else {
        assert(results.take(results.len() as int) =~= results);
    }
}

/// Name for the lower-case form that `str::to_lowercase` gives (the full
/// Unicode case mapping).
pub uninterp spec fn unicode_lowercase(s: Seq<char>) -> Seq<char>;

/// `str::to_lowercase`: the result is `unicode_lowercase` of the argument.
#[verifier::external_body]
fn to_lowercase(s: &str) -> (r: String)
    ensures
        r@ == unicode_lowercase(s@),
{
    s.to_lowercase()
}

/// The keys by which search results are ordered: the lower-case names.
pub open spec fn result_keys(items: Seq<FileItem>) -> Seq<Seq<char>> {
    items.map_values(|it: FileItem| unicode_lowercase(it.name@))
}

/// Orders search results by lower-case name; results with the same
/// lower-case name keep the order in which the walk found them.
pub fn sort_results(items: Vec<FileItem>) -> (r: Vec<FileItem>)
    ensures
        exists|perm: Seq<usize>|
            is_stable_sorted_order(result_keys(items@), perm) && arranged(items@, perm, r@),
{
    let mut keys: Vec<Vec<char>> = Vec::new();
    let mut i: usize = 0;
    while i < items.len()
        invariant
            i <= items.len(),
            keys.len() == i,
            forall|k: int| 0 <= k < i ==> (#[trigger] keys@[k])@ == unicode_lowercase(items@[k].name@),
        decreases items.len() - i,
    {
        let low = to_lowercase(items[i].name.as_str());
        keys.push(chars_of(low.as_str()));
        i = i + 1;
    }
    assert(keys@.map_values(|k: Vec<char>| k@) =~= result_keys(items@));
    let perm = stable_sorted_order(&keys);
    let mut out: Vec<FileItem> = Vec::new();
    let mut j: usize = 0;
    while j < perm.len()
        invariant
            j <= perm.len(),
            perm.len() == items.len(),
            forall|k: int| 0 <= k < perm.len() ==> #[trigger] perm@[k] < items.len(),
            out.len() == j,
            forall|k: int| 0 <= k < j ==> #[trigger] out@[k] == items@[perm@[k] as int],
        decreases perm.len() - j,
    {
        out.push(items[perm[j]].duplicate());
        j = j + 1;
    }
    assert(arranged(items@, perm@, out@));
    out
}


/// The `Code` type filter accepts exactly the files (not folders) whose
/// extension, after the last `.` of the name and lower-cased, is one of rs,
/// py, js, ts, tsx, jsx, md, txt, sh, toml, json, yaml, yml, css, html, c,
/// cpp and go.
pub proof fn law_code_filter_accepts_code_files(item: &FileItem)
    ensures
        type_matches(item, FileTypeFilter::Code) <==> !item.is_dir && seq![
            "rs"@, "py"@, "js"@, "ts"@, "tsx"@, "jsx"@, "md"@, "txt"@, "sh"@, "toml"@, "json"@,
            "yaml"@, "yml"@, "css"@, "html"@, "c"@, "cpp"@, "go"@,
        ].contains(ascii_lower_seq(after_last_dot(item.name@))),
{
    let list: Seq<Seq<char>> = seq![
        "rs"@, "py"@, "js"@, "ts"@, "tsx"@, "jsx"@, "md"@, "txt"@, "sh"@, "toml"@, "json"@,
        "yaml"@, "yml"@, "css"@, "html"@, "c"@, "cpp"@, "go"@,
    ];
    let e = ascii_lower_seq(after_last_dot(item.name@));
    if list.contains(e) {
        let k = choose|k: int| 0 <= k < list.len() && list[k] == e;
        assert(is_code_extension(list[k]));
    }
    if is_code_extension(e) {
        if e == "rs"@ { assert(list[0] == e); }
        else if e == "py"@ { assert(list[1] == e); }
        else if e == "js"@ { assert(list[2] == e); }
        else if e == "ts"@ { assert(list[3] == e); }
        else if e == "tsx"@ { assert(list[4] == e); }
        else if e == "jsx"@ { assert(list[5] == e); }
        else if e == "md"@ { assert(list[6] == e); }
        else if e == "txt"@ { assert(list[7] == e); }
        else if e == "sh"@ { assert(list[8] == e); }
        else if e == "toml"@ { assert(list[9] == e); }
        else if e == "json"@ { assert(list[10] == e); }
        else if e == "yaml"@ { assert(list[11] == e); }
        else if e == "yml"@ { assert(list[12] == e); }
        else if e == "css"@ { assert(list[13] == e); }
        else if e == "html"@ { assert(list[14] == e); }
        else if e == "c"@ { assert(list[15] == e); }
        else if e == "cpp"@ { assert(list[16] == e); }
        else { assert(list[17] == e); }
    }
}

/// When no filter is set, every entry matches.
pub proof fn law_inactive_filters_match_all(item: &FileItem, f: &SearchFilters, now: u64)
    requires
        !filters_active(f),
    ensures
        item_matches(item, f, now),
{
}

} // verus!
