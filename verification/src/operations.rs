//! The file browser's own decisions: how rows name their entries, what a
//! click on a row does, the clipboard of copy and cut, and the choice of a
//! free name when pasting into a folder that already holds one.
use vstd::prelude::*;

use crate::breadcrumb::{components, parts_view, path_parts, Part, PathPart};
use crate::search::{after_last_dot_index, after_last_dot_pos, lemma_after_last_dot_pos, FileItem};
use crate::text::{
    chars_eq_str, chars_of, concat2, dec_seq, extend_chars, lemma_dec_injective, lemma_dec_value, nat_to_string, starts_with_seq,
    starts_with_str, string_of, sub_chars,
};

verus! {

/// Whether a paste copies or moves the entry.
#[derive(Debug, Clone, Copy, PartialEq, Eq, Structural)]
pub enum ClipboardOperation {
    Copy,
    Move,
}

/// The entry waiting on the clipboard, and what a paste does with it.
#[derive(Debug)]
pub struct ClipboardEntry {
    pub source_uri: String,
    pub operation: ClipboardOperation,
}

impl ClipboardEntry {
    /// A copy of this entry.
    pub fn duplicate(&self) -> (r: ClipboardEntry)
        ensures
            r == *self,
    {
        ClipboardEntry { source_uri: self.source_uri.clone(), operation: self.operation }
    }
}

/// The name under which a listing row records its entry: directories are
/// marked with a `dir:` prefix.
pub open spec fn row_name_of(item: &FileItem) -> Seq<char> {
    if item.is_dir {
        "dir:"@ + item.uri@
    } else {
        item.uri@
    }
}

/// The name recorded on the listing row of `item`.
pub fn row_widget_name(item: &FileItem) -> (r: String)
    ensures
        r@ == row_name_of(item),
{
    if item.is_dir {
        concat2("dir:", item.uri.as_str())
    } else {
        item.uri.clone()
    }
}

/// The text shown on the listing row of `item`: a folder or document sign,
/// a space and the name.
pub fn row_label(item: &FileItem) -> (r: String)
    ensures
        r@ == (if item.is_dir { "📁 "@ } else { "📄 "@ }) + item.name@,
{
    if item.is_dir {
        concat2("📁 ", item.name.as_str())
    } else {
        concat2("📄 ", item.name.as_str())
    }
}

/// The entry that a row names, when it names one: the URI after `dir:`, or
/// a `file://` URI as it stands.
pub open spec fn entry_uri_of(row_name: Seq<char>) -> Option<Seq<char>> {
    if starts_with_seq(row_name, "dir:"@) {
        Some(row_name.skip(4))
    } else if starts_with_seq(row_name, "file://"@) {
        Some(row_name)
    } else {
        None
    }
}

/// The URI of the entry whose row is named `row_name`, if any.
pub fn selected_entry_uri(row_name: &str) -> (r: Option<String>)
    ensures
        match entry_uri_of(row_name@) {
            Some(u) => r matches Some(s) && s@ == u,
            None => r is None,
        },
{
    proof {
        reveal_strlit("dir:");
    }
    let n = chars_of(row_name);
    if starts_with_str(&n, "dir:") {
        let rest = sub_chars(&n, 4, n.len());
        Some(string_of(&rest))
    } else if starts_with_str(&n, "file://") {
        Some(string_of(&n))
    } else {
        None
    }
}

/// What activating a listing row does.
#[derive(Debug)]
pub enum RowActivation {
    /// Browse into the directory with this URI.
    Navigate(String),
    /// Open this URI with its default application unless it turns out to be
    /// a directory.
    OpenUnlessDirectory(String),
    /// Nothing.
    Ignore,
}

/// What activating the row named `row_name` does.
pub fn row_activation(row_name: &str) -> (r: RowActivation)
    ensures
        starts_with_seq(row_name@, "dir:"@) ==> (r matches RowActivation::Navigate(u) && u@
            == row_name@.skip(4)),
        !starts_with_seq(row_name@, "dir:"@) && starts_with_seq(row_name@, "file://"@)
            ==> (r matches RowActivation::OpenUnlessDirectory(u) && u@ == row_name@),
        !starts_with_seq(row_name@, "dir:"@) && !starts_with_seq(row_name@, "file://"@) ==> r is Ignore,
{
    proof {
        reveal_strlit("dir:");
    }
    let n = chars_of(row_name);
    if starts_with_str(&n, "dir:") {
        let rest = sub_chars(&n, 4, n.len());
        RowActivation::Navigate(string_of(&rest))
    } else if starts_with_str(&n, "file://") {
        RowActivation::OpenUnlessDirectory(string_of(&n))
    } else {
        RowActivation::Ignore
    }
}

/// The note shown instead of a listing for locations that are not browsed.
pub fn listing_notice(uri: &str) -> (r: Option<String>)
    ensures
        starts_with_seq(uri@, "network:"@) ==> (r matches Some(m) && m@
            == "Network places — smb:// and other URIs coming in a future release"@),
        !starts_with_seq(uri@, "network:"@) ==> r is None,
{
    let n = chars_of(uri);
    if starts_with_str(&n, "network:") {
        let m = chars_of("Network places — smb:// and other URIs coming in a future release");
        Some(string_of(&m))
    } else {
        None
    }
}

/// The single row shown when a listing has no entries.
pub fn empty_listing_message() -> (r: String)
    ensures
        r@ == "No matching files"@,
{
    let m = chars_of("No matching files");
    string_of(&m)
}

/// The browser's location and clipboard.
#[derive(Debug)]
pub struct BrowserState {
    current_uri: String,
    clipboard: Option<ClipboardEntry>,
}

impl BrowserState {
    /// The location shown.
    pub closed spec fn location(&self) -> Seq<char> {
        self.current_uri@
    }

    /// The entry on the clipboard.
    pub closed spec fn held(&self) -> Option<ClipboardEntry> {
        self.clipboard
    }

    /// A browser showing `initial_uri` with an empty clipboard.
    pub fn new(initial_uri: String) -> (r: Self)
        ensures
            r.location() == initial_uri@,
            r.held() is None,
    {
        BrowserState { current_uri: initial_uri, clipboard: None }
    }

    /// The location shown.
    pub fn current_uri(&self) -> (r: String)
        ensures
            r@ == self.location(),
    {
        self.current_uri.clone()
    }

    /// Shows another location; the clipboard stays.
    pub fn set_current_uri(&mut self, uri: String)
        ensures
            final(self).location() == uri@,
            final(self).held() == old(self).held(),
    {
        self.current_uri = uri;
    }

    /// The clipboard's entry.
    pub fn clipboard(&self) -> (r: Option<ClipboardEntry>)
        ensures
            r == self.held(),
    {
        match &self.clipboard {
            Some(e) => Some(e.duplicate()),
            None => None,
        }
    }

    /// Puts the selected entry (if a row is selected) on the clipboard for
    /// `operation`, and returns the message to show.
    pub fn take_selection(&mut self, selected: Option<String>, operation: ClipboardOperation) -> (msg: String)
        ensures
            final(self).location() == old(self).location(),
            selected is None ==> final(self).held() == old(self).held() && msg@
                == "Select a file or folder first"@,
            selected matches Some(u) ==> final(self).held() == Some(
                ClipboardEntry { source_uri: u, operation },
            ),
            selected is Some && operation == ClipboardOperation::Copy ==> msg@ == "Copied to clipboard"@,
            selected is Some && operation == ClipboardOperation::Move ==> msg@ == "Ready to move"@,
    {
        match selected {
            Some(uri) => {
                self.clipboard = Some(ClipboardEntry { source_uri: uri, operation });
                match operation {
                    ClipboardOperation::Copy => string_of(&chars_of("Copied to clipboard")),
                    ClipboardOperation::Move => string_of(&chars_of("Ready to move")),
                }
            },
            None => string_of(&chars_of("Select a file or folder first")),
        }
    }

    /// What a paste does: the clipboard's entry and the folder shown, which
    /// receives it; `None` when the clipboard is empty.
    pub fn paste_request(&self) -> (r: Option<(ClipboardEntry, String)>)
        ensures
            match self.held() {
                Some(e) => r matches Some((entry, dest)) && entry == e && dest@ == self.location(),
                None => r is None,
            },
    {
        match &self.clipboard {
            Some(e) => Some((e.duplicate(), self.current_uri.clone())),
            None => None,
        }
    }

    /// Records that a paste of `operation` succeeded: a moved entry leaves
    /// the clipboard, a copied one stays.
    pub fn paste_done(&mut self, operation: ClipboardOperation)
        ensures
            final(self).location() == old(self).location(),
            operation == ClipboardOperation::Move ==> final(self).held() is None,
            operation == ClipboardOperation::Copy ==> final(self).held() == old(self).held(),
    {
        if operation == ClipboardOperation::Move {
            self.clipboard = None;
        }
    }

    /// Records that `uri` went to the trash: if it was on the clipboard, the
    /// clipboard empties.
    pub fn trashed(&mut self, uri: &str)
        ensures
            final(self).location() == old(self).location(),
            (old(self).held() matches Some(e) && e.source_uri@ == uri@) ==> final(self).held() is None,
            !(old(self).held() matches Some(e) && e.source_uri@ == uri@) ==> final(self).held() == old(
                self,
            ).held(),
    {
        let same = match &self.clipboard {
            Some(e) => {
                let s = chars_of(e.source_uri.as_str());
                chars_eq_str(&s, uri)
            },
            None => false,
        };
        if same {
            self.clipboard = None;
        }
    }
}

/// The stem and extension of a file name, as `Path::file_stem` and
/// `Path::extension` give them for a name without `/`: split at the last
/// `.`, except that a name whose only `.` leads it, and the names `.` and
/// `..`, have no extension.
pub open spec fn stem_and_extension(name: Seq<char>) -> (Seq<char>, Option<Seq<char>>) {
    let p = after_last_dot_pos(name);
    if name == ".."@ || p <= 1 {
        (name, None)
    } else {
        (name.take(p - 1), Some(name.skip(p)))
    }
}

/// The extension of the last component of `path`, as `Path::extension`
/// gives it: none when the path ends in the root or `..`, or when its last
/// name has no extension.
pub open spec fn path_extension_of(path: Seq<char>) -> Option<Seq<char>> {
    let parts = path_parts(path);
    if parts.len() > 0 {
        match parts.last() {
            PathPart::Name(n) => stem_and_extension(n).1,
            _ => None,
        }
    } else {
        None
    }
}

/// The last component of `path` when it is a name, as `Path::file_name`
/// gives it (none when the path ends in the root or `..`).
pub open spec fn path_file_name_of(path: Seq<char>) -> Option<Seq<char>> {
    let parts = path_parts(path);
    if parts.len() > 0 {
        match parts.last() {
            PathPart::Name(n) => Some(n),
            _ => None,
        }
    } else {
        None
    }
}

/// The name of the last component of `path` (`Path::file_name`).
pub fn path_file_name(path: &str) -> (r: Option<String>)
    ensures
        match path_file_name_of(path@) {
            Some(n) => r matches Some(s) && s@ == n,
            None => r is None,
        },
{
    let pc = chars_of(path);
    let parts = components(&pc);
    if parts.len() == 0 {
        return None;
    }
    let last = parts.len() - 1;
    assert(parts_view(parts@).last() == parts@[last as int].view_part());
    match &parts[last] {
        Part::Name(n) => Some(string_of(n)),
        _ => None,
    }
}

/// The extension of the file name `name` (no `/` in it).
fn name_extension(name: &Vec<char>) -> (r: Option<String>)
    ensures
        match stem_and_extension(name@).1 {
            Some(e) => r matches Some(s) && s@ == e,
            None => r is None,
        },
{
    proof {
        reveal_strlit("..");
        lemma_after_last_dot_pos(name@);
    }
    let p = after_last_dot_index(name);
    if chars_eq_str(name, "..") || p <= 1 {
        None
    } else {
        let e = sub_chars(name, p, name.len());
        assert(e@ =~= name@.skip(p as int));
        Some(string_of(&e))
    }
}

/// The extension of the last component of `path` (`Path::extension`).
pub fn path_extension(path: &str) -> (r: Option<String>)
    ensures
        match path_extension_of(path@) {
            Some(e) => r matches Some(s) && s@ == e,
            None => r is None,
        },
{
    let pc = chars_of(path);
    let parts = components(&pc);
    if parts.len() == 0 {
        return None;
    }
    let last = parts.len() - 1;
    assert(parts_view(parts@).last() == parts@[last as int].view_part());
    match &parts[last] {
        Part::Name(n) => name_extension(n),
        _ => None,
    }
}

/// The `attempt`-th name tried for a pasted entry called `name`: the name
/// itself first, then `stem (n).extension` (or `stem (n)`) for n = 1, 2, ...
pub open spec fn candidate_name(name: Seq<char>, attempt: nat) -> Seq<char> {
    if attempt == 0 {
        name
    } else {
        let (stem, ext) = stem_and_extension(name);
        let numbered = stem + " ("@ + dec_seq(attempt) + ")"@;
        match ext {
            Some(e) => numbered + "."@ + e,
            None => numbered,
        }
    }
}

/// How many numbered names are tried before giving up.
pub open spec fn max_attempt() -> nat {
    999
}

/// The name tried at `attempt` for an entry called `name`.
pub fn candidate(name: &str, attempt: u32) -> (r: String)
    ensures
        r@ == candidate_name(name@, attempt as nat),
{
    let n = chars_of(name);
    if attempt == 0 {
        return string_of(&n);
    }
    proof {
        reveal_strlit("..");
        lemma_after_last_dot_pos(name@);
    }
    let p = after_last_dot_index(&n);
    let is_dotdot = chars_eq_str(&n, "..");
    let mut out: Vec<char>;
    let ext: Option<Vec<char>>;
    if is_dotdot || p <= 1 {
        out = sub_chars(&n, 0, n.len());
        assert(out@ =~= name@);
        ext = None;
    } else {
        out = sub_chars(&n, 0, p - 1);
        assert(out@ =~= name@.take(p - 1));
        ext = Some(sub_chars(&n, p, n.len()));
    }
    let open_paren = chars_of(" (");
    extend_chars(&mut out, &open_paren);
    let num = crate::text::dec_chars(attempt as u64);
    extend_chars(&mut out, &num);
    let close_paren = chars_of(")");
    extend_chars(&mut out, &close_paren);
    match ext {
        Some(e) => {
            let dot = chars_of(".");
            extend_chars(&mut out, &dot);
            extend_chars(&mut out, &e);
        },
        None => {},
    }
    string_of(&out)
}

/// What to do after learning whether the name tried at some attempt exists.
#[derive(Debug)]
pub enum DestinationStep {
    /// Paste under this name.
    Use(String),
    /// Try this name next (at the next attempt).
    Check(String),
    /// No free name was found; the message says so.
    GiveUp(String),
}

/// Chooses the name under which an entry called `name` is pasted: after the
/// name of `attempt` has been looked up in the destination folder and found
/// to exist (`exists`) or not, either that name is used, the next one is
/// tried, or, after the last numbered name, the search gives up.
pub fn destination_step(name: &str, attempt: u32, exists: bool) -> (r: DestinationStep)
    requires
        attempt <= max_attempt(),
    ensures
        !exists ==> (r matches DestinationStep::Use(n) && n@ == candidate_name(name@, attempt as nat)),
        exists && attempt < max_attempt() ==> (r matches DestinationStep::Check(n) && n@
            == candidate_name(name@, attempt as nat + 1)),
        exists && attempt == max_attempt() ==> (r matches DestinationStep::GiveUp(m) && m@
            == "Could not find available name for "@ + name@),
{
    if !exists {
        DestinationStep::Use(candidate(name, attempt))
    } else if attempt < 999 {
        DestinationStep::Check(candidate(name, attempt + 1))
    } else {
        DestinationStep::GiveUp(concat2("Could not find available name for ", name))
    }
}


/// Where the search for a free name for `name` ends, started at `attempt`,
/// when `taken` tells which names the folder holds: the first candidate
/// from `attempt` on that is not taken, or, when every candidate up to the
/// last is taken, the message that no name was found. Driving
/// `destination_step` from attempt 0, answering each name with `taken`,
/// follows this search step by step.
pub open spec fn name_search(name: Seq<char>, taken: spec_fn(Seq<char>) -> bool, attempt: nat) -> Result<
    Seq<char>,
    Seq<char>,
>
    decreases max_attempt() - attempt,
{
    if !taken(candidate_name(name, attempt)) {
        Ok(candidate_name(name, attempt))
    } else if attempt < max_attempt() {
        name_search(name, taken, attempt + 1)
    } else {
        Err("Could not find available name for "@ + name)
    }
}

proof fn lemma_search_finds(name: Seq<char>, taken: spec_fn(Seq<char>) -> bool, a: nat, k: nat)
    requires
        a <= k <= max_attempt(),
        !taken(candidate_name(name, k)),
        forall|j: nat| a <= j < k ==> #[trigger] taken(candidate_name(name, j)),
    ensures
        name_search(name, taken, a) == Ok::<Seq<char>, Seq<char>>(candidate_name(name, k)),
    decreases k - a,
{
    if a < k {
        assert(taken(candidate_name(name, a)));
        lemma_search_finds(name, taken, a + 1, k);
    }
}

proof fn lemma_search_gives_up(name: Seq<char>, taken: spec_fn(Seq<char>) -> bool, a: nat)
    requires
        a <= max_attempt(),
        forall|j: nat| a <= j <= max_attempt() ==> #[trigger] taken(candidate_name(name, j)),
    ensures
        name_search(name, taken, a) == Err::<Seq<char>, Seq<char>>("Could not find available name for "@ + name),
    decreases max_attempt() - a,
{
    assert(taken(candidate_name(name, a)));
    if a < max_attempt() {
        lemma_search_gives_up(name, taken, a + 1);
    }
}

/// A pasted entry takes the first candidate name that the folder does not
/// hold, so a name already there is never used.
pub proof fn law_first_free_name(name: Seq<char>, taken: spec_fn(Seq<char>) -> bool, k: nat)
    requires
        k <= max_attempt(),
        !taken(candidate_name(name, k)),
        forall|j: nat| j < k ==> #[trigger] taken(candidate_name(name, j)),
    ensures
        name_search(name, taken, 0) == Ok::<Seq<char>, Seq<char>>(candidate_name(name, k)),
{
    lemma_search_finds(name, taken, 0, k);
}

/// When the folder holds the name and every numbered candidate up to the
/// last, the search gives up with a message naming the entry.
pub proof fn law_all_names_taken(name: Seq<char>, taken: spec_fn(Seq<char>) -> bool)
    requires
        forall|j: nat| j <= max_attempt() ==> #[trigger] taken(candidate_name(name, j)),
    ensures
        name_search(name, taken, 0) == Err::<Seq<char>, Seq<char>>("Could not find available name for "@ + name),
{
    lemma_search_gives_up(name, taken, 0);
}

/// One step of the search as `destination_step` takes it: the name used,
/// the next name checked, or the message given up with is where the search
/// from this attempt ends.
pub proof fn law_step_follows_search(name: Seq<char>, taken: spec_fn(Seq<char>) -> bool, attempt: nat)
    requires
        attempt <= max_attempt(),
    ensures
        !taken(candidate_name(name, attempt)) ==> name_search(name, taken, attempt) == Ok::<Seq<char>, Seq<char>>(
            candidate_name(name, attempt),
        ),
        taken(candidate_name(name, attempt)) && attempt < max_attempt() ==> name_search(name, taken, attempt)
            == name_search(name, taken, attempt + 1),
        taken(candidate_name(name, attempt)) && attempt == max_attempt() ==> name_search(name, taken, attempt)
            == Err::<Seq<char>, Seq<char>>("Could not find available name for "@ + name),
{
}

/// The names tried for one entry are all different, so no name is looked
/// up twice.
pub proof fn law_candidates_distinct(name: Seq<char>, a: nat, b: nat)
    requires
        a != b,
    ensures
        candidate_name(name, a) != candidate_name(name, b),
{
    reveal_strlit(" (");
    reveal_strlit(")");
    reveal_strlit(".");
    reveal_strlit("..");
    lemma_after_last_dot_pos(name);
    lemma_dec_value(a);
    lemma_dec_value(b);
    let (stem, ext) = stem_and_extension(name);
    let p = after_last_dot_pos(name);
    if ext is Some {
        assert(stem.len() + 1 + ext->0.len() == name.len());
    } else {
        assert(stem == name);
    }
    if a == 0 || b == 0 {
        let m: nat = if a == 0 { b } else { a };
        assert(candidate_name(name, m).len() > name.len());
    } else if dec_seq(a).len() == dec_seq(b).len() {
        let ca = candidate_name(name, a);
        let cb = candidate_name(name, b);
        let lo: int = stem.len() as int + 2;
        let hi: int = lo + dec_seq(a).len();
        let na = stem + " ("@ + dec_seq(a) + ")"@;
        let nb = stem + " ("@ + dec_seq(b) + ")"@;
        assert(na.subrange(lo, hi) =~= dec_seq(a));
        assert(nb.subrange(lo, hi) =~= dec_seq(b));
        if ca == cb {
            match ext {
                Some(e) => {
                    assert(ca.subrange(lo, hi) =~= na.subrange(lo, hi));
                    assert(cb.subrange(lo, hi) =~= nb.subrange(lo, hi));
                },
                None => {},
            }
            lemma_dec_injective(a, b);
        }
    } else {
        assert(candidate_name(name, a).len() != candidate_name(name, b).len());
    }
}

} // verus!
