//! The preview panel's decisions: which kind of preview a file gets, whether
//! unknown content looks like text, how much text is shown, and the line of
//! file details.
use vstd::prelude::*;
use vstd::string::*;
use vstd::utf8::*;

use crate::operations::{path_extension, path_extension_of, path_file_name, path_file_name_of};
use crate::text::{ascii_lower, ascii_lower_seq, chars_eq_str, chars_of, concat2, extend_chars, int_dec_seq, int_to_string, string_of};

verus! {

/// The kind of preview a file gets.
#[derive(Debug, Clone, Copy, PartialEq, Eq, Structural)]
pub enum PreviewKind {
    Image,
    Text,
    Video,
    Pdf,
    Other,
}

/// Extensions previewed as pictures.
pub open spec fn is_image_extension(e: Seq<char>) -> bool {
    e == "png"@ || e == "jpg"@ || e == "jpeg"@ || e == "gif"@ || e == "webp"@ || e == "bmp"@ || e == "svg"@
}

/// Extensions previewed as source text.
pub open spec fn is_source_extension(e: Seq<char>) -> bool {
    ||| e == "rs"@ || e == "py"@ || e == "js"@ || e == "ts"@ || e == "tsx"@ || e == "jsx"@ || e == "md"@
    ||| e == "txt"@ || e == "sh"@ || e == "bash"@ || e == "toml"@ || e == "json"@ || e == "yaml"@
    ||| e == "yml"@ || e == "css"@ || e == "html"@ || e == "xml"@ || e == "c"@ || e == "cpp"@ || e == "h"@
    ||| e == "hpp"@ || e == "go"@ || e == "java"@ || e == "rb"@ || e == "lua"@
}

/// Extensions of videos.
pub open spec fn is_video_extension(e: Seq<char>) -> bool {
    e == "mp4"@ || e == "mkv"@ || e == "webm"@ || e == "avi"@ || e == "mov"@ || e == "m4v"@
}

/// The preview a file with extension `ext` gets (the lists are checked in
/// the order images, source text, videos, PDF), ignoring ASCII case.
pub open spec fn kind_for_extension(ext: Seq<char>) -> PreviewKind {
    let e = ascii_lower_seq(ext);
    if is_image_extension(e) {
        PreviewKind::Image
    } else if is_source_extension(e) {
        PreviewKind::Text
    } else if is_video_extension(e) {
        PreviewKind::Video
    } else if e == "pdf"@ {
        PreviewKind::Pdf
    } else {
        PreviewKind::Other
    }
}

/// The preview a file with extension `ext` gets.
fn extension_kind(ext: &str) -> (r: PreviewKind)
    ensures
        r == kind_for_extension(ext@),
{
    let c = chars_of(ext);
    let e = ascii_lower(&c);
    if chars_eq_str(&e, "png") || chars_eq_str(&e, "jpg") || chars_eq_str(&e, "jpeg") || chars_eq_str(&e, "gif")
        || chars_eq_str(&e, "webp") || chars_eq_str(&e, "bmp") || chars_eq_str(&e, "svg") {
        PreviewKind::Image
    } else if chars_eq_str(&e, "rs") || chars_eq_str(&e, "py") || chars_eq_str(&e, "js") || chars_eq_str(&e, "ts")
        || chars_eq_str(&e, "tsx") || chars_eq_str(&e, "jsx") || chars_eq_str(&e, "md") || chars_eq_str(&e, "txt")
        || chars_eq_str(&e, "sh") || chars_eq_str(&e, "bash") || chars_eq_str(&e, "toml") || chars_eq_str(
        &e,
        "json",
    ) || chars_eq_str(&e, "yaml") || chars_eq_str(&e, "yml") || chars_eq_str(&e, "css") || chars_eq_str(
        &e,
        "html",
    ) || chars_eq_str(&e, "xml") || chars_eq_str(&e, "c") || chars_eq_str(&e, "cpp") || chars_eq_str(&e, "h")
        || chars_eq_str(&e, "hpp") || chars_eq_str(&e, "go") || chars_eq_str(&e, "java") || chars_eq_str(&e, "rb")
        || chars_eq_str(&e, "lua") {
        PreviewKind::Text
    } else if chars_eq_str(&e, "mp4") || chars_eq_str(&e, "mkv") || chars_eq_str(&e, "webm") || chars_eq_str(
        &e,
        "avi",
    ) || chars_eq_str(&e, "mov") || chars_eq_str(&e, "m4v") {
        PreviewKind::Video
    } else if chars_eq_str(&e, "pdf") {
        PreviewKind::Pdf
    } else {
        PreviewKind::Other
    }
}

/// The preview the file at `path` gets, by the extension of its name (none
/// counts as the empty extension); `Other` is decided by its content.
pub fn preview_kind(path: &str) -> (r: PreviewKind)
    ensures
        r == kind_for_extension(
            match path_extension_of(path@) {
                Some(e) => e,
                None => Seq::empty(),
            },
        ),
{
    match path_extension(path) {
        Some(e) => extension_kind(e.as_str()),
        None => {
            proof {
                reveal_strlit("");
            }
            assert(""@ =~= Seq::<char>::empty());
            extension_kind("")
        },
    }
}

/// The title of the preview of the file at `path`: its name, or "File" when
/// the path ends in no name.
pub fn preview_title(path: &str) -> (r: String)
    ensures
        r@ == (match path_file_name_of(path@) {
            Some(n) => n,
            None => "File"@,
        }),
{
    match path_file_name(path) {
        Some(n) => n,
        None => string_of(&chars_of("File")),
    }
}

/// A byte that plain text may hold: printable ASCII (and DEL), newline,
/// carriage return or tab.
pub open spec fn is_text_byte(b: u8) -> bool {
    b < 0x80 && (b == 0x0A || b == 0x0D || b == 0x09 || b >= 0x20)
}

/// The bytes examined: the first 512 (or all, when there are fewer).
pub open spec fn text_sample(bytes: Seq<u8>) -> Seq<u8> {
    bytes.take(if bytes.len() < 512 { bytes.len() as int } else { 512 })
}

/// The file's first bytes are non-empty and all text bytes.
pub open spec fn looks_like_text(bytes: Seq<u8>) -> bool {
    text_sample(bytes).len() > 0 && forall|i: int| 0 <= i < text_sample(bytes).len() ==> is_text_byte(
        #[trigger] text_sample(bytes)[i],
    )
}

/// Whether a file with contents `bytes` is probably text.
pub fn is_probably_text(bytes: &Vec<u8>) -> (r: bool)
    ensures
        r == looks_like_text(bytes@),
{
    let n: usize = if bytes.len() < 512 {
        bytes.len()
    } else {
        512
    };
    if n == 0 {
        return false;
    }
    let mut i: usize = 0;
    while i < n
        invariant
            i <= n,
            n <= bytes.len(),
            n == (if bytes@.len() < 512 { bytes@.len() as int } else { 512 }),
            forall|k: int| 0 <= k < i ==> is_text_byte(#[trigger] bytes@[k]),
        decreases n - i,
    {
        let b = bytes[i];
        if !(b < 0x80 && (b == 0x0A || b == 0x0D || b == 0x09 || b >= 0x20)) {
            assert(text_sample(bytes@) == bytes@.take(n as int));
            assert(text_sample(bytes@)[i as int] == b);
            assert(!is_text_byte(text_sample(bytes@)[i as int]));
            return false;
        }
        i = i + 1;
    }
    assert(text_sample(bytes@) == bytes@.take(n as int));
    assert forall|k: int| 0 <= k < n implies is_text_byte(#[trigger] text_sample(bytes@)[k]) by {
        assert(text_sample(bytes@)[k] == bytes@[k]);
    }
    true
}

/// The most bytes of text the preview shows.
pub open spec fn text_preview_limit() -> int {
    32_768
}

/// Encoding a concatenation encodes each part.
pub proof fn lemma_encode_concat(a: Seq<char>, b: Seq<char>)
    ensures
        encode_utf8(a + b) == encode_utf8(a) + encode_utf8(b),
    decreases a.len(),
{
    if a.len() > 0 {
        lemma_encode_concat(a.drop_first(), b);
        assert((a + b).drop_first() =~= a.drop_first() + b);
        assert((a + b)[0] == a[0]);
        assert(encode_scalar(a[0] as u32) + (encode_utf8(a.drop_first()) + encode_utf8(b)) =~= (encode_scalar(
            a[0] as u32,
        ) + encode_utf8(a.drop_first())) + encode_utf8(b));
    } else {
        assert(a + b =~= b);
        assert(encode_utf8(a) =~= Seq::<u8>::empty());
        assert(Seq::<u8>::empty() + encode_utf8(b) =~= encode_utf8(b));
    }
}

/// The text shown for a file whose contents are `text`: all of it, or the
/// first 32768 bytes followed by an ellipsis.
pub fn preview_text(text: &str) -> (r: String)
    requires
        text.spec_bytes().len() <= usize::MAX,
        text.spec_bytes().len() <= text_preview_limit() || is_char_boundary(
            text.spec_bytes(),
            text_preview_limit(),
        ),
    ensures
        text.spec_bytes().len() <= text_preview_limit() ==> r@ == text@,
        text.spec_bytes().len() > text_preview_limit() ==> encode_utf8(r@) == text.spec_bytes().take(
            text_preview_limit(),
        ) + encode_utf8("…"@),
{
    if text.len() > 32768 {
        let (head, _rest) = text.split_at(32768);
        let mut v = chars_of(head);
        let dots = chars_of("…");
        extend_chars(&mut v, &dots);
        let r = string_of(&v);
        proof {
            lemma_encode_concat(head@, "…"@);
            assert(r@ == head@ + "…"@);
            assert(head.spec_bytes() == encode_utf8(head@));
            assert(head.spec_bytes() =~= text.spec_bytes().take(32768));
            assert(encode_utf8(r@) == encode_utf8(head@) + encode_utf8("…"@));
        }
        r
    } else {
        string_of(&chars_of(text))
    }
}

/// The details line under a file's name: its MIME type, then its size in
/// bytes and when it was modified.
pub fn preview_details(content_type: &str, size: i64, modified: &str) -> (r: String)
    ensures
        r@ == content_type@ + "\n"@ + int_dec_seq(size as int) + " bytes · modified "@ + modified@,
{
    let mut v = chars_of(content_type);
    extend_chars(&mut v, &chars_of("\n"));
    let s = int_to_string(size);
    extend_chars(&mut v, &chars_of(s.as_str()));
    extend_chars(&mut v, &chars_of(" bytes · modified "));
    extend_chars(&mut v, &chars_of(modified));
    string_of(&v)
}

proof fn lemma_in_list(e: Seq<char>, list: Seq<Seq<char>>, k: int)
    requires
        0 <= k < list.len(),
        list[k] == e,
    ensures
        list.contains(e),
{
}

/// Which preview a file gets, ignoring the case of its extension: every
/// picture extension (png, jpg, jpeg, gif, webp, bmp, svg) gives a picture;
/// every source extension that is not a picture one gives text; every video
/// extension that is neither gives a video; `pdf` gives a PDF; any other
/// extension is decided by the content.
pub proof fn law_preview_kind_by_extension(ext: Seq<char>)
    ensures
        ({
            let e = ascii_lower_seq(ext);
            let pictures: Seq<Seq<char>> = seq!["png"@, "jpg"@, "jpeg"@, "gif"@, "webp"@, "bmp"@, "svg"@];
            let sources: Seq<Seq<char>> = seq![
                "rs"@, "py"@, "js"@, "ts"@, "tsx"@, "jsx"@, "md"@, "txt"@, "sh"@, "bash"@, "toml"@, "json"@,
                "yaml"@, "yml"@, "css"@, "html"@, "xml"@, "c"@, "cpp"@, "h"@, "hpp"@, "go"@, "java"@, "rb"@,
                "lua"@,
            ];
            let videos: Seq<Seq<char>> = seq!["mp4"@, "mkv"@, "webm"@, "avi"@, "mov"@, "m4v"@];
            &&& pictures.contains(e) ==> kind_for_extension(ext) == PreviewKind::Image
            &&& !pictures.contains(e) && sources.contains(e) ==> kind_for_extension(ext)
                == PreviewKind::Text
            &&& !pictures.contains(e) && !sources.contains(e)
                && videos.contains(e) ==> kind_for_extension(ext) == PreviewKind::Video
            &&& !pictures.contains(e) && !sources.contains(e)
                && !videos.contains(e) && e == "pdf"@ ==> kind_for_extension(ext) == PreviewKind::Pdf
            &&& !pictures.contains(e) && !sources.contains(e)
                && !videos.contains(e) && e != "pdf"@ ==> kind_for_extension(ext) == PreviewKind::Other
        }),
{
    let e = ascii_lower_seq(ext);
    let p: Seq<Seq<char>> = seq!["png"@, "jpg"@, "jpeg"@, "gif"@, "webp"@, "bmp"@, "svg"@];
    let t: Seq<Seq<char>> = seq![
        "rs"@, "py"@, "js"@, "ts"@, "tsx"@, "jsx"@, "md"@, "txt"@, "sh"@, "bash"@, "toml"@, "json"@,
        "yaml"@, "yml"@, "css"@, "html"@, "xml"@, "c"@, "cpp"@, "h"@, "hpp"@, "go"@, "java"@, "rb"@,
        "lua"@,
    ];
    let v: Seq<Seq<char>> = seq!["mp4"@, "mkv"@, "webm"@, "avi"@, "mov"@, "m4v"@];
    if p.contains(e) {
        let k = choose|k: int| 0 <= k < p.len() && p[k] == e;
        assert(is_image_extension(p[k]));
    }
    if is_image_extension(e) {
        if e == "png"@ { lemma_in_list(e, p, 0); }
        else if e == "jpg"@ { lemma_in_list(e, p, 1); }
        else if e == "jpeg"@ { lemma_in_list(e, p, 2); }
        else if e == "gif"@ { lemma_in_list(e, p, 3); }
        else if e == "webp"@ { lemma_in_list(e, p, 4); }
        else if e == "bmp"@ { lemma_in_list(e, p, 5); }
        else { lemma_in_list(e, p, 6); }
    }
    if t.contains(e) {
        let k = choose|k: int| 0 <= k < t.len() && t[k] == e;
        assert(is_source_extension(t[k]));
    }
    if is_source_extension(e) {
        if e == "rs"@ { lemma_in_list(e, t, 0); }
        else if e == "py"@ { lemma_in_list(e, t, 1); }
        else if e == "js"@ { lemma_in_list(e, t, 2); }
        else if e == "ts"@ { lemma_in_list(e, t, 3); }
        else if e == "tsx"@ { lemma_in_list(e, t, 4); }
        else if e == "jsx"@ { lemma_in_list(e, t, 5); }
        else if e == "md"@ { lemma_in_list(e, t, 6); }
        else if e == "txt"@ { lemma_in_list(e, t, 7); }
        else if e == "sh"@ { lemma_in_list(e, t, 8); }
        else if e == "bash"@ { lemma_in_list(e, t, 9); }
        else if e == "toml"@ { lemma_in_list(e, t, 10); }
        else if e == "json"@ { lemma_in_list(e, t, 11); }
        else if e == "yaml"@ { lemma_in_list(e, t, 12); }
        else if e == "yml"@ { lemma_in_list(e, t, 13); }
        else if e == "css"@ { lemma_in_list(e, t, 14); }
        else if e == "html"@ { lemma_in_list(e, t, 15); }
        else if e == "xml"@ { lemma_in_list(e, t, 16); }
        else if e == "c"@ { lemma_in_list(e, t, 17); }
        else if e == "cpp"@ { lemma_in_list(e, t, 18); }
        else if e == "h"@ { lemma_in_list(e, t, 19); }
        else if e == "hpp"@ { lemma_in_list(e, t, 20); }
        else if e == "go"@ { lemma_in_list(e, t, 21); }
        else if e == "java"@ { lemma_in_list(e, t, 22); }
        else if e == "rb"@ { lemma_in_list(e, t, 23); }
        else { lemma_in_list(e, t, 24); }
    }
    if v.contains(e) {
        let k = choose|k: int| 0 <= k < v.len() && v[k] == e;
        assert(is_video_extension(v[k]));
    }
    if is_video_extension(e) {
        if e == "mp4"@ { lemma_in_list(e, v, 0); }
        else if e == "mkv"@ { lemma_in_list(e, v, 1); }
        else if e == "webm"@ { lemma_in_list(e, v, 2); }
        else if e == "avi"@ { lemma_in_list(e, v, 3); }
        else if e == "mov"@ { lemma_in_list(e, v, 4); }
        else { lemma_in_list(e, v, 5); }
    }
}

} // verus!
