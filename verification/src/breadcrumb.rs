//! The breadcrumb bar above the file listing: the buttons that lead to each
//! folder on the way to the location shown.
use vstd::prelude::*;

use crate::text::{chars_eq, chars_eq_str, chars_of, concat2, starts_with_seq, starts_with_str, string_of};

verus! {

/// One component of a path, as `Path::components` yields it on Unix.
pub enum PathPart {
    /// The leading `/`.
    Root,
    /// A leading `.` of a relative path.
    Cur,
    /// `..`.
    Parent,
    /// Any other non-empty component.
    Name(Seq<char>),
}

/// The components contributed by one piece between slashes: none for an
/// empty piece or `.`.
pub open spec fn piece_parts(piece: Seq<char>) -> Seq<PathPart> {
    if piece.len() == 0 || piece == "."@ {
        seq![]
    } else if piece == ".."@ {
        seq![PathPart::Parent]
    } else {
        seq![PathPart::Name(piece)]
    }
}

/// The components of `s` when the characters `cur` have been read since the
/// last slash.
pub open spec fn parts_acc(s: Seq<char>, cur: Seq<char>) -> Seq<PathPart>
    decreases s.len(),
{
    if s.len() == 0 {
        piece_parts(cur)
    } else if s[0] == '/' {
        piece_parts(cur) + parts_acc(s.drop_first(), seq![])
    } else {
        parts_acc(s.drop_first(), cur.push(s[0]))
    }
}

/// The path is absolute.
pub open spec fn has_root(p: Seq<char>) -> bool {
    p.len() > 0 && p[0] == '/'
}

/// The path is relative and starts with the component `.`.
pub open spec fn has_cur_front(p: Seq<char>) -> bool {
    !has_root(p) && (p == "."@ || starts_with_seq(p, "./"@))
}

/// The components of the path `p` (`Path::components` on Unix): the root,
/// a leading `.` of a relative path, then each piece between slashes except
/// empty pieces and `.`.
pub open spec fn path_parts(p: Seq<char>) -> Seq<PathPart> {
    (if has_root(p) {
        seq![PathPart::Root]
    } else {
        seq![]
    }) + (if has_cur_front(p) {
        seq![PathPart::Cur]
    } else {
        seq![]
    }) + parts_acc(p, seq![])
}

/// `base`'s components begin `p`'s (`Path::starts_with`).
pub open spec fn parts_prefix(base: Seq<PathPart>, p: Seq<PathPart>) -> bool {
    base.len() <= p.len() && p.take(base.len() as int) == base
}

/// `acc` with the component `name` added (`PathBuf::push` of a plain name):
/// a slash goes between unless `acc` is empty or already ends in one.
pub open spec fn push_name(acc: Seq<char>, name: Seq<char>) -> Seq<char> {
    if acc.len() == 0 || acc.last() == '/' {
        acc + name
    } else {
        acc + "/"@ + name
    }
}

/// One breadcrumb: its label and the URI it leads to.
pub open spec fn crumb(label: Seq<char>, path: Seq<char>) -> (Seq<char>, Seq<char>) {
    (label, "file://"@ + path)
}

/// Crumbs for the plain names among `parts`, the path so far being `acc`.
pub open spec fn name_crumbs(parts: Seq<PathPart>, acc: Seq<char>) -> Seq<(Seq<char>, Seq<char>)>
    decreases parts.len(),
{
    if parts.len() == 0 {
        seq![]
    } else {
        match parts[0] {
            PathPart::Name(n) => seq![crumb(n, push_name(acc, n))] + name_crumbs(
                parts.drop_first(),
                push_name(acc, n),
            ),
            _ => name_crumbs(parts.drop_first(), acc),
        }
    }
}

/// Crumbs for the root and the plain names among `parts`, the path so far
/// being `acc`.
pub open spec fn full_crumbs(parts: Seq<PathPart>, acc: Seq<char>) -> Seq<(Seq<char>, Seq<char>)>
    decreases parts.len(),
{
    if parts.len() == 0 {
        seq![]
    } else {
        match parts[0] {
            PathPart::Root => seq![("/"@, "file:///"@)] + full_crumbs(parts.drop_first(), "/"@),
            PathPart::Name(n) => seq![crumb(n, push_name(acc, n))] + full_crumbs(
                parts.drop_first(),
                push_name(acc, n),
            ),
            _ => full_crumbs(parts.drop_first(), acc),
        }
    }
}

/// The crumbs for the local path `path`: when it lies inside the home folder
/// `home_path` (component-wise), a "Home" crumb leading to `home_uri` and one
/// crumb per folder below home; otherwise a crumb for the root and one per
/// folder from there.
pub open spec fn crumbs_for(path: Seq<char>, home_uri: Seq<char>, home_path: Option<Seq<char>>) -> Seq<
    (Seq<char>, Seq<char>),
> {
    let pp = path_parts(path);
    match home_path {
        Some(h) if parts_prefix(path_parts(h), pp) => seq![("Home"@, home_uri)] + name_crumbs(
            pp.skip(path_parts(h).len() as int),
            h,
        ),
        _ => full_crumbs(pp, seq![]),
    }
}

/// A component of a path.
pub enum Part {
    Root,
    Cur,
    Parent,
    Name(Vec<char>),
}

impl Part {
    pub open spec fn view_part(&self) -> PathPart {
        match self {
            Part::Root => PathPart::Root,
            Part::Cur => PathPart::Cur,
            Part::Parent => PathPart::Parent,
            Part::Name(n) => PathPart::Name(n@),
        }
    }
}

/// The components of a list of parts.
pub open spec fn parts_view(v: Seq<Part>) -> Seq<PathPart> {
    v.map_values(|p: Part| p.view_part())
}

fn piece_to_parts(piece: Vec<char>, out: &mut Vec<Part>)
    ensures
        parts_view(final(out)@) == parts_view(old(out)@) + piece_parts(piece@),
{
    proof {
        reveal_strlit(".");
        reveal_strlit("..");
    }
    let ghost before = parts_view(out@);
    if piece.len() == 0 || chars_eq_str(&piece, ".") {
        assert(parts_view(out@) + Seq::<PathPart>::empty() =~= parts_view(out@));
    } else if chars_eq_str(&piece, "..") {
        out.push(Part::Parent);
        assert(parts_view(out@) =~= before + seq![PathPart::Parent]);
    } else {
        let ghost pv = piece@;
        out.push(Part::Name(piece));
        assert(parts_view(out@) =~= before + seq![PathPart::Name(pv)]);
    }
}

/// The components of the path `p`.
pub fn components(p: &Vec<char>) -> (r: Vec<Part>)
    ensures
        parts_view(r@) == path_parts(p@),
{
    proof {
        reveal_strlit(".");
        reveal_strlit("./");
    }
    let mut out: Vec<Part> = Vec::new();
    if p.len() > 0 && p[0] == '/' {
        out.push(Part::Root);
    } else {
        let is_dot = p.len() == 1 && p[0] == '.';
        let dot_slash = p.len() >= 2 && p[0] == '.' && p[1] == '/';
        proof {
            if p@.len() == 1 && p@[0] == '.' {
                assert(p@ =~= "."@);
            }
            if p@ == "."@ {
                assert(p@.len() == 1);
            }
            if starts_with_seq(p@, "./"@) {
                assert(p@.subrange(0, 2)[0] == p@[0]);
                assert(p@.subrange(0, 2)[1] == p@[1]);
            }
            if p@.len() >= 2 && p@[0] == '.' && p@[1] == '/' {
                assert(p@.subrange(0, 2) =~= "./"@);
            }
        }
        if is_dot || dot_slash {
            out.push(Part::Cur);
        }
    }
    let ghost head = parts_view(out@);
    assert(head =~= (if has_root(p@) {
        seq![PathPart::Root]
    } else {
        seq![]
    }) + (if has_cur_front(p@) {
        seq![PathPart::Cur]
    } else {
        seq![]
    }));
    let mut cur: Vec<char> = Vec::new();
    let mut i: usize = 0;
    assert(p@.skip(0) =~= p@);
    while i < p.len()
        invariant
            i <= p.len(),
            head + parts_acc(p@, seq![]) == parts_view(out@) + parts_acc(p@.skip(i as int), cur@),
        decreases p.len() - i,
    {
        let ghost rest = p@.skip(i as int);
        assert(rest[0] == p@[i as int]);
        assert(rest.drop_first() =~= p@.skip(i + 1));
        if p[i] == '/' {
            let ghost cv = cur@;
            let ghost before = parts_view(out@);
            let piece = cur;
            piece_to_parts(piece, &mut out);
            cur = Vec::new();
            assert(before + (piece_parts(cv) + parts_acc(p@.skip(i + 1), seq![])) =~= (before
                + piece_parts(cv)) + parts_acc(p@.skip(i + 1), seq![]));
        } else {
            cur.push(p[i]);
        }
        i = i + 1;
    }
    assert(p@.skip(i as int) =~= Seq::<char>::empty());
    piece_to_parts(cur, &mut out);
    out
}

fn part_eq(a: &Part, b: &Part) -> (r: bool)
    ensures
        r == (a.view_part() == b.view_part()),
{
    match (a, b) {
        (Part::Root, Part::Root) => true,
        (Part::Cur, Part::Cur) => true,
        (Part::Parent, Part::Parent) => true,
        (Part::Name(x), Part::Name(y)) => chars_eq(x, y),
        _ => false,
    }
}

/// Whether the components `base` begin the components `p`.
fn is_parts_prefix(base: &Vec<Part>, p: &Vec<Part>) -> (r: bool)
    ensures
        r == parts_prefix(parts_view(base@), parts_view(p@)),
{
    if base.len() > p.len() {
        return false;
    }
    let mut i: usize = 0;
    while i < base.len()
        invariant
            i <= base.len() <= p.len(),
            forall|k: int| 0 <= k < i ==> parts_view(base@)[k] == parts_view(p@)[k],
        decreases base.len() - i,
    {
        if !part_eq(&base[i], &p[i]) {
            assert(parts_view(p@).take(base.len() as int)[i as int] != parts_view(base@)[i as int]);
            return false;
        }
        i = i + 1;
    }
    assert(parts_view(p@).take(base.len() as int) =~= parts_view(base@));
    true
}

/// `acc` with the name `n` added.
fn push_name_exec(acc: &Vec<char>, n: &Vec<char>) -> (r: Vec<char>)
    ensures
        r@ == push_name(acc@, n@),
{
    let mut r = crate::text::sub_chars(acc, 0, acc.len());
    assert(r@ =~= acc@);
    if !(acc.len() == 0 || acc[acc.len() - 1] == '/') {
        r.push('/');
        assert(acc@ + "/"@ =~= acc@.push('/')) by {
            reveal_strlit("/");
        }
    }
    crate::text::extend_chars(&mut r, n);
    r
}

/// One breadcrumb button.
#[derive(Debug)]
pub struct Crumb {
    pub label: String,
    pub uri: String,
}

/// The views of a list of crumbs.
pub open spec fn crumbs_view(v: Seq<Crumb>) -> Seq<(Seq<char>, Seq<char>)> {
    v.map_values(|c: Crumb| (c.label@, c.uri@))
}

/// The crumbs of `parts` from index `start` on, after the path `acc`;
/// `with_root` makes the root its own crumb.
fn add_crumbs(parts: &Vec<Part>, start: usize, acc: Vec<char>, with_root: bool, out: &mut Vec<Crumb>)
    requires
        start <= parts.len(),
    ensures
        with_root ==> crumbs_view(final(out)@) == crumbs_view(old(out)@) + full_crumbs(
            parts_view(parts@).skip(start as int),
            acc@,
        ),
        !with_root ==> crumbs_view(final(out)@) == crumbs_view(old(out)@) + name_crumbs(
            parts_view(parts@).skip(start as int),
            acc@,
        ),
{
    let ghost pv = parts_view(parts@);
    let ghost orig = crumbs_view(out@);
    let ghost target = if with_root {
        full_crumbs(pv.skip(start as int), acc@)
    } else {
        name_crumbs(pv.skip(start as int), acc@)
    };
    let mut acc = acc;
    let mut i: usize = start;
    assert(orig + target =~= crumbs_view(out@) + target);
    while i < parts.len()
        invariant
            start <= i <= parts.len(),
            pv == parts_view(parts@),
            orig + target == crumbs_view(out@) + (if with_root {
                full_crumbs(pv.skip(i as int), acc@)
            } else {
                name_crumbs(pv.skip(i as int), acc@)
            }),
        decreases parts.len() - i,
    {
        let ghost rest = pv.skip(i as int);
        assert(rest[0] == parts@[i as int].view_part());
        assert(rest.drop_first() =~= pv.skip(i + 1));
        let ghost before = crumbs_view(out@);
        match &parts[i] {
            Part::Root => {
                if with_root {
                    let label = string_of(&chars_of("/"));
                    let uri = string_of(&chars_of("file:///"));
                    let ghost c = (label@, uri@);
                    out.push(Crumb { label, uri });
                    acc = chars_of("/");
                    assert(crumbs_view(out@) =~= before + seq![c]);
                    assert(before + (seq![c] + full_crumbs(pv.skip(i + 1), acc@)) =~= crumbs_view(out@)
                        + full_crumbs(pv.skip(i + 1), acc@));
                }
            },
            Part::Name(n) => {
                let next = push_name_exec(&acc, n);
                let label = string_of(n);
                let file = chars_of("file://");
                let mut u = file;
                crate::text::extend_chars(&mut u, &next);
                let uri = string_of(&u);
                let ghost c = (label@, uri@);
                assert(c == crumb(n@, push_name(acc@, n@)));
                out.push(Crumb { label, uri });
                acc = next;
                assert(crumbs_view(out@) =~= before + seq![c]);
                if with_root {
                    assert(before + (seq![c] + full_crumbs(pv.skip(i + 1), acc@)) =~= crumbs_view(out@)
                        + full_crumbs(pv.skip(i + 1), acc@));
                } else {
                    assert(before + (seq![c] + name_crumbs(pv.skip(i + 1), acc@)) =~= crumbs_view(out@)
                        + name_crumbs(pv.skip(i + 1), acc@));
                }
            },
            _ => {},
        }
        i = i + 1;
    }
    assert(pv.skip(i as int) =~= Seq::<PathPart>::empty());
    assert(crumbs_view(out@) + Seq::<(Seq<char>, Seq<char>)>::empty() =~= crumbs_view(out@));
}

/// What the breadcrumb bar shows.
#[derive(Debug)]
pub enum Breadcrumb {
    /// The single dimmed label "Network".
    Network,
    /// A single dimmed label with the location's URI (it has no local path).
    Plain(String),
    /// One button per crumb, separated by `/` labels.
    Crumbs(Vec<Crumb>),
}

/// The breadcrumb bar for the location `uri`, whose local path is `path`
/// (if it has one), given the home folder's URI and local path.
pub fn breadcrumb(uri: &str, path: Option<String>, home_uri: &str, home_path: Option<String>) -> (r: Breadcrumb)
    ensures
        starts_with_seq(uri@, "network:"@) ==> r is Network,
        !starts_with_seq(uri@, "network:"@) && path is None ==> (r matches Breadcrumb::Plain(u) && u@
            == uri@),
        !starts_with_seq(uri@, "network:"@) && path is Some ==> (r matches Breadcrumb::Crumbs(c)
            && crumbs_view(c@) == crumbs_for(
            path->0@,
            home_uri@,
            match home_path {
                Some(h) => Some(h@),
                None => None,
            },
        )),
{
    let u = chars_of(uri);
    if starts_with_str(&u, "network:") {
        return Breadcrumb::Network;
    }
    let path = match path {
        Some(p) => p,
        None => return Breadcrumb::Plain(string_of(&u)),
    };
    let pc = chars_of(path.as_str());
    let pp = components(&pc);
    let mut out: Vec<Crumb> = Vec::new();
    match home_path {
        Some(h) => {
            let hc = chars_of(h.as_str());
            let hp = components(&hc);
            if is_parts_prefix(&hp, &pp) {
                let home_label = string_of(&chars_of("Home"));
                let home_link = string_of(&chars_of(home_uri));
                out.push(Crumb { label: home_label, uri: home_link });
                add_crumbs(&pp, hp.len(), hc, false, &mut out);
                return Breadcrumb::Crumbs(out);
            }
        },
        None => {},
    }
    add_crumbs(&pp, 0, Vec::new(), true, &mut out);
    assert(parts_view(pp@).skip(0) =~= parts_view(pp@));
    assert(crumbs_view(out@) =~= Seq::<(Seq<char>, Seq<char>)>::empty() + crumbs_view(out@));
    Breadcrumb::Crumbs(out)
}

/// The address of the home folder, given the `HOME` variable of the
/// environment (`None` when it is not set).
pub fn home_uri(home: Option<&str>) -> (r: String)
    ensures
        r@ == match home {
            Some(h) => "file://"@ + h@,
            None => "file:///home"@,
        },
{
    match home {
        Some(h) => concat2("file://", h),
        None => string_of(&chars_of("file:///home")),
    }
}

/// The address of the bookmarked folder `subpath` in the home folder; none
/// without a `HOME` variable.
pub fn bookmark_uri(home: Option<&str>, subpath: &str) -> (r: Option<String>)
    ensures
        match home {
            Some(h) => r matches Some(u) && u@ == "file://"@ + h@ + "/"@ + subpath@,
            None => r is None,
        },
{
    match home {
        Some(h) => Some(crate::text::concat3(concat2("file://", h).as_str(), "/", subpath)),
        None => None,
    }
}

} // verus!
