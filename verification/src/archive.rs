//! The archive tool's own rules: which files are archives of which format,
//! what a compression request must name, and the list of files queued for
//! compression.
use vstd::prelude::*;

use crate::operations::{path_extension, path_extension_of};
use crate::breadcrumb::{components, parts_view, path_parts, Part, PathPart};
use crate::text::{ascii_lower, ascii_lower_seq, chars_eq_str, chars_of, concat2, dec_chars, dec_seq, extend_chars, string_of};

verus! {

/// The formats the archive tool writes and reads.
#[derive(Debug, Clone, Copy, PartialEq, Eq, Structural)]
pub enum ArchiveFormat {
    Zip,
    TarGz,
}

/// One entry listed from an archive.
#[derive(Debug)]
pub struct ArchiveEntry {
    pub name: String,
    pub is_dir: bool,
    pub size: u64,
}

/// The format of an archive whose file extension is `ext` (none: the empty
/// extension), ignoring ASCII case: `zip`, or `gz` and `tgz` for gzipped tar.
pub open spec fn format_of_extension(ext: Option<Seq<char>>) -> Option<ArchiveFormat> {
    let e = ascii_lower_seq(
        match ext {
            Some(x) => x,
            None => Seq::empty(),
        },
    );
    if e == "zip"@ {
        Some(ArchiveFormat::Zip)
    } else if e == "gz"@ || e == "tgz"@ {
        Some(ArchiveFormat::TarGz)
    } else {
        None
    }
}

/// The archive format for a file with extension `ext`.
pub fn archive_format(ext: Option<&str>) -> (r: Option<ArchiveFormat>)
    ensures
        r == format_of_extension(
            match ext {
                Some(x) => Some(x@),
                None => None,
            },
        ),
{
    let e = match ext {
        Some(x) => chars_of(x),
        None => Vec::new(),
    };
    let low = ascii_lower(&e);
    if chars_eq_str(&low, "zip") {
        Some(ArchiveFormat::Zip)
    } else if chars_eq_str(&low, "gz") || chars_eq_str(&low, "tgz") {
        Some(ArchiveFormat::TarGz)
    } else {
        None
    }
}

/// The format for listing the archive at `archive_path` (by the extension
/// of its file name), or the message shown for a format that cannot be
/// listed.
pub fn format_for_listing(archive_path: &str) -> (r: Result<ArchiveFormat, String>)
    ensures
        match format_of_extension(path_extension_of(archive_path@)) {
            Some(f) => r == Ok::<ArchiveFormat, String>(f),
            None => r matches Err(m) && m@ == "Unsupported archive format. Supported formats: .zip, .tar.gz, .tgz"@,
        },
{
    let ext = path_extension(archive_path);
    let e = match &ext {
        Some(x) => Some(x.as_str()),
        None => None,
    };
    match archive_format(e) {
        Some(f) => Ok(f),
        None => Err(string_of(&chars_of("Unsupported archive format. Supported formats: .zip, .tar.gz, .tgz"))),
    }
}

/// The format for extracting the archive at `archive_path` (by the
/// extension of its file name), or the message shown for a format that
/// cannot be extracted.
pub fn format_for_extraction(archive_path: &str) -> (r: Result<ArchiveFormat, String>)
    ensures
        match format_of_extension(path_extension_of(archive_path@)) {
            Some(f) => r == Ok::<ArchiveFormat, String>(f),
            None => r matches Err(m) && m@ == "Unsupported archive format"@,
        },
{
    let ext = path_extension(archive_path);
    let e = match &ext {
        Some(x) => Some(x.as_str()),
        None => None,
    };
    match archive_format(e) {
        Some(f) => Ok(f),
        None => Err(string_of(&chars_of("Unsupported archive format"))),
    }
}

/// The format chosen in the format list by its id, and the file extension
/// it writes: `tar.gz` chooses gzipped tar, anything else (and no choice)
/// zip.
pub open spec fn chosen_format(format_id: Option<Seq<char>>) -> (ArchiveFormat, Seq<char>) {
    if format_id == Some("tar.gz"@) {
        (ArchiveFormat::TarGz, ".tar.gz"@)
    } else {
        (ArchiveFormat::Zip, ".zip"@)
    }
}

/// Checks a compression request: how many files are queued, the archive's
/// name as typed, and the id of the chosen format. Gives the archive's file
/// name and format, or the message shown.
pub fn compression_request(queued: usize, name: &str, format_id: Option<&str>) -> (r: Result<(String, ArchiveFormat), String>)
    ensures
        queued == 0 ==> (r matches Err(m) && m@ == "No files selected to compress"@),
        queued > 0 && name@.len() == 0 ==> (r matches Err(m) && m@ == "Please specify an archive name"@),
        queued > 0 && name@.len() > 0 ==> (r matches Ok((file, format)) && {
            let (f, ext) = chosen_format(
                match format_id {
                    Some(x) => Some(x@),
                    None => None,
                },
            );
            &&& format == f
            &&& file@ == name@ + ext
        }),
{
    if queued == 0 {
        return Err(string_of(&chars_of("No files selected to compress")));
    }
    let n = chars_of(name);
    if n.len() == 0 {
        return Err(string_of(&chars_of("Please specify an archive name")));
    }
    let is_tar = match format_id {
        Some(id) => {
            let idc = chars_of(id);
            chars_eq_str(&idc, "tar.gz")
        },
        None => false,
    };
    if is_tar {
        Ok((concat2(name, ".tar.gz"), ArchiveFormat::TarGz))
    } else {
        Ok((concat2(name, ".zip"), ArchiveFormat::Zip))
    }
}

/// The size shown beside a listed entry.
pub fn entry_size_label(size: u64) -> (r: String)
    ensures
        r@ == dec_seq(size as nat) + " B"@,
{
    let mut v = dec_chars(size);
    let b = chars_of(" B");
    extend_chars(&mut v, &b);
    string_of(&v)
}

/// Where reading an archive's listing stopped: opening the archive (or its
/// list of entries), reading an entry, or reading an entry's path.
#[derive(Debug, Clone, Copy, PartialEq, Eq, Structural)]
pub enum ListingStage {
    Open,
    Entry,
    Path,
}

/// Each entry's name, whether it is a folder, and its size.
pub open spec fn entries_view(v: Seq<ArchiveEntry>) -> Seq<(Seq<char>, bool, u64)> {
    v.map_values(|e: ArchiveEntry| (e.name@, e.is_dir, e.size))
}

/// Name for what the `zip` crate lists from the bytes of a zip archive: the
/// entries in order, or where reading stopped with the crate's message.
pub uninterp spec fn zip_listing(bytes: Seq<u8>) -> Result<Seq<(Seq<char>, bool, u64)>, (ListingStage, Seq<char>)>;

/// Name for what the `tar` crate lists, through `flate2`'s gzip decoder,
/// from the bytes of a gzipped tar archive: the entries in order, or where
/// reading stopped with the crate's message.
pub uninterp spec fn targz_listing(bytes: Seq<u8>) -> Result<Seq<(Seq<char>, bool, u64)>, (ListingStage, Seq<char>)>;

/// The entries of a zip archive: `zip::ZipArchive::new` over the bytes, then
/// for each index in order `by_index`, `name`, `is_dir` and `size`, stopping
/// at the first error. The result is `zip_listing` of the bytes.
#[verifier::external_body]
fn zip_entries(bytes: &Vec<u8>) -> (r: Result<Vec<ArchiveEntry>, (ListingStage, String)>)
    ensures
        match zip_listing(bytes@) {
            Ok(l) => r matches Ok(v) && entries_view(v@) == l,
            Err((k, m)) => r matches Err((k2, s)) && k2 == k && s@ == m,
        },
{
    let mut zip = zip::ZipArchive::new(std::io::Cursor::new(bytes.as_slice()))
        .map_err(|e| (ListingStage::Open, e.to_string()))?;
    (0..zip.len()).map(|i| {
        let file = zip.by_index(i).map_err(|e| (ListingStage::Entry, e.to_string()))?;
        let name = file.name().map_err(|e| (ListingStage::Entry, e.to_string()))?.to_string();
        Ok(ArchiveEntry { name, is_dir: file.is_dir(), size: file.size() })
    }).collect()
}

/// The entries of a gzipped tar archive: `tar::Archive::new` over
/// `flate2::read::GzDecoder::new` of the bytes, then `entries` and, for each
/// entry in order, `path`, the header's `entry_type().is_dir()` and `size`
/// (0 when the header's size cannot be read), stopping at the first error.
/// The result is `targz_listing` of the bytes.
#[verifier::external_body]
fn targz_entries(bytes: &Vec<u8>) -> (r: Result<Vec<ArchiveEntry>, (ListingStage, String)>)
    ensures
        match targz_listing(bytes@) {
            Ok(l) => r matches Ok(v) && entries_view(v@) == l,
            Err((k, m)) => r matches Err((k2, s)) && k2 == k && s@ == m,
        },
{
    let mut archive = tar::Archive::new(flate2::read::GzDecoder::new(bytes.as_slice()));
    let entries = archive.entries().map_err(|e| (ListingStage::Open, e.to_string()))?;
    entries.map(|entry| {
        let entry = entry.map_err(|e| (ListingStage::Entry, e.to_string()))?;
        let path = entry.path().map_err(|e| (ListingStage::Path, e.to_string()))?;
        let name = path.to_string_lossy().to_string();
        Ok(ArchiveEntry { name, is_dir: entry.header().entry_type().is_dir(), size: entry.header().size().unwrap_or(0) })
    }).collect()
}

/// What the reader of `format` lists from `bytes`.
pub open spec fn listing_of(format: ArchiveFormat, bytes: Seq<u8>) -> Result<Seq<(Seq<char>, bool, u64)>, (ListingStage, Seq<char>)> {
    match format {
        ArchiveFormat::Zip => zip_listing(bytes),
        ArchiveFormat::TarGz => targz_listing(bytes),
    }
}

/// The words put before a reader's message when listing stops at `stage`.
pub open spec fn listing_error_prefix(format: ArchiveFormat, stage: ListingStage) -> Seq<char> {
    match format {
        ArchiveFormat::Zip => match stage {
            ListingStage::Open => "Invalid zip archive: "@,
            _ => "Failed to read entry: "@,
        },
        ArchiveFormat::TarGz => match stage {
            ListingStage::Open => "Failed to read tar entries: "@,
            ListingStage::Entry => "Invalid tar entry: "@,
            ListingStage::Path => "Invalid path in tar: "@,
        },
    }
}

/// The message shown when listing an archive of `format` stops at `stage`
/// with the reader's message `m`.
fn listing_error(format: ArchiveFormat, stage: ListingStage, m: &str) -> (r: String)
    ensures
        r@ == listing_error_prefix(format, stage) + m@,
{
    match format {
        ArchiveFormat::Zip => match stage {
            ListingStage::Open => concat2("Invalid zip archive: ", m),
            _ => concat2("Failed to read entry: ", m),
        },
        ArchiveFormat::TarGz => match stage {
            ListingStage::Open => concat2("Failed to read tar entries: ", m),
            ListingStage::Entry => concat2("Invalid tar entry: ", m),
            ListingStage::Path => concat2("Invalid path in tar: ", m),
        },
    }
}

/// The entries of the archive at `archive_path`, whose contents are
/// `bytes`: the format comes from the file name's extension; an
/// unsupported format, or a reader that stops, gives the message shown.
pub fn list_archive(archive_path: &str, bytes: &Vec<u8>) -> (r: Result<Vec<ArchiveEntry>, String>)
    ensures
        match format_of_extension(path_extension_of(archive_path@)) {
            None => r matches Err(m) && m@ == "Unsupported archive format. Supported formats: .zip, .tar.gz, .tgz"@,
            Some(f) => match listing_of(f, bytes@) {
                Ok(l) => r matches Ok(v) && entries_view(v@) == l,
                Err((k, m)) => r matches Err(e) && e@ == listing_error_prefix(f, k) + m,
            },
        },
{
    let format = format_for_listing(archive_path)?;
    let listed = match format {
        ArchiveFormat::Zip => zip_entries(bytes),
        ArchiveFormat::TarGz => targz_entries(bytes),
    };
    match listed {
        Ok(v) => Ok(v),
        Err((stage, m)) => Err(listing_error(format, stage, m.as_str())),
    }
}

/// The entries the contents list shows: the first 200.
pub fn shown_entries(entries: Vec<ArchiveEntry>) -> (r: Vec<ArchiveEntry>)
    ensures
        r@ == entries@.take(if entries@.len() <= 200 { entries@.len() as int } else { 200 }),
{
    let mut entries = entries;
    if entries.len() > 200 {
        entries.truncate(200);
    }
    entries
}

/// The files queued for compression; no two of them name the same path
/// (compared component by component, as `PathBuf` equality does).
pub struct CompressQueue {
    files: Vec<String>,
}

/// The texts of a list of strings.
pub open spec fn texts(v: Seq<String>) -> Seq<Seq<char>> {
    v.map_values(|s: String| s@)
}

/// The paths of `files` are pairwise different.
pub open spec fn distinct_paths(files: Seq<Seq<char>>) -> bool {
    forall|i: int, j: int| #![trigger files[i], files[j]] 0 <= i < j < files.len() ==> path_parts(files[i])
        != path_parts(files[j])
}

/// Some entry of `files` names the path `x` (compared component-wise).
pub open spec fn has_path(files: Seq<Seq<char>>, x: Seq<char>) -> bool {
    exists|j: int| 0 <= j < files.len() && path_parts(#[trigger] files[j]) == path_parts(x)
}

/// Every path of `paths` is queued in `files`.
pub open spec fn each_queued(files: Seq<Seq<char>>, paths: Seq<Seq<char>>) -> bool {
    forall|k: int| 0 <= k < paths.len() ==> has_path(files, #[trigger] paths[k])
}

/// Every entry of `files` from position `lo` on is one of `paths`.
pub open spec fn only_from(files: Seq<Seq<char>>, lo: int, paths: Seq<Seq<char>>) -> bool {
    forall|j: int| lo <= j < files.len() ==> paths.contains(#[trigger] files[j])
}

/// The queue `files` after adding `paths` in order: each path that is not
/// queued yet (component-wise, counting the ones added before it) goes to
/// the end, the others are passed over.
pub open spec fn queue_after(files: Seq<Seq<char>>, paths: Seq<Seq<char>>) -> Seq<Seq<char>>
    decreases paths.len(),
{
    if paths.len() == 0 {
        files
    } else {
        let before = queue_after(files, paths.drop_last());
        if has_path(before, paths.last()) {
            before
        } else {
            before.push(paths.last())
        }
    }
}

fn parts_equal(a: &Vec<Part>, b: &Vec<Part>) -> (r: bool)
    ensures
        r == (parts_view(a@) == parts_view(b@)),
{
    if a.len() != b.len() {
        assert(parts_view(a@).len() != parts_view(b@).len());
        return false;
    }
    let mut i: usize = 0;
    while i < a.len()
        invariant
            i <= a.len(),
            a.len() == b.len(),
            forall|k: int| 0 <= k < i ==> parts_view(a@)[k] == parts_view(b@)[k],
        decreases a.len() - i,
    {
        let same = match (&a[i], &b[i]) {
            (Part::Root, Part::Root) => true,
            (Part::Cur, Part::Cur) => true,
            (Part::Parent, Part::Parent) => true,
            (Part::Name(x), Part::Name(y)) => crate::text::chars_eq(x, y),
            _ => false,
        };
        if !same {
            assert(parts_view(a@)[i as int] != parts_view(b@)[i as int]);
            return false;
        }
        i = i + 1;
    }
    assert(parts_view(a@) =~= parts_view(b@));
    true
}

proof fn lemma_each_queued_extend(files: Seq<Seq<char>>, p: Seq<Seq<char>>, x: Seq<char>)
    requires
        each_queued(files, p),
        has_path(files, x),
    ensures
        each_queued(files, p.push(x)),
{
    let q = p.push(x);
    assert forall|k: int| 0 <= k < q.len() implies has_path(files, #[trigger] q[k]) by {
        if k < p.len() {
            assert(q[k] == p[k]);
        }
    }
}

proof fn lemma_only_from_extend(files: Seq<Seq<char>>, lo: int, p: Seq<Seq<char>>, x: Seq<char>)
    requires
        only_from(files, lo, p),
    ensures
        only_from(files, lo, p.push(x)),
{
    let q = p.push(x);
    assert forall|j: int| lo <= j < files.len() implies q.contains(#[trigger] files[j]) by {
        assert(p.contains(files[j]));
        let k = choose|k: int| 0 <= k < p.len() && p[k] == files[j];
        assert(q[k] == p[k]);
    }
}

proof fn lemma_queue_push(files: Seq<Seq<char>>, lo: int, p: Seq<Seq<char>>, x: Seq<char>)
    requires
        each_queued(files, p),
        only_from(files, lo, p),
        0 <= lo <= files.len(),
    ensures
        each_queued(files.push(x), p.push(x)),
        only_from(files.push(x), lo, p.push(x)),
{
    let f = files.push(x);
    let q = p.push(x);
    assert forall|k: int| 0 <= k < q.len() implies has_path(f, #[trigger] q[k]) by {
        if k < p.len() {
            assert(q[k] == p[k]);
            assert(has_path(files, p[k]));
            let jj = choose|jj: int| 0 <= jj < files.len() && path_parts(#[trigger] files[jj]) == path_parts(p[k]);
            assert(f[jj] == files[jj]);
        } else {
            assert(q[k] == x);
            assert(f[files.len() as int] == x);
        }
    }
    assert forall|j: int| lo <= j < f.len() implies q.contains(#[trigger] f[j]) by {
        if j < files.len() {
            assert(f[j] == files[j]);
            assert(p.contains(files[j]));
            let k = choose|k: int| 0 <= k < p.len() && p[k] == files[j];
            assert(q[k] == p[k]);
        } else {
            assert(f[j] == x);
            assert(q[p.len() as int] == x);
        }
    }
}

impl CompressQueue {
    #[verifier::type_invariant]
    closed spec fn wf(&self) -> bool {
        distinct_paths(texts(self.files@))
    }

    /// The queued paths, in the order they were added.
    pub closed spec fn queued(&self) -> Seq<Seq<char>> {
        texts(self.files@)
    }

    /// An empty queue.
    pub fn new() -> (r: Self)
        ensures
            r.queued().len() == 0,
    {
        CompressQueue { files: Vec::new() }
    }

    /// The queued paths.
    pub fn files(&self) -> (r: &Vec<String>)
        ensures
            texts(r@) == self.queued(),
            distinct_paths(self.queued()),
    {
        proof {
            use_type_invariant(self);
        }
        &self.files
    }

    /// Whether some queued path equals `path`.
    pub fn contains(&self, path: &str) -> (r: bool)
        ensures
            r == exists|i: int| #![trigger self.queued()[i]]
                0 <= i < self.queued().len() && path_parts(self.queued()[i]) == path_parts(path@),
    {
        let pc = chars_of(path);
        let pp = components(&pc);
        let mut i: usize = 0;
        while i < self.files.len()
            invariant
                i <= self.files.len(),
                parts_view(pp@) == path_parts(path@),
                forall|k: int| #![trigger self.queued()[k]] 0 <= k < i ==> path_parts(self.queued()[k]) != path_parts(path@),
            decreases self.files.len() - i,
        {
            let fc = chars_of(self.files[i].as_str());
            let fp = components(&fc);
            assert(self.queued()[i as int] == self.files@[i as int]@);
            if parts_equal(&fp, &pp) {
                assert(path_parts(self.queued()[i as int]) == path_parts(path@));
                return true;
            }
            i = i + 1;
        }
        false
    }

    /// Queues each of `paths` that is not queued yet, in order.
    pub fn add_all(&mut self, paths: Vec<String>)
        ensures
            distinct_paths(final(self).queued()),
            old(self).queued().len() <= final(self).queued().len(),
            final(self).queued().take(old(self).queued().len() as int) == old(self).queued(),
            each_queued(final(self).queued(), texts(paths@)),
            only_from(final(self).queued(), old(self).queued().len() as int, texts(paths@)),
            final(self).queued() == queue_after(old(self).queued(), texts(paths@)),
    {
        proof {
            use_type_invariant(&*self);
        }
        let ghost start = self.queued();
        let ghost pv = texts(paths@);
        assert(self.queued().take(start.len() as int) =~= start);
        assert(pv.take(0) =~= Seq::<Seq<char>>::empty());
        let mut i: usize = 0;
        while i < paths.len()
            invariant
                i <= paths.len(),
                pv == texts(paths@),
                distinct_paths(self.queued()),
                start.len() <= self.queued().len(),
                self.queued().take(start.len() as int) == start,
                each_queued(self.queued(), pv.take(i as int)),
                only_from(self.queued(), start.len() as int, pv.take(i as int)),
                self.queued() == queue_after(start, pv.take(i as int)),
            decreases paths.len() - i,
        {
            let ghost cur = self.queued();
            let present = self.contains(paths[i].as_str());
            let ghost pi = pv[i as int];
            let ghost prefix = pv.take(i as int);
            assert(pv.take(i + 1) =~= prefix.push(pi));
            assert(pv.take(i + 1).drop_last() =~= prefix);
            proof {
                if present {
                    let j = choose|j: int| #![trigger cur[j]] 0 <= j < cur.len() && path_parts(cur[j])
                        == path_parts(pi);
                    assert(has_path(cur, pi));
                    lemma_each_queued_extend(cur, prefix, pi);
                    lemma_only_from_extend(cur, start.len() as int, prefix, pi);
                }
            }
            if !present {
                let mut files: Vec<String> = Vec::new();
                std::mem::swap(&mut files, &mut self.files);
                assert(texts(files@) == cur);
                files.push(paths[i].clone());
                proof {
                    let nv = texts(files@);
                    assert(nv =~= cur.push(pi));
                    assert forall|a: int, b: int| #![trigger nv[a], nv[b]] 0 <= a < b < nv.len() implies path_parts(
                        nv[a],
                    ) != path_parts(nv[b]) by {
                        if b == cur.len() {
                            assert(nv[a] == cur[a]);
                            assert(nv[b] == pi);
                            if path_parts(cur[a]) == path_parts(pi) {
                                assert(cur[a] == cur[a]);
                            }
                        } else {
                            assert(nv[a] == cur[a]);
                            assert(nv[b] == cur[b]);
                        }
                    }
                    lemma_queue_push(cur, start.len() as int, prefix, pi);
                    assert(nv.take(start.len() as int) =~= start);
                }
                self.files = files;
            }
            i = i + 1;
        }
        assert(pv.take(paths.len() as int) =~= pv);
    }

    /// Takes the path at `index` out of the queue.
    pub fn remove(&mut self, index: usize)
        requires
            index < old(self).queued().len(),
        ensures
            final(self).queued() == old(self).queued().remove(index as int),
    {
        proof {
            use_type_invariant(&*self);
        }
        let mut files: Vec<String> = Vec::new();
        std::mem::swap(&mut files, &mut self.files);
        let ghost before = texts(files@);
        files.remove(index);
        proof {
            let nv = texts(files@);
            assert(nv =~= before.remove(index as int));
            assert forall|i: int, j: int| #![trigger nv[i], nv[j]] 0 <= i < j < nv.len() implies path_parts(nv[i])
                != path_parts(nv[j]) by {
                let oi = if i < index { i } else { i + 1 };
                let oj = if j < index { j } else { j + 1 };
                assert(nv[i] == before[oi]);
                assert(nv[j] == before[oj]);
            }
        }
        self.files = files;
    }

    /// Empties the queue (after a successful compression).
    pub fn clear(&mut self)
        ensures
            final(self).queued().len() == 0,
    {
        self.files = Vec::new();
    }
}

} // verus!
