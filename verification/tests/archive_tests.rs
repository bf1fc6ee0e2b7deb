use std::io::{Cursor, Write};

use xos_apps::archive::{
    list_archive,
    archive_format, compression_request, entry_size_label, format_for_extraction, format_for_listing, shown_entries,
    ArchiveEntry, ArchiveFormat, CompressQueue,
};

#[test]
fn formats_by_extension() {
    assert_eq!(archive_format(Some("zip")), Some(ArchiveFormat::Zip));
    assert_eq!(archive_format(Some("ZIP")), Some(ArchiveFormat::Zip));
    assert_eq!(archive_format(Some("gz")), Some(ArchiveFormat::TarGz));
    assert_eq!(archive_format(Some("TgZ")), Some(ArchiveFormat::TarGz));
    assert_eq!(archive_format(Some("rar")), None);
    assert_eq!(archive_format(None), None);
}

#[test]
fn unsupported_formats_are_refused() {
    assert_eq!(format_for_listing("/home/u/backup.tar.gz"), Ok(ArchiveFormat::TarGz));
    assert_eq!(format_for_listing("/home/u/Backup.ZIP"), Ok(ArchiveFormat::Zip));
    assert_eq!(format_for_listing("release.tgz/"), Ok(ArchiveFormat::TarGz));
    assert_eq!(
        format_for_listing("/tmp/a.7z"),
        Err("Unsupported archive format. Supported formats: .zip, .tar.gz, .tgz".to_string())
    );
    assert_eq!(format_for_listing("/tmp/.zip").is_err(), true);
    assert_eq!(format_for_extraction("/tmp/x/y.zip"), Ok(ArchiveFormat::Zip));
    assert_eq!(format_for_extraction("/tmp/zip"), Err("Unsupported archive format".to_string()));
    assert_eq!(format_for_extraction("/tmp/a.zip/.."), Err("Unsupported archive format".to_string()));
}

#[test]
fn compression_requests() {
    assert_eq!(compression_request(0, "a", Some("zip")), Err("No files selected to compress".to_string()));
    assert_eq!(compression_request(2, "", Some("zip")), Err("Please specify an archive name".to_string()));
    assert_eq!(compression_request(2, "backup", Some("zip")), Ok(("backup.zip".to_string(), ArchiveFormat::Zip)));
    assert_eq!(
        compression_request(1, "backup", Some("tar.gz")),
        Ok(("backup.tar.gz".to_string(), ArchiveFormat::TarGz))
    );
    assert_eq!(compression_request(1, "b", None), Ok(("b.zip".to_string(), ArchiveFormat::Zip)));
}

#[test]
fn entry_sizes_and_the_listing_limit() {
    assert_eq!(entry_size_label(0), "0 B");
    assert_eq!(entry_size_label(4096), "4096 B");
    let many: Vec<ArchiveEntry> =
        (0..250u64).map(|i| ArchiveEntry { name: format!("f{i}"), is_dir: false, size: i }).collect();
    let shown = shown_entries(many);
    assert_eq!(shown.len(), 200);
    assert_eq!(shown[199].name, "f199");
    let few = vec![ArchiveEntry { name: "a/".into(), is_dir: true, size: 0 }];
    assert_eq!(shown_entries(few).len(), 1);
}

#[test]
fn the_queue_holds_each_path_once() {
    let mut q = CompressQueue::new();
    assert!(q.files().is_empty());
    q.add_all(vec!["/a/b".to_string(), "/a/c".to_string(), "/a/b/".to_string(), "/a//c".to_string()]);
    assert_eq!(q.files(), &vec!["/a/b".to_string(), "/a/c".to_string()]);
    assert!(q.contains("/a/b"));
    assert!(q.contains("/a/./c"));
    assert!(!q.contains("/a"));
    q.add_all(vec!["/d".to_string(), "/a/c".to_string()]);
    assert_eq!(q.files(), &vec!["/a/b".to_string(), "/a/c".to_string(), "/d".to_string()]);
    q.remove(1);
    assert_eq!(q.files(), &vec!["/a/b".to_string(), "/d".to_string()]);
    q.clear();
    assert!(q.files().is_empty());
}

#[test]
fn the_queue_keeps_the_order_chosen() {
    let mut q = CompressQueue::new();
    q.add_all(vec!["/z".to_string()]);
    q.add_all(vec!["/c".to_string(), "/a".to_string(), "/z/".to_string(), "/b".to_string(), "/a".to_string()]);
    assert_eq!(
        q.files(),
        &vec!["/z".to_string(), "/c".to_string(), "/a".to_string(), "/b".to_string()]
    );
}

fn zip_bytes() -> Vec<u8> {
    let mut w = zip::ZipWriter::new(Cursor::new(Vec::new()));
    let options = zip::write::SimpleFileOptions::default();
    w.start_file("a.txt", options).unwrap();
    w.write_all(b"hello").unwrap();
    w.add_directory("docs/", options).unwrap();
    w.start_file("docs/b.md", options).unwrap();
    w.write_all(b"# b\n").unwrap();
    w.finish().unwrap().into_inner()
}

fn targz_bytes() -> Vec<u8> {
    let enc = flate2::write::GzEncoder::new(Vec::new(), flate2::Compression::default());
    let mut b = tar::Builder::new(enc);
    let mut h = tar::Header::new_gnu();
    h.set_size(3);
    h.set_mode(0o644);
    h.set_cksum();
    b.append_data(&mut h, "x/y.txt", &b"abc"[..]).unwrap();
    let mut d = tar::Header::new_gnu();
    d.set_entry_type(tar::EntryType::Directory);
    d.set_size(0);
    d.set_mode(0o755);
    d.set_cksum();
    b.append_data(&mut d, "x/", &b""[..]).unwrap();
    b.into_inner().unwrap().finish().unwrap()
}

fn listed(v: Vec<ArchiveEntry>) -> Vec<(String, bool, u64)> {
    v.into_iter().map(|e| (e.name, e.is_dir, e.size)).collect()
}

#[test]
fn listing_a_zip_archive() {
    let entries = list_archive("/tmp/pack.ZIP", &zip_bytes()).unwrap();
    assert_eq!(
        listed(entries),
        vec![
            ("a.txt".to_string(), false, 5),
            ("docs/".to_string(), true, 0),
            ("docs/b.md".to_string(), false, 4),
        ]
    );
}

#[test]
fn listing_a_gzipped_tar_archive() {
    let entries = list_archive("/tmp/pack.tar.gz", &targz_bytes()).unwrap();
    let entries = listed(entries);
    assert_eq!(entries.len(), 2);
    assert_eq!(entries[0], ("x/y.txt".to_string(), false, 3));
    assert!(entries[1].0.starts_with('x') && entries[1].1 && entries[1].2 == 0);
    assert!(list_archive("/tmp/pack.tgz", &targz_bytes()).is_ok());
}

#[test]
fn listing_failures() {
    assert_eq!(
        list_archive("/tmp/pack.rar", &zip_bytes()).err(),
        Some("Unsupported archive format. Supported formats: .zip, .tar.gz, .tgz".to_string())
    );
    let bad = list_archive("/tmp/pack.zip", &vec![1, 2, 3]).unwrap_err();
    assert!(bad.starts_with("Invalid zip archive: "), "{bad}");
    assert!(list_archive("/tmp/pack.zip", &targz_bytes()).is_err());
    assert!(list_archive("/tmp/pack.tgz", &zip_bytes()).is_err());
}
