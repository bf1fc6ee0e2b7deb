use xos_apps::search::{
    file_type_for_index, filters_from_fields, matches_filters, parse_optional_u32, parse_optional_u64,
    sort_results, walk_entry, FileItem, FileTypeFilter, SearchFilters, WalkStep,
};

fn item(name: &str, is_dir: bool, size: u64, modified: i64, ct: &str) -> FileItem {
    FileItem {
        uri: format!("file:///tmp/{name}"),
        name: name.to_string(),
        is_dir,
        size,
        modified,
        content_type: ct.to_string(),
    }
}

fn filters(name: &str, t: FileTypeFilter) -> SearchFilters {
    SearchFilters { name: name.to_string(), file_type: t, min_size: None, max_size: None, modified_within_days: None }
}

#[test]
fn default_filters_are_inactive_and_match_everything() {
    let f = SearchFilters::default();
    assert!(!f.is_active());
    assert!(matches_filters(&item("x", true, 0, 0, ""), &f, 1000));
    assert!(matches_filters(&item("y.bin", false, 99, -5, "application/octet-stream"), &f, 0));
}

#[test]
fn any_set_filter_is_active() {
    assert!(filters("a", FileTypeFilter::All).is_active());
    assert!(filters("", FileTypeFilter::Pdf).is_active());
    let mut f = SearchFilters::default();
    f.max_size = Some(1);
    assert!(f.is_active());
}

#[test]
fn name_filter_ignores_ascii_case() {
    let f = filters("REP", FileTypeFilter::All);
    assert!(matches_filters(&item("Quarterly report.txt", false, 1, 0, "text/plain"), &f, 0));
    assert!(!matches_filters(&item("summary.txt", false, 1, 0, "text/plain"), &f, 0));
}

#[test]
fn type_filters() {
    let img = item("a.png", false, 1, 0, "image/png");
    let vid = item("a.mkv", false, 1, 0, "video/x-matroska");
    let pdf = item("a.pdf", false, 1, 0, "application/pdf");
    let dir = item("photos", true, 0, 0, "inode/directory");
    let code = item("Main.RS", false, 1, 0, "text/rust");
    let noext = item("Makefile", false, 1, 0, "text/x-makefile");
    assert!(matches_filters(&img, &filters("", FileTypeFilter::Images), 0));
    assert!(!matches_filters(&vid, &filters("", FileTypeFilter::Images), 0));
    assert!(matches_filters(&vid, &filters("", FileTypeFilter::Video), 0));
    assert!(matches_filters(&pdf, &filters("", FileTypeFilter::Pdf), 0));
    assert!(matches_filters(&dir, &filters("", FileTypeFilter::Directories), 0));
    assert!(!matches_filters(&dir, &filters("", FileTypeFilter::Images), 0));
    assert!(matches_filters(&code, &filters("", FileTypeFilter::Code), 0));
    assert!(!matches_filters(&noext, &filters("", FileTypeFilter::Code), 0));
    assert!(!matches_filters(&item("tests", true, 0, 0, ""), &filters("", FileTypeFilter::Code), 0));
}

#[test]
fn size_and_age_filters() {
    let mut f = SearchFilters::default();
    f.min_size = Some(10);
    f.max_size = Some(20);
    assert!(matches_filters(&item("a", false, 10, 0, ""), &f, 0));
    assert!(matches_filters(&item("a", false, 20, 0, ""), &f, 0));
    assert!(!matches_filters(&item("a", false, 9, 0, ""), &f, 0));
    assert!(!matches_filters(&item("a", false, 21, 0, ""), &f, 0));
    let mut g = SearchFilters::default();
    g.modified_within_days = Some(2);
    let now: u64 = 1_000_000;
    let cutoff = (now - 2 * 86_400) as i64;
    assert!(matches_filters(&item("a", false, 0, cutoff, ""), &g, now));
    assert!(!matches_filters(&item("a", false, 0, cutoff - 1, ""), &g, now));
    // before the epoch the cutoff is 0
    assert!(matches_filters(&item("a", false, 0, 0, ""), &g, 100));
    assert!(!matches_filters(&item("a", false, 0, -1, ""), &g, 100));
}

#[test]
fn optional_numbers() {
    assert_eq!(parse_optional_u64("  42 "), Some(42));
    assert_eq!(parse_optional_u64(""), None);
    assert_eq!(parse_optional_u64("   "), None);
    assert_eq!(parse_optional_u64("4k"), None);
    assert_eq!(parse_optional_u64("+5"), Some(5));
    assert_eq!(parse_optional_u32("4294967296"), None);
    assert_eq!(parse_optional_u32("\t7\n"), Some(7));
}

#[test]
fn search_bar_fields() {
    let f = filters_from_fields("notes", 5, " 1 ", "", "x");
    assert_eq!(f.name, "notes");
    assert_eq!(f.file_type, FileTypeFilter::Code);
    assert_eq!(f.min_size, Some(1));
    assert_eq!(f.max_size, None);
    assert_eq!(f.modified_within_days, None);
    assert_eq!(file_type_for_index(0), FileTypeFilter::All);
    assert_eq!(file_type_for_index(1), FileTypeFilter::Directories);
    assert_eq!(file_type_for_index(4), FileTypeFilter::Pdf);
    assert_eq!(file_type_for_index(17), FileTypeFilter::All);
}

#[test]
fn walk_skips_dot_entries_and_limits_depth() {
    let f = filters("a", FileTypeFilter::All);
    assert!(matches!(walk_entry(".".into(), "u".into(), true, 0, 0, None, &f, 0, 0), WalkStep::Skip));
    assert!(matches!(walk_entry("..".into(), "u".into(), true, 0, 0, None, &f, 0, 0), WalkStep::Skip));
    match walk_entry("abc".into(), "file:///r/abc".into(), true, 4096, 7, None, &f, 0, 7) {
        WalkStep::Visit { item, keep, descend } => {
            assert_eq!(item.size, 0);
            assert_eq!(item.content_type, "application/octet-stream");
            assert!(keep);
            assert!(descend);
        }
        WalkStep::Skip => panic!("entry skipped"),
    }
    match walk_entry("zzz".into(), "file:///r/zzz".into(), true, 1, 1, Some("x/y".into()), &f, 0, 8) {
        WalkStep::Visit { item, keep, descend } => {
            assert_eq!(item.content_type, "x/y");
            assert!(!keep);
            assert!(!descend);
        }
        WalkStep::Skip => panic!("entry skipped"),
    }
    match walk_entry("f".into(), "file:///r/f".into(), false, -1, 1, None, &SearchFilters::default(), 0, 0) {
        WalkStep::Visit { item, descend, .. } => {
            assert_eq!(item.size, u64::MAX);
            assert!(!descend);
        }
        WalkStep::Skip => panic!("entry skipped"),
    }
}

#[test]
fn results_sort_by_lowercase_name_stably() {
    let items = vec![
        item("b", false, 1, 0, ""),
        item("B", false, 2, 0, ""),
        item("Ä", false, 3, 0, ""),
        item("a", false, 4, 0, ""),
        item("ä", false, 5, 0, ""),
    ];
    let sorted = sort_results(items);
    let sizes: Vec<u64> = sorted.iter().map(|i| i.size).collect();
    // "a" < "b" == "b" < "ä" == "ä" (by code point of the lower case form)
    assert_eq!(sizes, vec![4, 1, 2, 3, 5]);
}

#[test]
fn sorting_the_same_results_twice_gives_the_same_order() {
    let make = || {
        vec![
            item("Zeta", false, 1, 0, ""),
            item("alpha", true, 2, 0, ""),
            item("Alpha", false, 3, 0, ""),
            item("beta", false, 4, 0, ""),
        ]
    };
    let a: Vec<u64> = sort_results(make()).iter().map(|i| i.size).collect();
    let b: Vec<u64> = sort_results(make()).iter().map(|i| i.size).collect();
    assert_eq!(a, b);
    assert_eq!(a, vec![2, 3, 4, 1]);
}

struct Node {
    name: String,
    is_dir: bool,
    children: Vec<Node>,
}

fn chain(depth: usize) -> Node {
    let mut node = Node { name: format!("match-{depth}"), is_dir: true, children: vec![] };
    for d in (0..depth).rev() {
        node = Node {
            name: format!("match-{d}"),
            is_dir: true,
            children: vec![
                node,
                Node { name: ".".into(), is_dir: true, children: vec![] },
                Node { name: "other".into(), is_dir: false, children: vec![] },
            ],
        };
    }
    node
}

fn walk(children: &[Node], f: &SearchFilters, depth: u8, out: &mut Vec<(String, u8)>) {
    for c in children {
        match walk_entry(c.name.clone(), format!("file:///{}", c.name), c.is_dir, 0, 0, None, f, 0, depth) {
            WalkStep::Skip => {}
            WalkStep::Visit { item, keep, descend } => {
                if keep {
                    out.push((item.name.clone(), depth));
                }
                if descend {
                    walk(&c.children, f, depth + 1, out);
                }
            }
        }
    }
}

#[test]
fn a_whole_walk_keeps_matches_and_stops_at_the_deepest_level() {
    let f = filters("match", FileTypeFilter::All);
    let root = chain(12);
    let mut found = Vec::new();
    walk(&root.children, &f, 0, &mut found);
    let names: Vec<String> = found.iter().map(|(n, _)| n.clone()).collect();
    assert_eq!(names, (1..=9).map(|d| format!("match-{d}")).collect::<Vec<_>>());
    assert!(found.iter().all(|(_, d)| *d <= 8));
}

#[test]
fn a_walk_keeps_earlier_results_first_and_finds_only_entries_below() {
    let f = filters("match", FileTypeFilter::All);
    let root = chain(3);
    let mut found = vec![("earlier".to_string(), 0u8), ("results".to_string(), 0u8)];
    walk(&root.children, &f, 0, &mut found);
    assert_eq!(found[0], ("earlier".to_string(), 0));
    assert_eq!(found[1], ("results".to_string(), 0));
    let added: Vec<(String, u8)> = found[2..].to_vec();
    assert_eq!(
        added,
        vec![("match-1".to_string(), 0), ("match-2".to_string(), 1), ("match-3".to_string(), 2)]
    );
}
