use file_index::{
    build_record, digest_key, name_key, CrawlEntry, EntryMetadata, IndexSnapshot, IndexStore,
};

fn entry(path: &str, name: &str, size: u64) -> CrawlEntry {
    CrawlEntry {
        path: path.to_string(),
        name: Some(name.to_string()),
        metadata: Some(EntryMetadata {
            size,
            modified_secs: Some(0),
            is_dir: false,
            is_file: true,
            is_symlink: false,
        }),
    }
}

fn names(records: &[file_index::FileInfo]) -> Vec<String> {
    let mut v: Vec<String> = records.iter().map(|f| f.file_path.clone()).collect();
    v.sort();
    v
}

fn report_roots() -> Vec<Vec<CrawlEntry>> {
    vec![vec![
        entry("/data/Report.PDF", "Report.PDF", 2048),
        entry("/data/report_final.txt", "report_final.txt", 10),
    ]]
}

#[test]
fn name_key_is_digest_prefix() {
    let digest = blake3::hash("report.pdf".as_bytes());
    let mut first = [0u8; 16];
    first.copy_from_slice(&digest.as_bytes()[..16]);
    assert_eq!(name_key("report.pdf"), u128::from_le_bytes(first));
    assert_ne!(name_key("report.pdf"), name_key("report.pdg"));
}

#[test]
fn digest_key_reads_little_endian_prefix() {
    let mut d = [0u8; 32];
    d[0] = 1;
    d[1] = 2;
    d[16] = 0xff;
    assert_eq!(digest_key(&d), 513);
    let all = [0xffu8; 32];
    assert_eq!(digest_key(&all), u128::MAX);
}

#[test]
fn find_keyed_uses_key_then_scan() {
    let s = IndexSnapshot::from_roots(&report_roots());
    let hit = s.find_keyed(name_key("report.pdf"), "zzz");
    assert_eq!(hit.len(), 1);
    assert_eq!(hit[0].file_name, "Report.PDF");
    let scan = s.find_keyed(0, "final");
    assert_eq!(scan.len(), 1);
    assert_eq!(scan[0].file_name, "report_final.txt");
}

#[test]
fn build_record_of_file() {
    let (key, rec) = build_record(&entry("/d/Report.PDF", "Report.PDF", 2048)).unwrap();
    assert_eq!(key, name_key("report.pdf"));
    assert_eq!(rec.file_name, "Report.PDF");
    assert_eq!(rec.lower_name, "report.pdf");
    assert_eq!(rec.file_size, 2048);
    assert_eq!(rec.formatted_size, "2.0 KB");
    assert_eq!(rec.file_path, "/d/Report.PDF");
    assert_eq!(rec.file_type, "file");
    assert_eq!(rec.modification_date, "1970-01-01T00:00:00+00:00");
}

#[test]
fn build_record_drops_undecodable_name() {
    let mut e = entry("/d/x", "x", 1);
    e.name = None;
    assert!(build_record(&e).is_none());
}

#[test]
fn build_record_drops_unreadable_metadata() {
    let mut e = entry("/d/x", "x", 1);
    e.metadata = None;
    assert!(build_record(&e).is_none());
}

#[test]
fn build_record_unknown_time() {
    let mut e = entry("/d/x", "x", 1);
    e.metadata = Some(EntryMetadata {
        size: 1,
        modified_secs: None,
        is_dir: false,
        is_file: true,
        is_symlink: false,
    });
    assert_eq!(build_record(&e).unwrap().1.modification_date, "Unknown");
}

#[test]
fn empty_snapshot() {
    let s = IndexSnapshot::new();
    assert_eq!(s.len(), 0);
    assert!(s.search("anything").is_empty());
}

#[test]
fn report_scenario() {
    let s = IndexSnapshot::from_roots(&report_roots());
    assert_eq!(s.len(), 2);
    let both = s.search("report");
    assert_eq!(
        names(&both),
        vec!["/data/Report.PDF".to_string(), "/data/report_final.txt".to_string()]
    );
    let exact = s.search("Report.PDF");
    assert_eq!(exact.len(), 1);
    assert_eq!(exact[0].file_name, "Report.PDF");
    assert_eq!(exact[0].file_size, 2048);
    assert!(s.search("xyz").is_empty());
}

#[test]
fn exact_match_ignores_case_and_surrounding_space() {
    let s = IndexSnapshot::from_roots(&report_roots());
    let r = s.search("  rEPORT.pdf \t");
    assert_eq!(r.len(), 1);
    assert_eq!(r[0].file_path, "/data/Report.PDF");
}

#[test]
fn exact_match_returns_only_that_record() {
    // "a.txt" is also a substring of "data.txt", but the exact path wins.
    let roots = vec![vec![entry("/x/data.txt", "data.txt", 1), entry("/x/a.txt", "a.txt", 2)]];
    let s = IndexSnapshot::from_roots(&roots);
    let r = s.search("A.TXT");
    assert_eq!(r.len(), 1);
    assert_eq!(r[0].file_path, "/x/a.txt");
}

#[test]
fn substring_fallback_keeps_iteration_order() {
    let roots = vec![vec![
        entry("/x/b-notes.md", "b-notes.md", 1),
        entry("/x/other", "other", 1),
        entry("/x/a-notes.md", "a-notes.md", 1),
    ]];
    let s = IndexSnapshot::from_roots(&roots);
    let r = s.search("NOTES");
    assert_eq!(r.len(), 2);
    assert_eq!(r[0].file_path, "/x/b-notes.md");
    assert_eq!(r[1].file_path, "/x/a-notes.md");
}

#[test]
fn blank_queries_return_nothing() {
    let s = IndexSnapshot::from_roots(&report_roots());
    assert!(s.search("").is_empty());
    assert!(s.search("   ").is_empty());
    let store = IndexStore::new();
    store.publish(IndexSnapshot::from_roots(&report_roots()));
    assert!(store.search_files("").is_empty());
    assert!(store.search_files("   ").is_empty());
}

#[test]
fn same_name_later_build_wins() {
    let roots = vec![
        vec![entry("/a/notes.txt", "notes.txt", 1)],
        vec![entry("/b/NOTES.TXT", "NOTES.TXT", 2), entry("/b/x", "x", 3)],
    ];
    let s = IndexSnapshot::from_roots(&roots);
    assert_eq!(s.len(), 2);
    let r = s.search("notes.txt");
    assert_eq!(r.len(), 1);
    assert_eq!(r[0].file_path, "/b/NOTES.TXT");
    assert_eq!(r[0].file_size, 2);
}

#[test]
fn same_name_within_one_root_last_wins() {
    let roots = vec![vec![
        entry("/a/x.txt", "x.txt", 1),
        entry("/b/x.txt", "x.txt", 2),
        entry("/c/y.txt", "y.txt", 3),
    ]];
    let s = IndexSnapshot::from_roots(&roots);
    assert_eq!(s.len(), 2);
    let r = s.search("x.txt");
    assert_eq!(r.len(), 1);
    assert_eq!(r[0].file_path, "/b/x.txt");
}

#[test]
fn skipped_entries_are_not_indexed() {
    let mut bad = entry("/a/bad.txt", "bad.txt", 1);
    bad.metadata = None;
    let roots = vec![vec![bad, entry("/a/good.txt", "good.txt", 1)]];
    let s = IndexSnapshot::from_roots(&roots);
    assert_eq!(s.len(), 1);
    assert!(s.search("bad").is_empty());
    assert_eq!(s.search("good").len(), 1);
}

#[test]
fn find_takes_lowercased_query() {
    let s = IndexSnapshot::from_roots(&report_roots());
    assert_eq!(s.find("report.pdf").len(), 1);
    assert_eq!(s.find("final").len(), 1);
    assert!(s.find("REPORT").is_empty());
}

#[test]
fn rebuild_is_idempotent() {
    let a = IndexSnapshot::from_roots(&report_roots());
    let b = IndexSnapshot::from_roots(&report_roots());
    assert_eq!(a.len(), b.len());
    for q in ["report", "report.pdf", "final", "pdf", "txt", "xyz"] {
        let ra = a.search(q);
        let rb = b.search(q);
        assert_eq!(ra.len(), rb.len());
        for (x, y) in ra.iter().zip(rb.iter()) {
            assert_eq!(x.file_path, y.file_path);
            assert_eq!(x.file_name, y.file_name);
            assert_eq!(x.file_size, y.file_size);
            assert_eq!(x.modification_date, y.modification_date);
        }
    }
}

#[test]
fn store_starts_empty() {
    let store = IndexStore::new();
    assert_eq!(store.current_snapshot().len(), 0);
    assert!(store.search_files("a").is_empty());
}

#[test]
fn store_search_sees_old_or_new_snapshot() {
    let store = IndexStore::new();
    store.build_index(&vec![vec![entry("/d/a.txt", "a.txt", 1)]]);
    let before = store.search_files(".txt");
    assert_eq!(names(&before), vec!["/d/a.txt".to_string()]);
    let held = store.current_snapshot();
    store.build_index(&vec![vec![entry("/d/b.txt", "b.txt", 1)]]);
    let after = store.search_files(".txt");
    assert_eq!(names(&after), vec!["/d/b.txt".to_string()]);
    // A reader that loaded the old snapshot keeps it.
    assert_eq!(names(&held.search(".txt")), vec!["/d/a.txt".to_string()]);
}

#[test]
fn store_publish_replaces_whole_snapshot() {
    let store = IndexStore::new();
    store.publish(IndexSnapshot::from_roots(&report_roots()));
    assert_eq!(store.search_files("report").len(), 2);
    store.publish(IndexSnapshot::new());
    assert!(store.search_files("report").is_empty());
}
