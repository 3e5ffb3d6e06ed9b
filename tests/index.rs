use dir2::index::{EntryMeta, FileIndex, ListedEntry, MAX_SCAN_DEPTH};

fn file(path: &str, name: &str) -> ListedEntry {
    ListedEntry {
        path: path.to_string(),
        name: Some(name.to_string()),
        meta: Some(EntryMeta { is_dir: false, size: 1, modified: Some(5) }),
    }
}

fn dir(path: &str, name: &str) -> ListedEntry {
    ListedEntry {
        path: path.to_string(),
        name: Some(name.to_string()),
        meta: Some(EntryMeta { is_dir: true, size: 0, modified: None }),
    }
}

fn names(list: Vec<&dir2::index::FileInfo>) -> Vec<String> {
    list.iter().map(|e| e.name.clone()).collect()
}

fn scanned_a() -> FileIndex {
    let mut idx = FileIndex::new("/a".to_string());
    idx.begin_scan();
    assert_eq!(idx.next_directory(), Some("/a".to_string()));
    idx.record_entries(vec![
        file("/a/foo.txt", "foo.txt"),
        file("/a/Foobar.txt", "Foobar.txt"),
        file("/a/bar.txt", "bar.txt"),
    ]);
    assert_eq!(idx.next_directory(), None);
    idx.complete_scan();
    idx
}

#[test]
fn search_ranks_prefix_matches_and_drops_others() {
    let idx = scanned_a();
    assert_eq!(names(idx.search_files("foo", Some(10))), vec!["foo.txt", "Foobar.txt"]);
}

#[test]
fn search_puts_exact_match_first() {
    let mut idx = FileIndex::new("/r".to_string());
    idx.begin_scan();
    idx.next_directory();
    idx.record_entries(vec![
        file("/r/xnotes", "xnotes"),
        file("/r/notes.md", "notes.md"),
        file("/r/NOTES", "NOTES"),
    ]);
    idx.complete_scan();
    assert_eq!(names(idx.search_files("notes", None)), vec!["NOTES", "notes.md", "xnotes"]);
    assert_eq!(names(idx.search_files("notes", Some(1))), vec!["NOTES"]);
    assert_eq!(names(idx.search_files("NOTES", Some(0))), Vec::<String>::new());
}

#[test]
fn search_matches_on_path_too() {
    let mut idx = FileIndex::new("/r".to_string());
    idx.begin_scan();
    idx.next_directory();
    idx.record_entries(vec![dir("/r/Music", "Music")]);
    assert_eq!(idx.next_directory(), Some("/r/Music".to_string()));
    idx.record_entries(vec![file("/r/Music/song.mp3", "song.mp3")]);
    idx.complete_scan();
    assert_eq!(names(idx.search_files("music", None)), vec!["song.mp3"]);
    assert_eq!(names(idx.search_directories("mus", None)), vec!["Music"]);
}

#[test]
fn scan_sorts_case_insensitively() {
    let idx = scanned_a();
    let all: Vec<String> = idx.files().iter().map(|e| e.name.clone()).collect();
    assert_eq!(all, vec!["bar.txt", "foo.txt", "Foobar.txt"]);
    assert_eq!(idx.get_file_count(), 3);
    assert_eq!(idx.get_directory_count(), 0);
    assert_eq!(idx.get_index_stats(), (3, 0));
}

#[test]
fn scan_skips_hidden_excluded_and_unreadable() {
    let mut idx = FileIndex::new("/p".to_string());
    idx.begin_scan();
    idx.next_directory();
    idx.record_entries(vec![
        dir("/p/.git", ".git"),
        dir("/p/node_modules", "node_modules"),
        dir("/p/target", "target"),
        file("/p/.env", ".env"),
        ListedEntry { path: "/p/odd".to_string(), name: None, meta: Some(EntryMeta { is_dir: false, size: 0, modified: None }) },
        ListedEntry { path: "/p/gone".to_string(), name: Some("gone".to_string()), meta: None },
        dir("/p/src", "src"),
        file("/p/main.rs", "main.rs"),
    ]);
    assert_eq!(idx.next_directory(), Some("/p/src".to_string()));
    assert_eq!(idx.next_directory(), None);
    idx.complete_scan();
    assert_eq!(names(idx.search_files("", None)), vec!["main.rs"]);
    assert_eq!(names(idx.search_directories("", None)), vec!["src"]);
}

#[test]
fn scan_stops_at_depth_bound() {
    let mut idx = FileIndex::new("/d".to_string());
    idx.begin_scan();
    let mut path = "/d".to_string();
    let mut listed = 0;
    while let Some(current) = idx.next_directory() {
        assert_eq!(current, path);
        listed += 1;
        path = format!("{}/l{}", current, listed);
        idx.record_entries(vec![dir(&path, &format!("l{}", listed))]);
    }
    idx.complete_scan();
    assert_eq!(listed, MAX_SCAN_DEPTH + 1);
    assert_eq!(idx.get_directory_count(), MAX_SCAN_DEPTH + 1);
    assert!(idx.directories().iter().all(|d| d.depth <= MAX_SCAN_DEPTH));
}

#[test]
fn scan_with_custom_exclusions() {
    let mut idx = FileIndex::with_exclusions("/c".to_string(), vec!["skip".to_string()]);
    idx.begin_scan();
    idx.next_directory();
    idx.record_entries(vec![dir("/c/skip", "skip"), dir("/c/target", "target")]);
    assert_eq!(names(idx.search_directories("", None)), vec!["target"]);
}

#[test]
fn entries_listed_per_directory() {
    let mut idx = FileIndex::new("/r".to_string());
    idx.begin_scan();
    idx.next_directory();
    idx.record_entries(vec![dir("/r/sub", "sub"), file("/r/top.txt", "top.txt")]);
    idx.next_directory();
    idx.record_entries(vec![file("/r/sub/inner.txt", "inner.txt")]);
    idx.complete_scan();
    assert_eq!(names(idx.get_files_in_directory("/r")), vec!["top.txt"]);
    assert_eq!(names(idx.get_files_in_directory("/r/sub")), vec!["inner.txt"]);
    assert_eq!(names(idx.get_directories_in_directory("/r")), vec!["sub"]);
    assert!(idx.get_files_in_directory("/elsewhere").is_empty());
}

#[test]
fn new_index_needs_refresh() {
    let idx = FileIndex::new("/r".to_string());
    assert!(idx.needs_refresh(u64::MAX));
    assert!(idx.needs_refresh_at(0, 0));
}

#[test]
fn update_root_makes_index_stale_until_scanned() {
    let mut idx = scanned_a();
    assert!(!idx.needs_refresh(3_600_000));
    idx.update_root_path("/b".to_string());
    assert_eq!(idx.root_path(), "/b");
    assert_eq!(idx.get_file_count(), 0);
    assert!(idx.needs_refresh(u64::MAX));
    idx.begin_scan();
    assert!(idx.needs_refresh(u64::MAX));
    assert_eq!(idx.next_directory(), Some("/b".to_string()));
    idx.record_entries(vec![file("/b/x", "x")]);
    assert!(idx.needs_refresh(u64::MAX));
    idx.complete_scan();
    assert!(!idx.needs_refresh(3_600_000));
}

#[test]
fn refresh_due_by_age() {
    let mut idx = FileIndex::new("/r".to_string());
    idx.begin_scan();
    idx.complete_scan();
    assert!(!idx.needs_refresh_at(u64::MAX, u64::MAX));
    assert!(idx.needs_refresh_at(0, 1_000));
}

#[test]
fn clock_behind_last_scan_counts_as_longest_age() {
    let mut idx = FileIndex::new("/r".to_string());
    idx.begin_scan();
    idx.complete_scan();
    assert!(!idx.needs_refresh_at(0, u64::MAX));
    assert!(!idx.needs_refresh(u64::MAX));
    assert!(idx.needs_refresh_at(0, u64::MAX - 1));
}

#[test]
fn equal_length_ties_sort_case_insensitively() {
    let mut idx = FileIndex::new("/t".to_string());
    idx.begin_scan();
    idx.next_directory();
    idx.record_entries(vec![file("/t/B.txt", "B.txt"), file("/t/a.txt", "a.txt"), file("/t/c.txt", "c.txt")]);
    idx.complete_scan();
    assert_eq!(names(idx.search_files("txt", None)), vec!["a.txt", "B.txt", "c.txt"]);
}

#[test]
fn default_exclusions_cover_build_directories() {
    let mut idx = FileIndex::new("/p".to_string());
    idx.begin_scan();
    idx.next_directory();
    idx.record_entries(vec![
        dir("/p/dist", "dist"),
        dir("/p/build", "build"),
        dir("/p/__pycache__", "__pycache__"),
        dir("/p/lib", "lib"),
    ]);
    assert_eq!(names(idx.search_directories("", None)), vec!["lib"]);
}
