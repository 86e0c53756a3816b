use opencast::index::{Entry, Snapshot};
use opencast::scan::{excluded_name, FileType, Found, Metadata, Walked};

fn snapshot_of(entries: Vec<Entry>) -> Snapshot {
    Snapshot {
        entries,
        roots: vec![],
        skipped: 0,
    }
}

#[test]
fn search_benchmark() {
    let mut snapshot = snapshot_of(vec![]);
    for i in 0..100_000u64 {
        let entry = Entry::new(
            format!("/Documents/project-{i}/report-{i}.pdf"),
            format!("report-{i}.pdf"),
            false,
            i,
        );
        snapshot.entries.push(entry);
    }
    let start = std::time::Instant::now();
    assert_eq!(
        snapshot.search("report-99999", 30)[0].name,
        "report-99999.pdf"
    );
    println!("100,000-entry search: {:?}", start.elapsed());
}

fn component(tag: char, text: &str) -> Vec<char> {
    std::iter::once(tag).chain(text.chars()).collect()
}

fn found(root: &str, name: &str, depth: usize, file_type: FileType, metadata: Metadata) -> Walked {
    let mut components = vec![component('\u{1}', "")];
    let mut path = String::new();
    for part in root.split('/').filter(|p| !p.is_empty()) {
        components.push(component('\u{4}', part));
        path.push('/');
        path.push_str(part);
    }
    if !name.is_empty() {
        components.push(component('\u{4}', name));
        path.push('/');
        path.push_str(name);
    }
    Walked::Item(Found {
        path,
        components,
        name: if name.is_empty() { root.rsplit('/').next().unwrap().to_string() } else { name.to_string() },
        depth,
        file_type,
        metadata,
    })
}

fn file(root: &str, name: &str, modified: u64) -> Walked {
    found(root, name, 1, FileType::Other, Metadata::Readable { directory: false, modified })
}

fn walk_of(root: &str, names: &[&str]) -> Vec<Walked> {
    let mut walked = vec![found(root, "", 0, FileType::Other, Metadata::Readable { directory: true, modified: 0 })];
    for (i, name) in names.iter().enumerate() {
        walked.push(file(root, name, i as u64));
    }
    walked
}

#[test]
fn scan_search_and_deletion() {
    let root = "/tmp/cache";
    assert!(excluded_name("node_modules"));
    assert!(!excluded_name("Budget.xlsx"));
    let names = ["Budget.xlsx", "Budget notes.txt", "Résumé.pdf"];
    // The same folder listed twice as a root.
    let mut walked = walk_of(root, &names);
    walked.extend(walk_of(root, &names));
    let roots = vec![root.to_string(), root.to_string()];
    let snapshot = Snapshot::scan(roots.clone(), walked);
    assert_eq!(snapshot.entries.len(), 3);
    assert_eq!(snapshot.skipped, 0);
    assert_eq!(snapshot.search("BUDGET.XLSX", 10)[0].name, "Budget.xlsx");
    assert_eq!(snapshot.search("bdgt", 1).len(), 1);
    assert_eq!(snapshot.search("résumé", 10)[0].name, "Résumé.pdf");
    assert!(snapshot.search("missing", 10).is_empty());
    assert_eq!(snapshot.search("budget", 10).len(), 2);
    let after = Snapshot::scan(roots, walk_of(root, &names[1..]));
    assert_eq!(after.entries.len(), 2);
}

#[test]
fn scan_orders_by_path_and_counts_unreadable() {
    let root = "/data";
    let walked = vec![
        Walked::Error,
        file(root, "b", 1),
        found(root, "link", 1, FileType::Symlink, Metadata::Readable { directory: false, modified: 0 }),
        found(root, "odd", 1, FileType::Unknown, Metadata::Readable { directory: false, modified: 0 }),
        found(root, "locked", 1, FileType::Other, Metadata::Unreadable),
        found(root, "locked", 1, FileType::Other, Metadata::Readable { directory: false, modified: 5 }),
        file(root, "a.b", 2),
        file(root, "a", 3),
        found(root, "dir", 1, FileType::Other, Metadata::Readable { directory: true, modified: 9 }),
    ];
    let snapshot = Snapshot::scan(vec![root.to_string()], walked);
    let names: Vec<&str> = snapshot.entries.iter().map(|e| e.name.as_str()).collect();
    // Component order puts "a" before "a.b"; the unreadable first report of "locked" wins.
    assert_eq!(names, vec!["a", "a.b", "b", "dir"]);
    assert_eq!(snapshot.skipped, 2);
    assert!(snapshot.entries[3].directory);
    assert_eq!(snapshot.entries[0].path, "/data/a");
}

#[test]
fn ranking_order_and_ties() {
    let entries = vec![
        Entry::new("/x/notes-old.txt".into(), "notes-old.txt".into(), false, 1),
        Entry::new("/x/notes".into(), "notes".into(), true, 0),
        Entry::new("/x/my notes.txt".into(), "my notes.txt".into(), false, 7),
        Entry::new("/notes/plan.md".into(), "plan.md".into(), false, 3),
        Entry::new("/x/n-o-t-e-s.txt".into(), "n-o-t-e-s.txt".into(), false, 9),
        Entry::new("/x/notes-new.txt".into(), "notes-new.txt".into(), false, 2),
        Entry::new("/x/other.txt".into(), "other.txt".into(), false, 4),
    ];
    let snapshot = snapshot_of(entries);
    let names: Vec<String> = snapshot.search("  Notes ", 10).into_iter().map(|e| e.name).collect();
    // exact, prefixes (newest first), substring, path token, fuzzy
    assert_eq!(
        names,
        vec!["notes", "notes-new.txt", "notes-old.txt", "my notes.txt", "plan.md", "n-o-t-e-s.txt"]
    );
    assert_eq!(snapshot.search_indices("notes", 2), vec![1, 5]);
    assert!(snapshot.search("notes", 0).is_empty());
    // An empty query lists everything, most recently modified first.
    assert_eq!(snapshot.search_indices("", 3), vec![4, 2, 6]);
    // Path tokens: every word must occur in the lowercased path.
    assert_eq!(snapshot.search_indices("X OTHER", 10), vec![6]);
}

#[test]
fn fuzzy_needs_two_bytes() {
    let snapshot = snapshot_of(vec![Entry::new("/x/abc".into(), "abc".into(), false, 0)]);
    // A one-byte query only matches as prefix, substring or path token.
    assert!(snapshot.search("q", 5).is_empty());
    assert_eq!(snapshot.search("ac", 5).len(), 1);
}

#[test]
fn entries_prepare_lowercased_paths() {
    let mut entry = Entry::new("/Docs/ReadMe.MD".into(), "ReadMe.MD".into(), false, 3);
    assert_eq!(entry.searchable.iter().collect::<String>(), "/docs/readme.md");
    entry.path = "/OTHER".into();
    entry.prepare();
    assert_eq!(entry.searchable.iter().collect::<String>(), "/other");
    let copy = entry.duplicate();
    assert_eq!(copy.path, "/OTHER");
    assert_eq!(copy.searchable, entry.searchable);
}

#[test]
fn repeated_searches_rank_identically() {
    let entries: Vec<Entry> = (0..50u64)
        .map(|i| Entry::new(format!("/w/file-{}.txt", i % 7), format!("file-{}.txt", i % 7), false, i % 5))
        .collect();
    let snapshot = snapshot_of(entries);
    let first = snapshot.search_indices("file", 40);
    let second = snapshot.search_indices("file", 40);
    assert_eq!(first, second);
    assert_eq!(first.len(), 40);
    // Ties on score and time keep index order.
    assert_eq!(&first[..3], &[4, 9, 14]);
    let recent = snapshot.search_indices("   ", 50);
    assert_eq!(recent.len(), 50);
    assert!(recent.windows(2).all(|w| snapshot.entries[w[0]].modified >= snapshot.entries[w[1]].modified));
}

#[test]
fn search_ignores_case_and_surrounding_blanks() {
    let entries = vec![
        Entry::new("/x/Budget.xlsx".into(), "Budget.xlsx".into(), false, 1),
        Entry::new("/x/budget notes.txt".into(), "budget notes.txt".into(), false, 2),
        Entry::new("/y/plan.md".into(), "plan.md".into(), false, 3),
    ];
    let snapshot = snapshot_of(entries);
    let plain = snapshot.search_indices("budget", 10);
    assert_eq!(plain, vec![1, 0]);
    assert_eq!(snapshot.search_indices("  BUDGET \t", 10), plain);
    assert_eq!(snapshot.search_indices("\u{3000}BuDgEt\n", 10), plain);
    // An all-blank query lists everything, newest first.
    assert_eq!(snapshot.search_indices(" \t ", 10), vec![2, 1, 0]);
}

#[test]
fn raising_the_limit_only_appends() {
    let entries: Vec<Entry> = (0..30u64)
        .map(|i| Entry::new(format!("/w/note-{}.txt", i % 4), format!("note-{}.txt", i % 4), false, i % 6))
        .collect();
    let snapshot = snapshot_of(entries);
    let all = snapshot.search_indices("note", 30);
    for k in 0..=30 {
        assert_eq!(snapshot.search_indices("note", k), all[..k.min(all.len())].to_vec());
    }
}
