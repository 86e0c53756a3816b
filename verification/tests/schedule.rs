use opencast::icon::{IconCache, IconLookup, IconState, ICON_CACHE_LIMIT};
use opencast::schedule::{newest, same_folders, scanner_step, ScanAction, ScanEvent};

/// Components of an absolute path, tagged as the walk reports them: the root,
/// then each name (empty pieces from doubled or trailing separators vanish).
fn folder(path: &str) -> Vec<Vec<char>> {
    let mut parts = vec![vec!['\u{1}']];
    for name in path.split('/').filter(|p| !p.is_empty()) {
        parts.push(std::iter::once('\u{4}').chain(name.chars()).collect());
    }
    parts
}

fn roots(names: &[&str]) -> Vec<Vec<Vec<char>>> {
    names.iter().map(|n| folder(n)).collect()
}

fn scanned(action: ScanAction) -> Option<Vec<Vec<Vec<char>>>> {
    match action {
        ScanAction::Scan { roots } => Some(roots),
        _ => None,
    }
}

#[test]
fn cache_is_shown_only_for_the_same_folders() {
    let current = roots(&["/a", "/b"]);
    let (kept, action) = scanner_step(current.clone(), ScanEvent::Start { cached: Some(roots(&["/a", "/b"])) });
    assert_eq!(kept, current);
    assert!(matches!(action, ScanAction::ShowCache));
    // Another spelling of the same folders still matches.
    let (_, action) = scanner_step(current.clone(), ScanEvent::Start { cached: Some(roots(&["/a/", "//b"])) });
    assert!(matches!(action, ScanAction::ShowCache));
    let (_, action) = scanner_step(current.clone(), ScanEvent::Start { cached: Some(roots(&["/b", "/a"])) });
    assert_eq!(scanned(action), Some(current.clone()));
    let (_, action) = scanner_step(current.clone(), ScanEvent::Start { cached: None });
    assert_eq!(scanned(action), Some(current.clone()));
    let (_, action) = scanner_step(current.clone(), ScanEvent::CacheShown);
    assert_eq!(scanned(action), Some(current));
}

#[test]
fn rescans_follow_the_newest_request() {
    let current = roots(&["/a"]);
    let (next, action) = scanner_step(
        current.clone(),
        ScanEvent::Rebuild { requests: vec![roots(&["/x"]), roots(&["/y", "/z"])] },
    );
    assert_eq!(next, roots(&["/y", "/z"]));
    assert_eq!(scanned(action), Some(roots(&["/y", "/z"])));
    let (next, action) = scanner_step(next, ScanEvent::Timeout);
    assert_eq!(next, roots(&["/y", "/z"]));
    assert_eq!(scanned(action), Some(roots(&["/y", "/z"])));
    let (next, action) = scanner_step(next, ScanEvent::Closed);
    assert_eq!(next, roots(&["/y", "/z"]));
    assert!(matches!(action, ScanAction::Stop));
}

#[test]
fn newest_request_wins() {
    assert_eq!(newest("a".to_string(), vec![]), "a");
    assert_eq!(newest("a".to_string(), vec!["b".to_string(), "c".to_string()]), "c");
    assert!(same_folders(&roots(&["/a"]), &roots(&["/a"])));
    assert!(same_folders(&roots(&["/a/b/"]), &roots(&["/a//b"])));
    assert!(!same_folders(&roots(&["/a"]), &roots(&["/a", "/b"])));
}

#[test]
fn icon_cache_decisions() {
    let mut cache = IconCache::new();
    let a = folder("/a.exe");
    assert_eq!(cache.lookup(&a), IconLookup::Request { cleared: false });
    cache.queued(a.clone());
    assert_eq!(cache.state(&a), Some(IconState::Pending));
    // Another spelling of the same path shares the entry.
    assert_eq!(cache.lookup(&folder("//a.exe/")), IconLookup::Known(IconState::Pending));
    // An answer for a path that was never requested is dropped.
    assert!(!cache.receive(&folder("/other"), true));
    assert_eq!(cache.state(&folder("/other")), None);
    assert!(cache.receive(&a, true));
    assert_eq!(cache.state(&a), Some(IconState::Loaded));
    assert!(cache.receive(&a, false));
    assert_eq!(cache.state(&a), Some(IconState::Missing));
    for i in 1..ICON_CACHE_LIMIT {
        let key = folder(&format!("/f{i}"));
        assert_eq!(cache.lookup(&key), IconLookup::Request { cleared: false });
        cache.queued(key);
    }
    // Full: the next new path empties the cache first.
    assert_eq!(cache.lookup(&folder("/new")), IconLookup::Request { cleared: true });
    assert_eq!(cache.state(&a), None);
    assert!(!cache.receive(&folder("/f3"), true));
}
