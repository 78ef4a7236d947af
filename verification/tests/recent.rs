use muharrir::recent::RecentFiles;

#[test]
fn new_is_empty() {
    let recent = RecentFiles::new();
    assert!(recent.is_empty());
    assert_eq!(recent.max_entries(), 10);
    assert!(recent.most_recent().is_none());
}

#[test]
fn add_and_query() {
    let mut recent = RecentFiles::new();
    recent.add("/projects/a.proj");
    recent.add("/projects/b.proj");

    assert_eq!(recent.len(), 2);
    assert_eq!(recent.most_recent(), Some("/projects/b.proj"));
    assert_eq!(recent.entries()[1], "/projects/a.proj");
}

#[test]
fn add_deduplicates_and_moves_to_front() {
    let mut recent = RecentFiles::new();
    recent.add("/a");
    recent.add("/b");
    recent.add("/c");
    recent.add("/a");

    assert_eq!(recent.len(), 3);
    assert_eq!(recent.entries()[0], "/a");
    assert_eq!(recent.entries()[1], "/c");
    assert_eq!(recent.entries()[2], "/b");
}

#[test]
fn max_entries_cap() {
    let mut recent = RecentFiles::with_max(3);
    recent.add("/a");
    recent.add("/b");
    recent.add("/c");
    recent.add("/d");

    assert_eq!(recent.len(), 3);
    assert_eq!(recent.entries()[0], "/d");
    assert_eq!(recent.entries()[2], "/b");
}

#[test]
fn remove() {
    let mut recent = RecentFiles::new();
    recent.add("/a");
    recent.add("/b");
    recent.add("/c");
    recent.remove("/b");

    assert_eq!(recent.len(), 2);
    assert_eq!(recent.entries(), &["/c".to_string(), "/a".to_string()]);
}

#[test]
fn clear() {
    let mut recent = RecentFiles::new();
    recent.add("/a");
    recent.add("/b");
    recent.clear();
    assert!(recent.is_empty());
}

#[test]
fn default_is_empty() {
    let recent = RecentFiles::default();
    assert!(recent.is_empty());
}

#[test]
fn with_max_zero() {
    let mut recent = RecentFiles::with_max(0);
    recent.add("/a");
    assert!(recent.is_empty());
}

#[test]
fn with_max_large() {
    let recent = RecentFiles::with_max(10_000);
    assert_eq!(recent.max_entries(), 10_000);
    assert!(recent.is_empty());
}

#[test]
fn add_same_path_spelled_differently() {
    // "/a/b/" and "/a//b" name the same path as "/a/b".
    let mut recent = RecentFiles::new();
    recent.add("/a/b");
    recent.add("/x");
    recent.add("/a//b/");
    assert_eq!(recent.len(), 2);
    assert_eq!(recent.most_recent(), Some("/a//b/"));
    assert_eq!(recent.entries()[1], "/x");
}

#[test]
fn remove_same_path_spelled_differently() {
    let mut recent = RecentFiles::new();
    recent.add("/a/b");
    recent.add("/c");
    recent.remove("/a/b/");
    assert_eq!(recent.entries(), &["/c".to_string()]);
}

#[test]
fn readd_existing_does_not_grow() {
    let mut recent = RecentFiles::with_max(2);
    recent.add("/a");
    recent.add("/b");
    recent.add("/a");
    assert_eq!(recent.entries(), &["/a".to_string(), "/b".to_string()]);
}

#[test]
fn prune_missing_keeps_existing_entries() {
    let mut recent = RecentFiles::new();
    recent.add("/a");
    recent.add("/b");
    recent.add("/c");
    recent.prune_missing(&[true, false, true]);
    assert_eq!(recent.entries(), &["/c".to_string(), "/a".to_string()]);
}
