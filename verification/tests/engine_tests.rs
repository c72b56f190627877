use file_explorer::engine::run_search;
use file_explorer::ops::{build_listing, drive_entry, folder_size_from_events, greet, sum_file_sizes};
use file_explorer::sort::sort_entries;
use file_explorer::types::{FileInfo, Meta, WalkEvent};

fn found(name: &str, path: &str, is_dir: bool, len: u64) -> WalkEvent {
    WalkEvent::Found {
        name: name.to_string(),
        path: path.to_string(),
        depth: 1,
        meta: Some(Meta { is_dir, is_file: !is_dir, len }),
    }
}

fn unreadable(name: &str, path: &str) -> WalkEvent {
    WalkEvent::Found { name: name.to_string(), path: path.to_string(), depth: 1, meta: None }
}

fn names(results: &[FileInfo]) -> Vec<String> {
    results.iter().map(|fi| fi.name.clone()).collect()
}

#[test]
fn sort_order_dirs_first_then_case_insensitive() {
    let entries = vec![
        FileInfo { name: "b.txt".to_string(), path: "/b.txt".to_string(), is_dir: false, size: 1 },
        FileInfo { name: "A".to_string(), path: "/A".to_string(), is_dir: true, size: 0 },
        FileInfo { name: "a.txt".to_string(), path: "/a.txt".to_string(), is_dir: false, size: 2 },
    ];
    let sorted = sort_entries(entries);
    assert_eq!(names(&sorted), vec!["A", "a.txt", "b.txt"]);
    assert!(sorted[0].is_dir);
}

#[test]
fn search_sorts_results_the_same_way() {
    let events = vec![
        found("b.txt", "/r/b.txt", false, 1),
        found("A", "/r/A", true, 0),
        found("a.txt", "/r/a.txt", false, 2),
    ];
    let r = run_search(events, "", 7);
    assert_eq!(names(&r.results), vec!["A", "a.txt", "b.txt"]);
    assert_eq!(r.stats.elapsed_ms, 7);
    assert_eq!(r.stats.matches_found, 3);
    assert_eq!(r.stats.files_indexed, 3);
}

#[test]
fn match_is_case_insensitive_substring() {
    let events = vec![
        found("FooBar.TXT", "/r/FooBar.TXT", false, 10),
        found("other.rs", "/r/other.rs", false, 20),
    ];
    let r = run_search(events, "foobar", 0);
    assert_eq!(names(&r.results), vec!["FooBar.TXT"]);
    for fi in &r.results {
        assert!(fi.name.to_lowercase().contains("foobar"));
    }
    assert_eq!(r.stats.matches_found, 1);
    assert_eq!(r.stats.files_indexed, 2);
}

#[test]
fn uppercase_query_is_lowered_once() {
    let events = vec![found("readme.md", "/r/readme.md", false, 5)];
    let r = run_search(events, "README", 0);
    assert_eq!(r.results.len(), 1);
}

#[test]
fn empty_query_returns_every_entry() {
    let events = vec![
        found("x", "/r/x", false, 1),
        found("y", "/r/y", true, 0),
        found("z", "/r/z", false, 3),
    ];
    let r = run_search(events, "", 0);
    assert_eq!(r.results.len(), 3);
    assert_eq!(r.stats.matches_found, 3);
}

#[test]
fn cap_boundary_exactly_1000_all_returned() {
    let mut events = Vec::new();
    for i in 0..1000 {
        let name = format!("m{:04}.txt", i);
        let path = format!("/r/{}", name);
        events.push(found(&name, &path, false, 1));
    }
    let r = run_search(events, "m", 0);
    assert_eq!(r.results.len(), 1000);
    assert_eq!(r.stats.matches_found, 1000);
    assert_eq!(r.stats.files_indexed, 1000);
}

#[test]
fn cap_1001_matches_truncated_to_1000() {
    let mut events = Vec::new();
    for i in 0..1001 {
        let name = format!("m{:04}.txt", i);
        let path = format!("/r/{}", name);
        events.push(found(&name, &path, false, 1));
    }
    let r = run_search(events, "m", 0);
    assert_eq!(r.results.len(), 1000);
    assert_eq!(r.stats.matches_found, 1000);
    // The halting visit is still counted.
    assert_eq!(r.stats.files_indexed, 1001);
    // The first 1000 discovered entries are the ones kept.
    assert_eq!(r.results[999].name, "m0999.txt");
}

#[test]
fn unreadable_metadata_is_counted_but_not_returned() {
    let events = vec![unreadable("match.txt", "/r/match.txt"), found("match2.txt", "/r/match2.txt", false, 1)];
    let r = run_search(events, "match", 0);
    assert_eq!(names(&r.results), vec!["match2.txt"]);
    assert_eq!(r.stats.files_indexed, 2);
    assert_eq!(r.stats.matches_found, 1);
}

#[test]
fn failed_subtree_does_not_abort_search() {
    let with_failure = vec![
        found("hit_a.txt", "/r/hit_a.txt", false, 1),
        WalkEvent::Failed { msg: "permission denied".to_string() },
        found("hit_b.txt", "/r/hit_b.txt", false, 1),
    ];
    let without_failure = vec![
        found("hit_a.txt", "/r/hit_a.txt", false, 1),
        found("hit_b.txt", "/r/hit_b.txt", false, 1),
    ];
    let r1 = run_search(with_failure, "hit", 0);
    let r2 = run_search(without_failure, "hit", 0);
    assert_eq!(names(&r1.results), vec!["hit_a.txt", "hit_b.txt"]);
    assert_eq!(names(&r1.results), names(&r2.results));
    assert_eq!(r1.stats.matches_found, r2.stats.matches_found);
}

#[test]
fn same_events_same_results() {
    let make = || {
        vec![
            found("Beta.txt", "/r/Beta.txt", false, 2),
            found("alpha.txt", "/r/alpha.txt", false, 1),
            found("Sub", "/r/Sub", true, 0),
        ]
    };
    let r1 = run_search(make(), "a", 10);
    let r2 = run_search(make(), "a", 99);
    assert_eq!(names(&r1.results), names(&r2.results));
    assert_eq!(r1.results.len(), r2.results.len());
    for (a, b) in r1.results.iter().zip(r2.results.iter()) {
        assert_eq!(a.path, b.path);
        assert_eq!(a.is_dir, b.is_dir);
        assert_eq!(a.size, b.size);
    }
    assert_eq!(r1.stats.matches_found, r2.stats.matches_found);
}

#[test]
fn stats_are_coherent() {
    let events = vec![
        found("one.log", "/r/one.log", false, 1),
        found("two.log", "/r/two.log", false, 1),
        found("other.md", "/r/other.md", false, 1),
    ];
    let r = run_search(events, "log", 0);
    assert_eq!(r.stats.matches_found, r.results.len());
    assert!(r.stats.files_indexed >= r.stats.matches_found);
}

#[test]
fn directory_entries_are_first_class_results() {
    let events = vec![found("match_dir", "/r/match_dir", true, 0)];
    let r = run_search(events, "match", 0);
    assert_eq!(r.results.len(), 1);
    assert!(r.results[0].is_dir);
    assert_eq!(r.results[0].size, 0);
}

#[test]
fn directory_size_recorded_as_zero() {
    // A directory's reported length is ignored: size comes from is_file.
    let ev = WalkEvent::Found {
        name: "d".to_string(),
        path: "/r/d".to_string(),
        depth: 1,
        meta: Some(Meta { is_dir: true, is_file: false, len: 4096 }),
    };
    let r = run_search(vec![ev], "", 0);
    assert_eq!(r.results[0].size, 0);
}

#[test]
fn sum_file_sizes_exact() {
    assert_eq!(sum_file_sizes(&vec![100, 250, 0]), 350);
    assert_eq!(sum_file_sizes(&vec![]), 0);
}

#[test]
fn sum_file_sizes_saturates() {
    assert_eq!(sum_file_sizes(&vec![u64::MAX, 5]), u64::MAX);
}

#[test]
fn folder_size_skips_unreadable_and_dirs() {
    let events = vec![
        found("a", "/r/a", false, 100),
        found("b", "/r/b", false, 250),
        found("c", "/r/c", false, 0),
        unreadable("locked", "/r/locked"),
        found("sub", "/r/sub", true, 4096),
        WalkEvent::Failed { msg: "denied".to_string() },
    ];
    assert_eq!(folder_size_from_events(&events), 350);
}

fn listing_events() -> Vec<WalkEvent> {
    // The walk's root arrives at depth 0 and is not part of the listing.
    let root = WalkEvent::Found {
        name: "r".to_string(),
        path: "/r".to_string(),
        depth: 0,
        meta: Some(Meta { is_dir: true, is_file: false, len: 0 }),
    };
    vec![root, found(".hidden", "/r/.hidden", false, 1), found("visible", "/r/visible", false, 1)]
}

#[test]
fn listing_filters_hidden_by_default() {
    let shown = build_listing(listing_events(), false);
    assert_eq!(names(&shown.unwrap()), vec!["visible"]);
}

#[test]
fn listing_shows_hidden_when_asked() {
    let all = build_listing(listing_events(), true);
    assert_eq!(names(&all.unwrap()), vec![".hidden", "visible"]);
}

#[test]
fn listing_fails_on_walk_failure() {
    let events = vec![
        found("x", "/r/x", false, 1),
        WalkEvent::Failed { msg: "cannot open".to_string() },
    ];
    let r = build_listing(events, false);
    assert_eq!(r.unwrap_err(), "cannot open");
}

#[test]
fn greet_formats_the_message() {
    assert_eq!(greet("World"), "Hello, World! You've been greeted from Rust!");
}

#[test]
fn drive_entry_formats_path_and_name() {
    let d = drive_entry('C');
    assert_eq!(d.path, "C:\\");
    assert_eq!(d.name, "Drive (C:)");
}
