use std::io::Write;

use file_explorer::ops::{calculate_folder_size, list_directory_contents, search_files};

fn make_file(dir: &std::path::Path, prefix: &str, bytes: usize) -> tempfile::NamedTempFile {
    let mut f = tempfile::Builder::new()
        .prefix(prefix)
        .suffix(".txt")
        .tempfile_in(dir)
        .expect("create file");
    f.write_all(&vec![7u8; bytes]).expect("write");
    f.flush().expect("flush");
    f
}

#[test]
fn search_finds_matching_files_on_disk() {
    let dir = tempfile::tempdir().expect("tempdir");
    let _a = make_file(dir.path(), "zqmatch_a", 3);
    let _b = make_file(dir.path(), "zqmatch_b", 4);
    let _c = make_file(dir.path(), "unrelated", 5);
    let r = search_files(dir.path().to_str().unwrap(), "zqmatch").expect("search");
    assert_eq!(r.results.len(), 2);
    assert_eq!(r.stats.matches_found, 2);
    assert!(r.stats.files_indexed >= 2);
    for fi in &r.results {
        assert!(fi.name.to_lowercase().contains("zqmatch"));
        assert!(!fi.is_dir);
    }
}

#[test]
fn search_matches_case_insensitively_on_disk() {
    let dir = tempfile::tempdir().expect("tempdir");
    let _a = make_file(dir.path(), "MixedCaseProbe", 1);
    let r = search_files(dir.path().to_str().unwrap(), "mixedcaseprobe").expect("search");
    assert_eq!(r.results.len(), 1);
}

#[test]
fn search_finds_directories_too() {
    let dir = tempfile::tempdir().expect("tempdir");
    let sub = tempfile::Builder::new().prefix("zqdirmatch").tempdir_in(dir.path()).expect("subdir");
    let _f = make_file(sub.path(), "zqdirmatch_inner", 2);
    let r = search_files(dir.path().to_str().unwrap(), "zqdirmatch").expect("search");
    assert_eq!(r.results.len(), 2);
    // Directories come first in the sorted results.
    assert!(r.results[0].is_dir);
    assert!(!r.results[1].is_dir);
    assert_eq!(r.results[0].size, 0);
}

#[test]
fn search_on_invalid_root_returns_empty_with_zero_stats() {
    let r = search_files("/nonexistent_path_zq_12345", "x").expect("search");
    assert_eq!(r.results.len(), 0);
    assert_eq!(r.stats.matches_found, 0);
    assert_eq!(r.stats.files_indexed, 0);
}

#[test]
fn search_twice_gives_same_results() {
    let dir = tempfile::tempdir().expect("tempdir");
    let _a = make_file(dir.path(), "zqtwice_a", 1);
    let _b = make_file(dir.path(), "zqtwice_b", 1);
    let r1 = search_files(dir.path().to_str().unwrap(), "zqtwice").expect("search");
    let r2 = search_files(dir.path().to_str().unwrap(), "zqtwice").expect("search");
    assert_eq!(r1.results.len(), r2.results.len());
    for (a, b) in r1.results.iter().zip(r2.results.iter()) {
        assert_eq!(a.name, b.name);
        assert_eq!(a.path, b.path);
        assert_eq!(a.is_dir, b.is_dir);
        assert_eq!(a.size, b.size);
    }
}

#[test]
fn folder_size_sums_file_bytes() {
    let dir = tempfile::tempdir().expect("tempdir");
    let _a = make_file(dir.path(), "size_a", 100);
    let _b = make_file(dir.path(), "size_b", 250);
    let _c = make_file(dir.path(), "size_c", 0);
    assert_eq!(calculate_folder_size(dir.path().to_str().unwrap()), Ok(350));
}

#[test]
fn folder_size_includes_nested_and_hidden_files() {
    let dir = tempfile::tempdir().expect("tempdir");
    let sub = tempfile::Builder::new().prefix(".hiddensub").tempdir_in(dir.path()).expect("subdir");
    let _a = make_file(dir.path(), "top", 10);
    let _b = make_file(sub.path(), ".inner", 32);
    assert_eq!(calculate_folder_size(dir.path().to_str().unwrap()), Ok(42));
}

#[test]
fn folder_size_rejects_missing_or_file_paths() {
    assert_eq!(
        calculate_folder_size("/nonexistent_path_zq_12345"),
        Err("Invalid directory path".to_string())
    );
    let dir = tempfile::tempdir().expect("tempdir");
    let f = make_file(dir.path(), "plainfile", 1);
    assert_eq!(
        calculate_folder_size(f.path().to_str().unwrap()),
        Err("Invalid directory path".to_string())
    );
}

#[test]
fn listing_is_sorted_dirs_first() {
    let dir = tempfile::tempdir().expect("tempdir");
    let _sub = tempfile::Builder::new().prefix("zsubdir").tempdir_in(dir.path()).expect("subdir");
    let _a = make_file(dir.path(), "afile", 1);
    let _b = make_file(dir.path(), "bfile", 1);
    let listed = list_directory_contents(dir.path().to_str().unwrap(), None).expect("list");
    assert_eq!(listed.len(), 3);
    assert!(listed[0].is_dir);
    assert!(listed[0].name.starts_with("zsubdir"));
    assert!(!listed[1].is_dir);
    assert!(listed[1].name.to_lowercase() <= listed[2].name.to_lowercase());
}

#[test]
fn listing_hides_dot_entries_unless_asked() {
    let dir = tempfile::tempdir().expect("tempdir");
    let _h = make_file(dir.path(), ".dotfile", 1);
    let _v = make_file(dir.path(), "visible", 1);
    let shown = list_directory_contents(dir.path().to_str().unwrap(), Some(false)).expect("list");
    assert_eq!(shown.len(), 1);
    assert!(shown[0].name.starts_with("visible"));
    let all = list_directory_contents(dir.path().to_str().unwrap(), Some(true)).expect("list");
    assert_eq!(all.len(), 2);
}

#[test]
fn listing_reports_file_sizes() {
    let dir = tempfile::tempdir().expect("tempdir");
    let _a = make_file(dir.path(), "sized", 17);
    let listed = list_directory_contents(dir.path().to_str().unwrap(), None).expect("list");
    assert_eq!(listed.len(), 1);
    assert_eq!(listed[0].size, 17);
}

#[test]
fn listing_fails_on_missing_directory() {
    assert!(list_directory_contents("/nonexistent_path_zq_12345", None).is_err());
}
