use file_search::{
    all_computer_roots, path_matches, root_work_items, search_files_include, FsTree,
};

fn file(path: &str) -> FsTree {
    FsTree::File { path: path.to_string() }
}

fn dir(path: &str, children: Vec<FsTree>) -> FsTree {
    FsTree::Dir { path: path.to_string(), children }
}

fn item_path(t: &FsTree) -> &str {
    match t {
        FsTree::File { path } => path.as_str(),
        FsTree::Dir { path, .. } => path.as_str(),
    }
}

/// A small sample tree: `{a/x.txt, a/y.log, b/query_hit.txt}`.
fn sample_tree() -> FsTree {
    dir(
        "",
        vec![
            dir("a", vec![file("a/x.txt"), file("a/y.log")]),
            dir("b", vec![file("b/query_hit.txt")]),
        ],
    )
}

#[test]
fn single_hit_among_three_files() {
    let roots = vec![Some(sample_tree())];
    let out = search_files_include("query", &roots, 10_000);
    assert_eq!(out.scanned, 3);
    assert_eq!(out.matched, vec!["b/query_hit.txt".to_string()]);
}

#[test]
fn missing_root_scans_nothing() {
    let roots: Vec<Option<FsTree>> = vec![None];
    let out = search_files_include("anything", &roots, 10_000);
    assert_eq!(out.scanned, 0);
    assert!(out.matched.is_empty());
}

#[test]
fn matching_is_case_insensitive() {
    let roots = vec![Some(dir("R", vec![file("R/QUERY_Upper.TXT"), file("R/other.txt")]))];
    let out = search_files_include("qUeRy", &roots, 10_000);
    assert_eq!(out.scanned, 2);
    assert_eq!(out.matched, vec!["R/QUERY_Upper.TXT".to_string()]);
}

#[test]
fn every_match_contains_query() {
    let roots = vec![Some(sample_tree())];
    let out = search_files_include("txt", &roots, 10_000);
    for m in &out.matched {
        assert!(m.to_lowercase().contains("txt"));
    }
    assert_eq!(out.matched.len(), 2);
}

#[test]
fn scanned_counts_every_file_and_bounds_matches() {
    let roots = vec![Some(sample_tree())];
    let out = search_files_include("a", &roots, 10_000);
    assert_eq!(out.scanned, 3);
    assert!(out.matched.len() <= out.scanned);
}

#[test]
fn search_is_deterministic() {
    let roots = vec![Some(sample_tree())];
    let out1 = search_files_include("txt", &roots, 10_000);
    let out2 = search_files_include("txt", &roots, 10_000);
    assert_eq!(out1.scanned, out2.scanned);
    assert_eq!(out1.matched, out2.matched);
}

#[test]
fn cap_limits_matches_but_not_scanned() {
    let roots = vec![Some(dir(
        "r",
        vec![file("r/hit1.txt"), file("r/hit2.txt"), file("r/hit3.txt"), file("r/miss.log")],
    ))];
    let out = search_files_include("hit", &roots, 2);
    assert_eq!(out.matched.len(), 2);
    assert_eq!(out.scanned, 4);
}

#[test]
fn cap_of_zero_keeps_nothing() {
    let roots = vec![Some(dir("r", vec![file("r/hit.txt")]))];
    let out = search_files_include("hit", &roots, 0);
    assert!(out.matched.is_empty());
    assert_eq!(out.scanned, 1);
}

#[test]
fn overlapping_roots_are_deduplicated() {
    let roots = vec![
        Some(dir("r", vec![dir("r/sub", vec![file("r/sub/hit.txt")])])),
        Some(file("r/sub/hit.txt")),
    ];
    let out = search_files_include("hit", &roots, 10_000);
    assert_eq!(out.matched, vec!["r/sub/hit.txt".to_string()]);
    assert_eq!(out.scanned, 2);
}

#[test]
fn results_are_sorted_lexicographically() {
    let roots = vec![Some(dir(
        "r",
        vec![file("r/c.txt"), file("r/a.txt"), file("r/b.txt")],
    ))];
    let out = search_files_include("txt", &roots, 10_000);
    assert_eq!(
        out.matched,
        vec!["r/a.txt".to_string(), "r/b.txt".to_string(), "r/c.txt".to_string()]
    );
}

#[test]
fn empty_directory_root_scans_nothing() {
    let roots = vec![Some(dir("empty", vec![]))];
    let out = search_files_include("x", &roots, 10_000);
    assert_eq!(out.scanned, 0);
    assert!(out.matched.is_empty());
}

#[test]
fn path_matches_folds_case() {
    assert!(path_matches("ABC", "abc"));
    assert!(path_matches("some/Deep/Path.TXT", "deep/path"));
    assert!(!path_matches("some/Deep/Path.TXT", "missing"));
}

#[test]
fn path_matches_empty_needle() {
    assert!(path_matches("anything", ""));
}

#[test]
fn all_computer_roots_is_single_root() {
    let roots = all_computer_roots();
    assert_eq!(roots, vec!["/".to_string()]);
}

#[test]
fn work_items_for_file_root() {
    let root = Some(file("lone.txt"));
    let items = root_work_items(&root);
    assert_eq!(items.len(), 1);
    assert_eq!(item_path(items[0]), "lone.txt");
}

#[test]
fn work_items_for_directory_root_are_its_children() {
    let root = Some(sample_tree());
    let items = root_work_items(&root);
    let paths: Vec<&str> = items.iter().map(|t| item_path(t)).collect();
    assert_eq!(paths, vec!["a", "b"]);
}

#[test]
fn work_items_for_empty_directory_fall_back_to_root() {
    let root = Some(dir("hollow", vec![]));
    let items = root_work_items(&root);
    assert_eq!(items.len(), 1);
    assert_eq!(item_path(items[0]), "hollow");
}

#[test]
fn work_items_for_missing_root_are_none() {
    let root: Option<FsTree> = None;
    let items = root_work_items(&root);
    assert!(items.is_empty());
}
