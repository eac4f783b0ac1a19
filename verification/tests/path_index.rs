use codeswarm::path_index::{
    completion_values, glob_match, insertion_text, is_ignored, parse_ignore_rules, rank_matches,
    IndexRequest, IndexWorker, PathCandidate, PathIndex, PathIndexUpdate, WorkspaceScan,
    MAX_INDEX_ENTRIES, MAX_PATH_RESULTS, MIN_PATH_QUERY_CHARS,
};

fn candidate(path: &str, directory: bool) -> PathCandidate {
    PathCandidate { path: path.to_string(), directory }
}

#[test]
fn fuzzy_matches_rank_filename_and_cap_results() {
    let candidates = vec![candidate("src/main.rs", false), candidate("docs/readme.md", false)];
    let matches = rank_matches("@main", &candidates);
    assert_eq!(matches[0].path, "src/main.rs");
    assert!(!matches[0].offsets.is_empty());
    assert!(rank_matches("@ma", &candidates).is_empty());
    let many = (0..(MAX_PATH_RESULTS + 5))
        .map(|index| candidate(&format!("src/main{index}.rs"), false))
        .collect::<Vec<_>>();
    assert_eq!(rank_matches("main", &many).len(), MAX_PATH_RESULTS);
    assert_eq!(MIN_PATH_QUERY_CHARS, 3);
}

#[test]
fn insertion_quotes_spaces_and_keeps_directories_open() {
    assert_eq!(insertion_text("src/main.rs", false), "@src/main.rs ");
    assert_eq!(insertion_text("notes/project plan.md", false), "@\"notes/project plan.md\" ");
    assert_eq!(insertion_text("src", true), "@src/");
}

#[test]
fn completion_values_are_prefixed_and_deduplicated() {
    let values =
        completion_values(&vec![candidate("README.md", false), candidate("README.md", false)]);
    assert_eq!(values, ["@README.md"]);
}

/// A workspace of directories, each with the names and kinds in it.
fn scanned(ignore_file: &str, tree: &[(&str, &[(&str, bool)])]) -> Vec<PathCandidate> {
    let mut scan = WorkspaceScan::new(ignore_file);
    while let Some((directory, depth)) = scan.next_directory() {
        for (path, entries) in tree {
            if *path == directory {
                for (name, is_directory) in *entries {
                    scan.entry(&directory, depth, name, false, *is_directory);
                }
            }
        }
    }
    scan.finish()
}

#[test]
fn scan_keeps_directories_and_skips_generated_trees() {
    let paths = scanned(
        "*.log\nignored-dir/\n",
        &[
            (
                "",
                &[
                    ("src", true),
                    ("target", true),
                    ("ignored-dir", true),
                    ("trace.log", false),
                    (".gitignore", false),
                ],
            ),
            ("src", &[("nested", true), ("main.rs", false)]),
            ("target", &[("ignored.rs", false)]),
        ],
    );
    assert!(paths.iter().any(|path| path.path == "src" && path.directory));
    assert!(paths.iter().any(|path| path.path == "src/main.rs"));
    assert!(!paths.iter().any(|path| path.path.starts_with("target")));
    assert!(!paths.iter().any(|path| path.path.starts_with("ignored-dir")));
    assert!(!paths.iter().any(|path| path.path == "trace.log"));
    let order = paths.iter().map(|path| path.path.as_str()).collect::<Vec<_>>();
    assert_eq!(order, [".gitignore", "src", "src/main.rs", "src/nested"]);
}

#[test]
fn scan_does_not_follow_links_and_stops_at_the_limit() {
    let mut scan = WorkspaceScan::new("");
    let (directory, depth) = scan.next_directory().expect("root");
    scan.entry(&directory, depth, "link", true, true);
    for index in 0..MAX_INDEX_ENTRIES + 3 {
        scan.entry(&directory, depth, &format!("file{index}"), false, false);
    }
    assert!(scan.next_directory().is_none());
    let candidates = scan.finish();
    assert_eq!(candidates.len(), MAX_INDEX_ENTRIES);
    assert!(candidates.iter().all(|found| found.path != "link"));
}

#[test]
fn ignore_rules_follow_the_common_forms() {
    let rules = parse_ignore_rules("# comment\n*.log\n!keep.log\n/build\ndocs/*.md\ncache/\n");
    assert_eq!(rules.len(), 5);
    assert!(is_ignored("deep/trace.log", false, &rules));
    assert!(!is_ignored("keep.log", false, &rules));
    assert!(is_ignored("build", true, &rules));
    assert!(is_ignored("docs/a.md", false, &rules));
    assert!(is_ignored("cache", true, &rules));
    assert!(!is_ignored("cache", false, &rules));
    assert!(glob_match("a?c", "abc"));
    assert!(!glob_match("a?c", "ac"));
    assert!(glob_match("*", ""));
}

#[test]
fn worker_answers_only_the_current_generation() {
    let mut index = PathIndex::new();
    assert_eq!(
        index.query("main"),
        Some(IndexRequest::Query { generation: 0, query: "main".to_string() })
    );
    assert_eq!(index.query("main"), None);
    let requests = index.rescan();
    assert_eq!(index.generation(), 1);
    assert_eq!(index.current_query(), "main");
    assert_eq!(
        requests,
        [
            IndexRequest::Rescan { generation: 1 },
            IndexRequest::Query { generation: 1, query: "main".to_string() }
        ]
    );
    let mut worker = IndexWorker::new(vec![candidate("main.rs", false)]);
    assert_eq!(worker.ready(), PathIndexUpdate::Ready { generation: 0, total: 1 });
    assert_eq!(worker.query(1, "main".to_string()), None);
    let updates = worker.rescanned(1, vec![candidate("lib.rs", false), candidate("main.rs", false)]);
    assert_eq!(updates.len(), 2);
    assert_eq!(updates[0], PathIndexUpdate::Ready { generation: 1, total: 2 });
    assert!(matches!(
        &updates[1],
        PathIndexUpdate::Matches { generation: 1, query, matches }
            if query == "main" && matches[0].path == "main.rs"
    ));
}
