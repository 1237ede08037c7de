use struct_tree::pattern::Pattern;
use struct_tree::display::{Line, Style};
use struct_tree::paths::FsPath;
use struct_tree::search::{
    collect, display_search_tree, finds_any, flat_results, search_compiled, search_files, search_with, SearchError,
    SearchOutput,
};
use struct_tree::tree::Entry;

fn path(parts: &[&str]) -> FsPath {
    FsPath::new(parts.iter().map(|p| p.to_string()).collect())
}

fn join(base: &[&str], name: &str) -> Vec<String> {
    let mut parts: Vec<String> = base.iter().map(|p| p.to_string()).collect();
    parts.push(name.to_string());
    parts
}

fn file(base: &[&str], name: &str, size: u64) -> Entry {
    Entry::file(name.to_string(), FsPath::new(join(base, name)), size, false)
}

fn dir(base: &[&str], name: &str, children: Vec<Entry>) -> Entry {
    Entry::directory(name.to_string(), FsPath::new(join(base, name)), children)
}

fn texts(lines: &[Line]) -> Vec<String> {
    lines.iter().map(|line| line.text()).collect()
}

fn shown(parts: &FsPath) -> String {
    parts.components.join("/")
}

fn env_tree() -> Entry {
    Entry::directory(
        "w".to_string(),
        path(&["", "w"]),
        vec![
            dir(
                &["", "w"],
                "b",
                vec![dir(&["", "w", "b"], "c", vec![file(&["", "w", "b", "c"], ".env", 20)])],
            ),
            dir(&["", "w"], "a", vec![file(&["", "w", "a"], ".env", 10), file(&["", "w", "a"], "x.rs", 1)]),
            file(&["", "w"], "readme.md", 5),
        ],
    )
}

#[test]
fn flat_search_for_env_files_returns_both_paths_sorted_with_sizes() {
    let root = env_tree();
    match search_files("*.env", &root, usize::MAX, true, &[]) {
        Ok(SearchOutput::Flat { count, hits }) => {
            assert_eq!(count, 2);
            let listed: Vec<(String, u64)> = hits.iter().map(|h| (shown(&h.path), h.size)).collect();
            assert_eq!(listed, vec![("/w/a/.env".to_string(), 10), ("/w/b/c/.env".to_string(), 20)]);
        },
        other => panic!("unexpected {:?}", other),
    }
}

#[test]
fn tree_search_shows_the_matches_and_the_directories_that_lead_to_them() {
    let root = env_tree();
    match search_files("*.env", &root, usize::MAX, false, &[]) {
        Ok(SearchOutput::Tree { count, lines }) => {
            assert_eq!(count, 2);
            assert_eq!(
                texts(&lines),
                vec!["├── a/", "│   └── .env (10B)", "└── b/", "    └── c/", "        └── .env (20B)"]
            );
            assert_eq!(lines[0].style, Style::Directory);
            assert_eq!(lines[1].style, Style::Match);
        },
        other => panic!("unexpected {:?}", other),
    }
}

#[test]
fn search_without_matches_is_no_error() {
    let root = env_tree();
    assert!(matches!(search_files("*.toml", &root, usize::MAX, true, &[]), Ok(SearchOutput::NoMatches)));
    assert!(matches!(search_files("*.toml", &root, usize::MAX, false, &[]), Ok(SearchOutput::NoMatches)));
}

#[test]
fn search_with_a_pattern_that_is_no_regex_is_refused() {
    let root = env_tree();
    match search_files("(", &root, usize::MAX, true, &[]) {
        Err(SearchError::InvalidPattern { message }) => assert!(!message.is_empty()),
        other => panic!("unexpected {:?}", other),
    }
}

#[test]
fn question_mark_stands_for_one_character() {
    let root = Entry::directory(
        "w".to_string(),
        path(&["w"]),
        vec![file(&["w"], "a1.txt", 1), file(&["w"], "a22.txt", 1), file(&["w"], "a.txt", 1)],
    );
    match search_files("a?.txt", &root, usize::MAX, true, &[]) {
        Ok(SearchOutput::Flat { count, hits }) => {
            assert_eq!(count, 1);
            assert_eq!(shown(&hits[0].path), "w/a1.txt");
        },
        other => panic!("unexpected {:?}", other),
    }
}

#[test]
fn search_tests_an_ignored_directory_but_does_not_go_below_it() {
    let root = Entry::directory(
        "w".to_string(),
        path(&["w"]),
        vec![
            dir(&["w"], "build", vec![file(&["w", "build"], "build.log", 3)]),
            dir(&["w"], "src", vec![file(&["w", "src"], "build.rs", 4)]),
        ],
    );
    match search_files("build*", &root, usize::MAX, true, &[]) {
        Ok(SearchOutput::Flat { count, hits }) => {
            assert_eq!(count, 2);
            let listed: Vec<(String, u64)> = hits.iter().map(|h| (shown(&h.path), h.size)).collect();
            assert_eq!(listed, vec![("w/build".to_string(), 0), ("w/src/build.rs".to_string(), 4)]);
        },
        other => panic!("unexpected {:?}", other),
    }
    match search_files("build*", &root, usize::MAX, false, &[]) {
        Ok(SearchOutput::Tree { count, lines }) => {
            assert_eq!(count, 2);
            assert_eq!(texts(&lines), vec!["├── build/", "└── src/", "    └── build.rs (4B)"]);
        },
        other => panic!("unexpected {:?}", other),
    }
}

#[test]
fn search_does_not_go_below_a_directory_that_a_custom_pattern_ignores() {
    let root = Entry::directory(
        "w".to_string(),
        path(&["w"]),
        vec![
            dir(&["w"], "gen", vec![file(&["w", "gen"], "x.rs", 3)]),
            dir(&["w"], "src", vec![file(&["w", "src"], "y.rs", 4)]),
        ],
    );
    let ignores = vec![Pattern::new("^gen$").unwrap()];
    match search_files("*.rs", &root, usize::MAX, true, &ignores) {
        Ok(SearchOutput::Flat { count, hits }) => {
            assert_eq!(count, 1);
            assert_eq!(shown(&hits[0].path), "w/src/y.rs");
        },
        other => panic!("unexpected {:?}", other),
    }
}

#[test]
fn search_depth_bounds_how_far_the_walk_goes() {
    let root = env_tree();
    assert!(matches!(search_files("*.env", &root, 1, true, &[]), Ok(SearchOutput::NoMatches)));
    match search_files("*.env", &root, 2, true, &[]) {
        Ok(SearchOutput::Flat { count, hits }) => {
            assert_eq!(count, 1);
            assert_eq!(shown(&hits[0].path), "/w/a/.env");
        },
        other => panic!("unexpected {:?}", other),
    }
    match search_files("*.env", &root, 2, false, &[]) {
        Ok(SearchOutput::Tree { lines, .. }) => {
            assert_eq!(texts(&lines), vec!["└── a/", "    └── .env (10B)"]);
        },
        other => panic!("unexpected {:?}", other),
    }
}

#[test]
fn search_tests_the_start_itself() {
    let root = env_tree();
    match search_files("w", &root, 0, true, &[]) {
        Ok(SearchOutput::Flat { count, hits }) => {
            assert_eq!(count, 1);
            assert_eq!(shown(&hits[0].path), "/w");
            assert_eq!(hits[0].size, 0);
        },
        other => panic!("unexpected {:?}", other),
    }
    match search_files("w", &root, usize::MAX, false, &[]) {
        Ok(SearchOutput::Tree { count, lines }) => {
            assert_eq!(count, 1);
            assert_eq!(lines.len(), 0);
        },
        other => panic!("unexpected {:?}", other),
    }
}

#[test]
fn flat_results_sort_component_by_component() {
    let root = Entry::directory(
        "w".to_string(),
        path(&["w"]),
        vec![
            dir(&["w"], "a.b", vec![file(&["w", "a.b"], "hit", 1)]),
            dir(&["w"], "a", vec![file(&["w", "a"], "hit", 2)]),
            file(&["w"], "hit", 3),
        ],
    );
    let re = Pattern::new("^hit$").unwrap();
    match search_with(&re, &root, usize::MAX, true, &[]) {
        SearchOutput::Flat { hits, .. } => {
            let listed: Vec<String> = hits.iter().map(|h| shown(&h.path)).collect();
            assert_eq!(listed, vec!["w/a/hit", "w/a.b/hit", "w/hit"]);
        },
        other => panic!("unexpected {:?}", other),
    }
}

#[test]
fn collect_gathers_matches_in_walk_order() {
    let root = env_tree();
    let re = Pattern::new("^.*\\.env$").unwrap();
    let mut out: Vec<&Entry> = Vec::new();
    collect(&root, &re, &[], 0, usize::MAX, &mut out);
    let listed: Vec<String> = out.iter().map(|e| shown(&e.path)).collect();
    assert_eq!(listed, vec!["/w/b/c/.env", "/w/a/.env"]);
    assert!(finds_any(&root, &re, &[], 0, usize::MAX));
    assert!(!finds_any(&root, &re, &[], 0, 1));
    let flat = flat_results(out);
    assert_eq!(shown(&flat[0].path), "/w/a/.env");
}

#[test]
fn search_tree_draws_links_and_programs() {
    let mut run = file(&["w"], "run.sh", 9);
    run.executable = true;
    let link = Entry::symlink("run.lnk".to_string(), path(&["w", "run.lnk"]), Some("run.sh".to_string()), 6);
    let root = Entry::directory("w".to_string(), path(&["w"]), vec![run, link]);
    let re = Pattern::new("^run.*$").unwrap();
    let lines = display_search_tree(&root, &re, &[], 0, usize::MAX, "", true);
    assert_eq!(texts(&lines), vec!["├── run.lnk -> run.sh (6B)", "└── run.sh (9B)"]);
    assert_eq!(lines[0].style, Style::Symlink);
    assert_eq!(lines[1].style, Style::Executable);
}

#[test]
fn tree_search_shows_what_flat_search_returns() {
    let root = Entry::directory(
        "w".to_string(),
        path(&["w"]),
        vec![
            dir(
                &["w"],
                "lib",
                vec![
                    file(&["w", "lib"], "test_a.py", 1),
                    file(&["w", "lib"], "a.py", 2),
                    dir(&["w", "lib"], "test_data", vec![file(&["w", "lib", "test_data"], "x.bin", 3)]),
                ],
            ),
            dir(&["w"], "docs", vec![file(&["w", "docs"], "guide.md", 4)]),
            file(&["w"], "test_main.py", 5),
        ],
    );
    let flat = match search_files("test_*", &root, usize::MAX, true, &[]) {
        Ok(SearchOutput::Flat { hits, .. }) => hits,
        other => panic!("unexpected {:?}", other),
    };
    let names: Vec<String> = flat.iter().map(|h| h.path.components.last().unwrap().clone()).collect();
    assert_eq!(names, vec!["test_a.py", "test_data", "test_main.py"]);
    let re = Pattern::new("^test_.*$").unwrap();
    for name in &names {
        assert!(re.matches(name));
    }
    match search_files("test_*", &root, usize::MAX, false, &[]) {
        Ok(SearchOutput::Tree { count, lines }) => {
            assert_eq!(count, flat.len());
            assert_eq!(
                texts(&lines),
                vec!["├── lib/", "│   ├── test_data/", "│   └── test_a.py (1B)", "└── test_main.py (5B)"]
            );
        },
        other => panic!("unexpected {:?}", other),
    }
}

#[test]
fn a_refused_pattern_is_reported_and_an_accepted_one_is_searched_with() {
    let root = env_tree();
    let refused = match Pattern::new("a(") {
        Err(error) => error,
        Ok(_) => panic!("an unclosed group was accepted"),
    };
    let words = refused.message.clone();
    match search_compiled(Err(refused), &root, usize::MAX, true, &[]) {
        Err(SearchError::InvalidPattern { message }) => assert_eq!(message, words),
        other => panic!("unexpected {:?}", other),
    }
    match search_compiled(Pattern::new("^x\\.rs$"), &root, usize::MAX, true, &[]) {
        Ok(SearchOutput::Flat { count, hits }) => {
            assert_eq!(count, 1);
            assert_eq!(shown(&hits[0].path), "/w/a/x.rs");
        },
        other => panic!("unexpected {:?}", other),
    }
    assert!(matches!(
        search_compiled(Pattern::new("^nothing$"), &root, usize::MAX, false, &[]),
        Ok(SearchOutput::NoMatches)
    ));
}
