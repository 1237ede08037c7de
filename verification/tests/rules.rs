use struct_tree::ignores::{last_segment_start, should_ignore_dir, should_ignore_file};
use struct_tree::pattern::{matches_custom_pattern, translate_glob, Pattern};
use struct_tree::cli::{
    compile_ignores, gather_globs, keep_accepted, megabytes_to_bytes, parse_no_ignore, resolve_depth, search_depth,
    select_git_mode, ViewRequest,
};
use struct_tree::config::GitMode;
use struct_tree::git::{
    get_git_changed_files, get_git_staged_files, get_git_tracked_files, get_git_untracked_files, select_paths,
    status_query, status_selects, Reported, StatusFlags, StatusQuery,
};
use struct_tree::paths::FsPath;
use struct_tree::store::{add_pattern, holds_pattern, parse_config_patterns, remove_pattern, write_patterns};
use struct_tree::utils::{is_executable, is_executable_name};

fn path(parts: &[&str]) -> FsPath {
    FsPath::new(parts.iter().map(|p| p.to_string()).collect())
}

fn strings(items: &[&str]) -> Vec<String> {
    items.iter().map(|s| s.to_string()).collect()
}

fn clean() -> StatusFlags {
    StatusFlags {
        index_new: false,
        index_modified: false,
        index_deleted: false,
        wt_new: false,
        wt_modified: false,
        wt_deleted: false,
        ignored: false,
    }
}

#[test]
fn every_name_on_the_built_in_list_is_an_ignored_directory() {
    let names = [
        "__pycache__", ".pytest_cache", ".mypy_cache", ".ruff_cache", ".tox", "dist", "build", ".coverage",
        "venv", ".venv", "env", ".env", "virtualenv", "node_modules", ".npm", ".yarn", ".git", ".svn", ".hg",
        ".vscode", ".idea", ".obsidian", "target", "bin", "obj", ".next", ".nuxt", ".DS_Store",
        "chrome_profile", "lofi_chrome_profile", "GPUCache", "ShaderCache", "GrShaderCache", "Cache",
        "blob_storage",
    ];
    for name in names {
        assert!(should_ignore_dir(name), "{}", name);
    }
}

#[test]
fn names_off_the_list_are_not_ignored_directories() {
    for name in ["src", "Build", "node_module", "node_modules2", "", "cache", ".gitignore", "egg-info", "x.egg-inf"] {
        assert!(!should_ignore_dir(name), "{}", name);
    }
}

#[test]
fn packaging_metadata_directories_are_ignored_by_suffix() {
    assert!(should_ignore_dir("mypkg.egg-info"));
    assert!(should_ignore_dir(".egg-info"));
    assert!(!should_ignore_dir("mypkg.egg-info.bak"));
}

#[test]
fn files_are_ignored_by_extension_or_exact_name() {
    for name in ["a.pyc", "b.pyo", "c.pyd", ".x.swp", "y.tar.swo", ".swp", "package-lock.json", ".DS_Store"] {
        assert!(should_ignore_file(name), "{}", name);
    }
    for name in ["a.py", "pyc.txt", "a.pyc.bak", "a.PYC", "package.json", "swp.", "", "DS_Store", "main.go"] {
        assert!(!should_ignore_file(name), "{}", name);
    }
}

#[test]
fn a_name_without_a_dot_has_no_extension_to_be_ignored_by() {
    for name in ["pyc", "pyo", "pyd", "swp", "swo"] {
        assert!(!should_ignore_file(name), "{}", name);
    }
}

#[test]
fn last_segment_starts_behind_the_last_dot() {
    let chars: Vec<char> = "a.b.c".chars().collect();
    assert_eq!(last_segment_start(&chars), 4);
    let plain: Vec<char> = "abc".chars().collect();
    assert_eq!(last_segment_start(&plain), 0);
    let dotted: Vec<char> = "abc.".chars().collect();
    assert_eq!(last_segment_start(&dotted), 4);
}

#[test]
fn globs_translate_to_anchored_regular_expressions() {
    assert_eq!(translate_glob("*.log", false), "^.*.log$");
    assert_eq!(translate_glob("temp*", false), "^temp.*$");
    assert_eq!(translate_glob("a?c", false), "^a?c$");
    assert_eq!(translate_glob("a?c", true), "^a.c$");
    assert_eq!(translate_glob("*?*", true), "^.*..*$");
    assert_eq!(translate_glob("", true), "^$");
    assert_eq!(translate_glob("näme[1]", true), "^näme[1]$");
}

#[test]
fn a_name_matches_where_one_pattern_matches_all_of_it() {
    let patterns = compile_ignores(&strings(&["*.log", "temp*"]));
    assert_eq!(patterns.len(), 2);
    assert!(matches_custom_pattern("a.log", &patterns));
    assert!(matches_custom_pattern("temporary", &patterns));
    assert!(!matches_custom_pattern("a.log.txt", &patterns));
    assert!(!matches_custom_pattern("my_temp", &patterns));
    assert!(!matches_custom_pattern("a.log", &[]));
}

#[test]
fn globs_that_do_not_compile_are_dropped() {
    let patterns = compile_ignores(&strings(&["(", "ok*", "[", "fine"]));
    let sources: Vec<&str> = patterns.iter().map(|p| p.source()).collect();
    assert_eq!(sources, vec!["^ok.*$", "^fine$"]);
}

#[test]
fn keep_accepted_keeps_what_compiled() {
    let mut kept = Vec::new();
    keep_accepted(&mut kept, Pattern::new("a"));
    keep_accepted(&mut kept, Pattern::new("("));
    keep_accepted(&mut kept, Pattern::new("b"));
    let sources: Vec<&str> = kept.iter().map(|p| p.source()).collect();
    assert_eq!(sources, vec!["a", "b"]);
}

#[test]
fn stored_globs_come_before_those_of_the_command_line() {
    let globs = gather_globs(&strings(&["cache", "*.tmp"]), Some(" *.log , temp*,,x "));
    assert_eq!(globs, vec!["cache", "*.tmp", "*.log", "temp*", "", "x"]);
    assert_eq!(gather_globs(&strings(&["cache"]), None), vec!["cache"]);
    assert_eq!(gather_globs(&Vec::new(), Some("")), vec![""]);
}

#[test]
fn depth_argument_selects_the_view() {
    assert_eq!(resolve_depth(None), ViewRequest::Tree { depth: usize::MAX });
    assert_eq!(resolve_depth(Some(0)), ViewRequest::Summary);
    assert_eq!(resolve_depth(Some(1)), ViewRequest::Tree { depth: 1 });
    assert_eq!(resolve_depth(Some(7)), ViewRequest::Tree { depth: 7 });
    assert_eq!(search_depth(0), usize::MAX);
    assert_eq!(search_depth(4), 4);
}

#[test]
fn size_limit_is_given_in_mebibytes() {
    assert_eq!(megabytes_to_bytes(0), Some(0));
    assert_eq!(megabytes_to_bytes(3), Some(3 * 1024 * 1024));
    assert_eq!(megabytes_to_bytes(u64::MAX / (1024 * 1024)), Some(u64::MAX - 1024 * 1024 + 1));
    assert_eq!(megabytes_to_bytes(u64::MAX / (1024 * 1024) + 1), None);
}

#[test]
fn later_git_flags_win() {
    assert_eq!(select_git_mode(false, false, false, false, false), None);
    assert_eq!(select_git_mode(false, false, false, false, true), Some(GitMode::History));
    assert_eq!(select_git_mode(true, false, false, false, true), Some(GitMode::Indexed));
    assert_eq!(select_git_mode(true, true, false, false, true), Some(GitMode::Untracked));
    assert_eq!(select_git_mode(true, true, true, false, true), Some(GitMode::Staged));
    assert_eq!(select_git_mode(true, true, true, true, true), Some(GitMode::Changed));
}

#[test]
fn no_ignore_option_names_what_is_switched_off() {
    let none = parse_no_ignore(None);
    assert!(!none.skip_defaults && !none.skip_config && none.skip_specific.is_none());
    let all = parse_no_ignore(Some("all"));
    assert!(all.skip_defaults && all.skip_config && all.skip_specific.is_none());
    let defaults = parse_no_ignore(Some("defaults"));
    assert!(defaults.skip_defaults && !defaults.skip_config && defaults.skip_specific.is_none());
    let config = parse_no_ignore(Some("config"));
    assert!(!config.skip_defaults && config.skip_config && config.skip_specific.is_none());
    let one = parse_no_ignore(Some("node_modules"));
    assert!(!one.skip_defaults && !one.skip_config);
    assert_eq!(one.skip_specific, Some("node_modules".to_string()));
}

#[test]
fn pattern_file_holds_one_pattern_on_each_line() {
    let content = "cache\n  *.log  \n\n# a comment\n   # another\r\ntemp*\r\n\t\nlast";
    assert_eq!(parse_config_patterns(content), vec!["cache", "*.log", "temp*", "last"]);
    assert_eq!(parse_config_patterns("").len(), 0);
    assert_eq!(parse_config_patterns("\n\n").len(), 0);
    assert_eq!(parse_config_patterns("one\n"), vec!["one"]);
}

#[test]
fn patterns_are_written_with_line_breaks_between_them() {
    assert_eq!(write_patterns(&strings(&["a", "b*", "c"])), "a\nb*\nc");
    assert_eq!(write_patterns(&strings(&["only"])), "only");
    assert_eq!(write_patterns(&Vec::new()), "");
    let written = write_patterns(&strings(&["x", "y"]));
    assert_eq!(parse_config_patterns(&written), vec!["x", "y"]);
}

#[test]
fn a_pattern_is_added_once() {
    let mut patterns = strings(&["a"]);
    assert!(add_pattern(&mut patterns, "b".to_string()));
    assert_eq!(patterns, vec!["a", "b"]);
    assert!(!add_pattern(&mut patterns, "a".to_string()));
    assert_eq!(patterns, vec!["a", "b"]);
    assert!(holds_pattern(&patterns, "b"));
    assert!(!holds_pattern(&patterns, "c"));
}

#[test]
fn a_pattern_is_removed_wherever_it_stands() {
    let patterns = strings(&["a", "b", "a", "c"]);
    assert_eq!(remove_pattern(&patterns, "a"), Some(strings(&["b", "c"])));
    assert_eq!(remove_pattern(&patterns, "c"), Some(strings(&["a", "b", "a"])));
    assert_eq!(remove_pattern(&patterns, "d"), None);
    assert_eq!(remove_pattern(&strings(&["a"]), "a"), Some(Vec::new()));
}

#[test]
fn status_decides_the_git_relationships() {
    let mut new_file = clean();
    new_file.wt_new = true;
    assert!(status_selects(GitMode::Untracked, new_file));
    let mut ignored = new_file;
    ignored.ignored = true;
    assert!(!status_selects(GitMode::Untracked, ignored));
    for set in 0..3 {
        let mut flags = clean();
        match set {
            0 => flags.index_new = true,
            1 => flags.index_modified = true,
            _ => flags.index_deleted = true,
        }
        assert!(status_selects(GitMode::Staged, flags));
        assert!(!status_selects(GitMode::Changed, flags));
        assert!(!status_selects(GitMode::Untracked, flags));
    }
    let mut modified = clean();
    modified.wt_modified = true;
    assert!(status_selects(GitMode::Changed, modified));
    let mut deleted = clean();
    deleted.wt_deleted = true;
    assert!(status_selects(GitMode::Changed, deleted));
    assert!(!status_selects(GitMode::Staged, deleted));
    for mode in [GitMode::Untracked, GitMode::Staged, GitMode::Changed, GitMode::Indexed, GitMode::History] {
        assert!(!status_selects(mode, clean()));
    }
    assert!(!status_selects(GitMode::Indexed, new_file));
    assert!(!status_selects(GitMode::History, modified));
}

#[test]
fn each_relationship_has_its_status_query() {
    assert_eq!(
        status_query(GitMode::Untracked),
        Some(StatusQuery { include_untracked: true, recurse_untracked_dirs: true })
    );
    assert_eq!(
        status_query(GitMode::Staged),
        Some(StatusQuery { include_untracked: true, recurse_untracked_dirs: false })
    );
    assert_eq!(
        status_query(GitMode::Changed),
        Some(StatusQuery { include_untracked: false, recurse_untracked_dirs: false })
    );
    assert_eq!(status_query(GitMode::Indexed), None);
    assert_eq!(status_query(GitMode::History), None);
}

#[test]
fn git_sets_hold_the_selected_paths_under_the_working_directory() {
    let workdir = path(&["/", "repo"]);
    let mut staged = clean();
    staged.index_modified = true;
    let mut fresh = clean();
    fresh.wt_new = true;
    let mut edited = clean();
    edited.wt_modified = true;
    let reported = vec![
        Reported { flags: staged, path: path(&["src", "a.rs"]) },
        Reported { flags: fresh, path: path(&["new.txt"]) },
        Reported { flags: edited, path: path(&["src", "b.rs"]) },
        Reported { flags: clean(), path: path(&["same.txt"]) },
    ];
    let shown = |paths: Vec<FsPath>| -> Vec<String> { paths.iter().map(|p| p.components.join("|")).collect() };
    assert_eq!(shown(get_git_staged_files(Some(&workdir), &reported)), vec!["/|repo|src|a.rs"]);
    assert_eq!(shown(get_git_untracked_files(Some(&workdir), &reported)), vec!["/|repo|new.txt"]);
    assert_eq!(shown(get_git_changed_files(Some(&workdir), &reported)), vec!["/|repo|src|b.rs"]);
    assert_eq!(shown(select_paths(GitMode::History, Some(&workdir), &reported)).len(), 0);
    assert_eq!(get_git_staged_files(None, &reported).len(), 0);
    let index = vec![path(&["src", "a.rs"]), path(&["same.txt"])];
    assert_eq!(
        shown(get_git_tracked_files(Some(&workdir), &index)),
        vec!["/|repo|src|a.rs", "/|repo|same.txt"]
    );
    assert_eq!(get_git_tracked_files(None, &index).len(), 0);
}

#[test]
fn execute_bits_mark_a_program() {
    assert!(is_executable(0o755));
    assert!(is_executable(0o100));
    assert!(is_executable(0o010));
    assert!(is_executable(0o001));
    assert!(!is_executable(0o644));
    assert!(!is_executable(0));
    assert!(is_executable(0o100644 | 0o001));
}

#[test]
fn program_extensions_mark_a_program() {
    for name in ["a.exe", "B.BAT", "run.cmd", "x.sh", "tool.py", "s.Ps1", "a.b.sh"] {
        assert!(is_executable_name(name), "{}", name);
    }
    for name in ["a.txt", "exe", ".sh", "sh.", "a.shx", ""] {
        assert!(!is_executable_name(name), "{}", name);
    }
}

#[test]
fn a_pattern_keeps_the_text_it_was_compiled_from() {
    let pattern = Pattern::new("^a.c$").unwrap();
    assert_eq!(pattern.source(), "^a.c$");
    assert!(pattern.matches("abc"));
    assert!(!pattern.matches("abcd"));
    assert!(Pattern::new("b").unwrap().matches("abc"));
    match Pattern::new("a(") {
        Err(error) => assert!(!error.message.is_empty()),
        Ok(_) => panic!("an unclosed group was accepted"),
    }
}

#[test]
fn the_answer_of_the_regex_crate_becomes_the_library_s_own() {
    let refused = regex::Regex::new("a(").unwrap_err();
    let words = refused.to_string();
    match Pattern::from_outcome(Err(refused)) {
        Err(error) => assert_eq!(error.message, words),
        Ok(_) => panic!("a refusal was turned into a pattern"),
    }
    let accepted = Pattern::new("^x+$").unwrap();
    match Pattern::from_outcome(Ok(accepted)) {
        Ok(pattern) => {
            assert_eq!(pattern.source(), "^x+$");
            assert!(pattern.matches("xxx"));
            assert!(!pattern.matches("xyx"));
        },
        Err(_) => panic!("an accepted pattern was refused"),
    }
}
