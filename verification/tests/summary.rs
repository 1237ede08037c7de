use struct_tree::pattern::Pattern;
use struct_tree::paths::FsPath;
use struct_tree::summary::{
    collect_extensions, display_summary, summarize_directory, summary_within_limits, write_counts,
    write_skipped, write_totals, Block, Skipped, Totals,
};
use struct_tree::histogram::{count_texts, extension, pick_most_frequent, Count};
use struct_tree::tree::Entry;

fn path(parts: &[&str]) -> FsPath {
    FsPath::new(parts.iter().map(|p| p.to_string()).collect())
}

fn join(base: &[&str], name: &str) -> Vec<String> {
    let mut parts: Vec<String> = base.iter().map(|p| p.to_string()).collect();
    parts.push(name.to_string());
    parts
}

fn file(base: &[&str], name: &str, size: u64) -> Entry {
    Entry::file(name.to_string(), FsPath::new(join(base, name)), size, false)
}

fn dir(base: &[&str], name: &str, children: Vec<Entry>) -> Entry {
    Entry::directory(name.to_string(), FsPath::new(join(base, name)), children)
}

fn pairs(counts: &[Count]) -> Vec<(String, usize)> {
    counts.iter().map(|c| (c.text.clone(), c.times)).collect()
}

fn workspace() -> Entry {
    let app = dir(
        &["w"],
        "app",
        vec![
            file(&["w", "app"], "main.RS", 100),
            file(&["w", "app"], "lib.rs", 200),
            file(&["w", "app"], "notes.md", 50),
            file(&["w", "app"], "cache.pyc", 1000),
            file(&["w", "app"], "Makefile", 10),
            dir(
                &["w", "app"],
                "target",
                vec![file(&["w", "app", "target"], "a.o", 4000), file(&["w", "app", "target"], "b.o", 5000)],
            ),
            dir(&["w", "app"], "src", vec![file(&["w", "app", "src"], "deep.rs", 30)]),
        ],
    );
    let docs = dir(&["w"], "docs", vec![file(&["w", "docs"], "index.md", 2048)]);
    Entry::directory(
        "w".to_string(),
        path(&["w"]),
        vec![
            app,
            file(&["w"], "README.md", 300),
            dir(&["w"], "node_modules", vec![file(&["w", "node_modules"], "x.js", 70), file(&["w", "node_modules"], "y.js", 80)]),
            docs,
            file(&["w"], "package-lock.json", 999),
            dir(&["w"], ".git", vec![]),
        ],
    )
}

#[test]
fn summary_gives_a_block_to_each_entry_that_is_not_ignored() {
    let root = workspace();
    let summary = display_summary(&root, &[]).unwrap();
    assert_eq!(summary.blocks.len(), 3);
    match &summary.blocks[0] {
        Block::Directory { index, detail } => {
            assert_eq!(*index, 0);
            assert_eq!(detail.total, Totals { dirs: 2, files: 8, bytes: 10390 });
            assert_eq!(detail.visible, Totals { dirs: 1, files: 5, bytes: 390 });
            assert!(detail.differs());
            assert_eq!(pairs(&detail.types), vec![("rs".to_string(), 3), ("md".to_string(), 1)]);
            assert_eq!(detail.total_line(), "2 dirs · 8 files · 10.1K");
            assert_eq!(detail.visible_line().unwrap(), "1 dirs · 5 files · 390B");
            assert_eq!(detail.types_line().unwrap(), "rs(3) md(1)");
            assert_eq!(detail.ignored_line().unwrap(), "target(2 files)");
        },
        Block::File { .. } => panic!("a directory was expected"),
    }
    assert!(matches!(summary.blocks[1], Block::File { index: 1 }));
    match &summary.blocks[2] {
        Block::Directory { index, detail } => {
            assert_eq!(*index, 3);
            assert_eq!(detail.total, Totals { dirs: 0, files: 1, bytes: 2048 });
            assert_eq!(detail.visible, detail.total);
            assert!(!detail.differs());
            assert_eq!(detail.total_line(), "1 files · 2.0K");
            assert!(detail.visible_line().is_none());
            assert!(detail.types_line().is_none());
            assert!(detail.ignored_line().is_none());
        },
        Block::File { .. } => panic!("a directory was expected"),
    }
}

#[test]
fn summary_names_what_it_passed_over_at_the_top() {
    let root = workspace();
    let summary = display_summary(&root, &[]).unwrap();
    assert_eq!(summary.ignored_files, 3);
    assert_eq!(summary.ignored_bytes, 70 + 80 + 999);
    assert_eq!(
        summary.ignored_line().unwrap(),
        "node_modules(2 files), package-lock.json, .git(0 files) · 3 files · 1.1K"
    );
}

#[test]
fn summary_applies_custom_patterns_at_the_top_and_below() {
    let root = workspace();
    let ignores = vec![Pattern::new("^.*\\.md$").unwrap(), Pattern::new("^docs$").unwrap()];
    let summary = display_summary(&root, &ignores).unwrap();
    assert_eq!(summary.blocks.len(), 1);
    match &summary.blocks[0] {
        Block::Directory { detail, .. } => {
            assert_eq!(detail.visible, Totals { dirs: 1, files: 4, bytes: 340 });
            assert_eq!(pairs(&detail.types), vec![("rs".to_string(), 3)]);
        },
        Block::File { .. } => panic!("a directory was expected"),
    }
    assert_eq!(summary.ignored_files, 1 + 2 + 1 + 1);
    assert_eq!(summary.ignored_bytes, 300 + 150 + 2048 + 999);
}

#[test]
fn summary_without_ignored_files_has_no_closing_line() {
    let root = Entry::directory(
        "w".to_string(),
        path(&["w"]),
        vec![file(&["w"], "a.txt", 1), dir(&["w"], ".git", vec![])],
    );
    let summary = display_summary(&root, &[]).unwrap();
    assert_eq!(summary.ignored.len(), 1);
    assert_eq!(summary.ignored_files, 0);
    assert!(summary.ignored_line().is_none());
}

#[test]
fn summary_of_something_that_is_no_directory_is_none() {
    let f = file(&["w"], "a.txt", 1);
    assert!(display_summary(&f, &[]).is_none());
}

#[test]
fn directory_summary_names_the_ten_most_frequent_types() {
    let mut children = Vec::new();
    let kinds = ["a", "b", "c", "d", "e", "f", "g", "h", "i", "j", "k", "l"];
    for (n, kind) in kinds.iter().enumerate() {
        let copies = if n % 2 == 0 { 2 } else { 1 };
        for c in 0..copies {
            children.push(file(&["w", "d"], &format!("f{}.{}", c, kind), 1));
        }
    }
    let d = dir(&["w"], "d", children);
    let detail = summarize_directory(&d, &[]);
    let names: Vec<String> = detail.types.iter().map(|c| c.text.clone()).collect();
    assert_eq!(names, vec!["a", "c", "e", "g", "i", "k", "b", "d", "f", "h"]);
    assert_eq!(detail.types[0].times, 2);
    assert_eq!(detail.types[9].times, 1);
}

#[test]
fn extension_follows_the_rules_for_file_names() {
    assert_eq!(extension("a.TXT"), Some("txt".to_string()));
    assert_eq!(extension("archive.tar.gz"), Some("gz".to_string()));
    assert_eq!(extension("Makefile"), None);
    assert_eq!(extension(".bashrc"), None);
    assert_eq!(extension(".config.yml"), Some("yml".to_string()));
    assert_eq!(extension("trailing."), Some("".to_string()));
    assert_eq!(extension(".."), None);
    assert_eq!(extension("..."), Some("".to_string()));
    assert_eq!(extension(""), None);
}

#[test]
fn counting_keeps_the_order_of_first_occurrence() {
    let texts: Vec<String> = ["rs", "md", "rs", "toml", "md", "rs"].iter().map(|s| s.to_string()).collect();
    let counts = count_texts(&texts);
    assert_eq!(pairs(&counts), vec![("rs".to_string(), 3), ("md".to_string(), 2), ("toml".to_string(), 1)]);
    let top = pick_most_frequent(&counts, 2);
    assert_eq!(pairs(&top), vec![("rs".to_string(), 3), ("md".to_string(), 2)]);
    let tied: Vec<String> = ["x", "y", "z", "y", "x"].iter().map(|s| s.to_string()).collect();
    let top = pick_most_frequent(&count_texts(&tied), 10);
    assert_eq!(pairs(&top), vec![("x".to_string(), 2), ("y".to_string(), 2), ("z".to_string(), 1)]);
    assert_eq!(count_texts(&Vec::new()).len(), 0);
}

#[test]
fn collect_extensions_passes_over_what_is_ignored() {
    let d = dir(
        &["w"],
        "d",
        vec![
            file(&["w", "d"], "a.rs", 1),
            file(&["w", "d"], "b.pyc", 1),
            dir(&["w", "d"], "dist", vec![file(&["w", "d", "dist"], "c.js", 1)]),
            Entry::symlink("l.rs".to_string(), path(&["w", "d", "l.rs"]), None, 0),
            dir(&["w", "d"], "sub", vec![file(&["w", "d", "sub"], "e.MD", 1)]),
        ],
    );
    let mut out = Vec::new();
    collect_extensions(&d, &[], &mut out);
    assert_eq!(out, vec!["rs", "md"]);
}

#[test]
fn summary_texts_are_put_together_with_dots_commas_and_blanks() {
    assert_eq!(write_totals(Totals { dirs: 0, files: 0, bytes: 0 }, false), "0B");
    assert_eq!(write_totals(Totals { dirs: 0, files: 0, bytes: 0 }, true), "0 dirs · 0 files · 0B");
    assert_eq!(write_totals(Totals { dirs: 3, files: 0, bytes: 1024 }, false), "3 dirs · 1.0K");
    let list = vec![
        Skipped { name: "dist".to_string(), files: Some(4) },
        Skipped { name: "x.pyc".to_string(), files: None },
    ];
    assert_eq!(write_skipped(&list), "dist(4 files), x.pyc");
    assert_eq!(write_skipped(&Vec::new()), "");
    let counts = vec![Count { text: "rs".to_string(), times: 12 }, Count { text: "".to_string(), times: 1 }];
    assert_eq!(write_counts(&counts), "rs(12) (1)");
}

#[test]
fn a_passed_over_entry_that_is_no_directory_counts_for_one_file_of_its_size() {
    let ignores = vec![Pattern::new("^skip.*$").unwrap()];
    let link = Entry::symlink("skip.lnk".to_string(), path(&["w", "skip.lnk"]), Some("elsewhere".to_string()), 40);
    let root = Entry::directory("w".to_string(), path(&["w"]), vec![link]);
    let summary = display_summary(&root, &ignores).unwrap();
    assert_eq!(summary.blocks.len(), 0);
    assert_eq!(summary.ignored_files, 1);
    assert_eq!(summary.ignored_bytes, 40);
    assert_eq!(summary.ignored_line().unwrap(), "skip.lnk · 1 files · 40B");

    let socket = Entry::other("skip.sock".to_string(), path(&["w", "skip.sock"]), 7);
    let swap = file(&["w"], "notes.swp", 100);
    let held = dir(&["w"], "skipped", vec![file(&["w", "skipped"], "a", 1000), Entry::symlink(
        "l".to_string(),
        path(&["w", "skipped", "l"]),
        None,
        500,
    )]);
    let kept = Entry::symlink("kept.lnk".to_string(), path(&["w", "kept.lnk"]), None, 9);
    let root = Entry::directory("w".to_string(), path(&["w"]), vec![socket, swap, held, kept]);
    let summary = display_summary(&root, &ignores).unwrap();
    assert!(matches!(summary.blocks[..], [Block::File { index: 3 }]));
    assert_eq!(summary.ignored_files, 1 + 1 + 1);
    assert_eq!(summary.ignored_bytes, 7 + 100 + 1000);
    assert_eq!(
        summary.ignored_line().unwrap(),
        "skip.sock, notes.swp, skipped(1 files) · 3 files · 1.1K"
    );
}

#[test]
fn summary_numbers_that_do_not_fit_are_found_out() {
    let small = Entry::directory(
        "w".to_string(),
        path(&["w"]),
        vec![
            Entry::symlink("a".to_string(), path(&["w", "a"]), None, u64::MAX - 5),
            file(&["w"], "b", 5),
        ],
    );
    assert!(small.within_limits());
    assert!(summary_within_limits(&small));
    let large = Entry::directory(
        "w".to_string(),
        path(&["w"]),
        vec![
            Entry::symlink("a".to_string(), path(&["w", "a"]), None, u64::MAX - 5),
            file(&["w"], "b", 6),
        ],
    );
    assert!(large.within_limits());
    assert!(!summary_within_limits(&large));
    let heavy = dir(&["w"], "d", vec![file(&["w", "d"], "x", u64::MAX), file(&["w", "d"], "y", 1)]);
    assert!(!summary_within_limits(&Entry::directory("w".to_string(), path(&["w"]), vec![heavy])));
    assert!(summary_within_limits(&workspace()));
}
