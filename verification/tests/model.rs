use struct_tree::pattern::Pattern;
use struct_tree::histogram::{Count, TimesRanking};
use struct_tree::listing::sort_listing;
use struct_tree::order::{stable_sort, Ranking};
use struct_tree::paths::{set_holds, set_holds_below, FsPath};
use struct_tree::text::{chars_le, chars_of, decimal_string, digit_str, has_suffix, split_on, str_equal, trim};
use struct_tree::tree::{is_filtered_out, Entry, EntryKind, Measure};
use struct_tree::utils::get_dir_size;

fn path(parts: &[&str]) -> FsPath {
    FsPath::new(parts.iter().map(|p| p.to_string()).collect())
}

fn file(name: &str, size: u64) -> Entry {
    Entry::file(name.to_string(), path(&[name]), size, false)
}

fn dir(name: &str, children: Vec<Entry>) -> Entry {
    Entry::directory(name.to_string(), path(&[name]), children)
}

fn chars(s: &str) -> Vec<char> {
    s.chars().collect()
}

fn sample() -> Entry {
    let mut linked = Entry::symlink("link".to_string(), path(&["link"]), Some("elsewhere".to_string()), 77);
    linked.children = vec![file("behind.txt", 1000)];
    dir(
        "root",
        vec![
            file("a.txt", 10),
            dir("sub", vec![file("b.txt", 20), dir("empty", vec![]), file("c.pyc", 40)]),
            linked,
            Entry::other("socket".to_string(), path(&["socket"]), 5),
            dir("node_modules", vec![file("m.js", 300)]),
        ],
    )
}

#[test]
fn totals_count_regular_files_and_do_not_follow_links() {
    let root = sample();
    assert_eq!(root.measure(Measure::Bytes, None), 370);
    assert_eq!(root.measure(Measure::Files, None), 4);
    assert_eq!(root.measure(Measure::Dirs, None), 4);
    assert_eq!(root.measure_below(Measure::Dirs, None), 3);
    assert_eq!(get_dir_size(&root), 370);
    assert_eq!(get_dir_size(&root.children[0]), 10);
    assert_eq!(get_dir_size(&root.children[2]), 0);
    assert_eq!(get_dir_size(&root.children[3]), 0);
}

#[test]
fn filtered_totals_leave_out_what_is_ignored() {
    let root = sample();
    let none: &[Pattern] = &[];
    assert_eq!(root.measure(Measure::Bytes, Some(none)), 30);
    assert_eq!(root.measure(Measure::Files, Some(none)), 2);
    assert_eq!(root.measure(Measure::Dirs, Some(none)), 3);
    let patterns = vec![Pattern::new("^sub$").unwrap()];
    assert_eq!(root.measure(Measure::Bytes, Some(&patterns)), 10);
    assert_eq!(root.measure_below(Measure::Dirs, Some(&patterns)), 0);
    assert!(is_filtered_out("dist", EntryKind::Directory, Some(none)));
    assert!(!is_filtered_out("dist", EntryKind::File, Some(none)));
    assert!(is_filtered_out("x.pyc", EntryKind::File, Some(none)));
    assert!(!is_filtered_out("x.pyc", EntryKind::Symlink, Some(none)));
    assert!(!is_filtered_out("dist", EntryKind::Directory, None));
}

#[test]
fn totals_that_do_not_fit_are_found_out() {
    let big = dir("big", vec![file("a", u64::MAX), file("b", 1)]);
    assert_eq!(big.checked_measure(Measure::Bytes, None), None);
    assert_eq!(big.checked_measure(Measure::Files, None), Some(2));
    assert!(!big.within_limits());
    let nested = dir("outer", vec![big, file("c", 3)]);
    assert_eq!(nested.checked_measure_below(Measure::Bytes, None), None);
    assert!(!nested.within_limits());
    let edge = dir("edge", vec![file("a", u64::MAX - 1), file("b", 1)]);
    assert_eq!(edge.checked_measure(Measure::Bytes, None), Some(u64::MAX));
    assert!(edge.within_limits());
    assert!(sample().within_limits());
}

#[test]
fn constructors_set_the_kind() {
    assert_eq!(file("a", 1).kind, EntryKind::File);
    assert_eq!(dir("d", vec![]).kind, EntryKind::Directory);
    assert_eq!(Entry::symlink("l".to_string(), path(&["l"]), None, 0).kind, EntryKind::Symlink);
    assert_eq!(Entry::other("o".to_string(), path(&["o"]), 0).kind, EntryKind::Other);
    assert_eq!(file("a", 9).own(Measure::Bytes), 9);
    assert_eq!(file("a", 9).own(Measure::Files), 1);
    assert_eq!(file("a", 9).own(Measure::Dirs), 0);
    assert_eq!(dir("d", vec![]).own(Measure::Dirs), 1);
}

#[test]
fn listing_order_lowers_case_before_it_compares() {
    let entries = vec![file("b", 1), file("B", 1), file("a", 1), dir("z", vec![]), file("C", 1), dir("Y", vec![])];
    assert_eq!(sort_listing(&entries), vec![5, 3, 2, 0, 1, 4]);
    assert_eq!(sort_listing(&Vec::new()).len(), 0);
    let accented = vec![file("É", 1), file("z", 1), file("é2", 1)];
    assert_eq!(sort_listing(&accented), vec![1, 0, 2]);
}

#[test]
fn stable_sort_keeps_equal_items_in_their_order() {
    let counts: Vec<Count> = [3usize, 1, 3, 1, 2, 1, 3]
        .iter()
        .map(|n| Count { text: String::new(), times: *n })
        .collect();
    let ranking = TimesRanking { counts: &counts };
    assert!(ranking.le(0, 1));
    assert!(ranking.le(0, 2));
    assert!(!ranking.le(1, 0));
    assert_eq!(stable_sort(&ranking, 7), vec![0, 2, 6, 4, 1, 3, 5]);
    let empty: Vec<Count> = Vec::new();
    assert_eq!(stable_sort(&TimesRanking { counts: &empty }, 0).len(), 0);
}

#[test]
fn paths_compare_component_by_component() {
    let a = path(&["/", "a", "b"]);
    assert!(a.same_as(&path(&["/", "a", "b"])));
    assert!(!a.same_as(&path(&["/", "a"])));
    assert!(!a.same_as(&path(&["/", "a", "c"])));
    assert!(a.starts_with(&path(&["/", "a"])));
    assert!(a.starts_with(&a));
    assert!(a.starts_with(&path(&[])));
    assert!(!a.starts_with(&path(&["/", "a", "b", "c"])));
    assert!(!path(&["/", "ab"]).starts_with(&path(&["/", "a"])));
    assert!(path(&["a"]).sorts_before(&path(&["a", "b"])));
    assert!(!path(&["a", "b"]).sorts_before(&path(&["a"])));
    assert!(path(&["a", "z"]).sorts_before(&path(&["a.b", "c"])));
    assert!(!path(&["a.b", "c"]).sorts_before(&path(&["a", "z"])));
    assert!(a.sorts_before(&a));
    assert_eq!(a.copy().components, a.components);
    assert_eq!(a.join(&path(&["c", "d"])).components, vec!["/", "a", "b", "c", "d"]);
}

#[test]
fn path_sets_answer_for_paths_and_for_what_is_below() {
    let set = vec![path(&["/", "r", "src", "a.rs"]), path(&["/", "r", "b.rs"])];
    assert!(set_holds(&set, &path(&["/", "r", "b.rs"])));
    assert!(!set_holds(&set, &path(&["/", "r", "src"])));
    assert!(set_holds_below(&set, &path(&["/", "r", "src"])));
    assert!(set_holds_below(&set, &path(&["/", "r"])));
    assert!(!set_holds_below(&set, &path(&["/", "r", "b.rs"])));
    assert!(!set_holds_below(&set, &path(&["/", "r", "src", "a.rs"])));
    assert!(!set_holds_below(&set, &path(&["/", "r", "sr"])));
    assert!(!set_holds_below(&Vec::new(), &path(&["/"])));
    assert!(path(&["/", "r", "src"]).is_below(&path(&["/", "r"])));
    assert!(!path(&["/", "r"]).is_below(&path(&["/", "r"])));
    assert!(!path(&["/", "r"]).is_below(&path(&["/", "r", "src"])));
}

#[test]
fn text_helpers_work_on_characters() {
    assert!(str_equal("häuser", "häuser"));
    assert!(!str_equal("a", "b"));
    assert!(!str_equal("a", "ab"));
    assert!(str_equal("", ""));
    assert_eq!(chars_of("héllo"), vec!['h', 'é', 'l', 'l', 'o']);
    assert!(has_suffix(&chars("a.egg-info"), &chars(".egg-info")));
    assert!(has_suffix(&chars("abc"), &chars("")));
    assert!(!has_suffix(&chars("fo"), &chars("info")));
    assert!(chars_le(&chars("abc"), &chars("abd")));
    assert!(chars_le(&chars("ab"), &chars("abc")));
    assert!(chars_le(&chars("abc"), &chars("abc")));
    assert!(!chars_le(&chars("abc"), &chars("ab")));
    assert!(chars_le(&chars("Z"), &chars("a")));
    assert!(chars_le(&chars("z"), &chars("é")));
    assert!(chars_le(&chars(""), &chars("")));
}

#[test]
fn trim_takes_off_white_space_at_both_ends() {
    assert_eq!(trim("  a b \t\n"), "a b");
    assert_eq!(trim("\u{a0}x\u{2003}"), "x");
    assert_eq!(trim("   "), "");
    assert_eq!(trim(""), "");
    assert_eq!(trim("none"), "none");
}

#[test]
fn split_gives_one_piece_more_than_there_are_separators() {
    assert_eq!(split_on("a,b,c", ','), vec!["a", "b", "c"]);
    assert_eq!(split_on("", ','), vec![""]);
    assert_eq!(split_on(",a,,", ','), vec!["", "a", "", ""]);
    assert_eq!(split_on("no separator", ','), vec!["no separator"]);
    assert_eq!(split_on("é;ü", ';'), vec!["é", "ü"]);
}

#[test]
fn numbers_are_written_in_base_ten() {
    assert_eq!(decimal_string(0), "0");
    assert_eq!(decimal_string(7), "7");
    assert_eq!(decimal_string(10), "10");
    assert_eq!(decimal_string(1234567890), "1234567890");
    assert_eq!(decimal_string(u64::MAX), "18446744073709551615");
    assert_eq!(digit_str(0), "0");
    assert_eq!(digit_str(9), "9");
}
