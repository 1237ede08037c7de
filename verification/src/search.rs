//! The pattern search: one pass over the tree that tests every name it
//! comes by against a glob, and two ways of showing what it found.

use vstd::prelude::*;
use crate::display::{indent, lemma_lines_view_add, lines_view, rendered, render_line, Line, LineView, RenderDecision, Style};
use crate::ignores::{is_default_ignored_dir, should_ignore_dir};
use crate::listing::{lemma_listed_rows, listed_rows, listing_order, listing_relation, rows_among, sort_listing};
use crate::order::{
    indices, lemma_stable_order_permutes, lemma_stable_order_sorted, relation_of, stable_order, stable_sort,
    total_preorder, Ranking,
};
use crate::paths::{lemma_path_le_total, lemma_path_le_transitive, path_le, FsPath};
use crate::pattern::{
    glob_regex, matches_any, matches_custom_pattern, regex_is_match, translate_glob, Pattern, PatternError,
};
use crate::tree::{Entry, EntryKind};

verus! {

/// Whether an entry's name matches the search pattern.
pub open spec fn is_hit(entry: Entry, pattern: Seq<char>) -> bool {
    regex_is_match(pattern, entry.name@)
}

/// Whether the search goes below an entry: it is a directory, and its name
/// is ignored neither by default nor by a custom pattern. The entry itself
/// is tested against the search pattern either way.
pub open spec fn descends(entry: Entry, ignores: Seq<Pattern>) -> bool {
    &&& entry.kind is Directory
    &&& !is_default_ignored_dir(entry.name@)
    &&& !matches_any(entry.name@, ignores)
}

/// The entries that the search finds at and below `entry`, which lies
/// `depth` levels below the start, in the order in which it comes by
/// them: an entry before what is below it, and its children as the listing
/// holds them. Nothing deeper than `max` levels is looked at.
pub open spec fn found(entry: Entry, pattern: Seq<char>, ignores: Seq<Pattern>, depth: nat, max: nat) -> Seq<Entry>
    decreases entry, entry.children@.len() + 1,
{
    let own = if is_hit(entry, pattern) {
        seq![entry]
    } else {
        Seq::empty()
    };
    if descends(entry, ignores) && depth < max {
        own + found_below(entry, pattern, ignores, depth, max, entry.children@.len())
    } else {
        own
    }
}

/// What the search finds at and below the first `n` children of `entry`.
pub open spec fn found_below(
    entry: Entry,
    pattern: Seq<char>,
    ignores: Seq<Pattern>,
    depth: nat,
    max: nat,
    n: nat,
) -> Seq<Entry>
    decreases entry, n,
{
    if n == 0 || n > entry.children@.len() {
        Seq::empty()
    } else {
        found_below(entry, pattern, ignores, depth, max, (n - 1) as nat) + found(
            entry.children@[n - 1],
            pattern,
            ignores,
            depth + 1,
            max,
        )
    }
}

/// The entries that a vector of references points to.
pub open spec fn entries_of(refs: Seq<&Entry>) -> Seq<Entry> {
    refs.map_values(|e: &Entry| *e)
}

fn goes_below(entry: &Entry, ignores: &[Pattern]) -> (b: bool)
    ensures
        b == descends(*entry, ignores@),
{
    match entry.kind {
        EntryKind::Directory => !should_ignore_dir(entry.name.as_str()) && !matches_custom_pattern(
            entry.name.as_str(),
            ignores,
        ),
        _ => false,
    }
}

/// Gathers what the search finds at and below `entry` behind what `out`
/// holds already.
pub fn collect<'a>(
    entry: &'a Entry,
    re: &Pattern,
    ignores: &[Pattern],
    depth: usize,
    max: usize,
    out: &mut Vec<&'a Entry>,
)
    ensures
        entries_of(final(out)@) == entries_of(old(out)@) + found(
            *entry,
            re@,
            ignores@,
            depth as nat,
            max as nat,
        ),
    decreases entry,
{
    let ghost pattern = re@;
    let ghost start = entries_of(out@);
    if re.matches(entry.name.as_str()) {
        out.push(entry);
        assert(entries_of(out@) =~= start + seq![*entry]);
    } else {
        assert(entries_of(out@) =~= start + Seq::<Entry>::empty());
    }
    if goes_below(entry, ignores) && depth < max {
        let ghost own = if is_hit(*entry, pattern) {
            seq![*entry]
        } else {
            Seq::empty()
        };
        let n: usize = entry.children.len();
        let mut i: usize = 0;
        assert(entries_of(out@) =~= start + own + found_below(*entry, pattern, ignores@, depth as nat, max as nat, 0));
        while i < n
            invariant
                0 <= i <= n,
                n == entry.children@.len(),
                depth < max,
                pattern == re@,
                entries_of(out@) == start + own + found_below(
                    *entry,
                    pattern,
                    ignores@,
                    depth as nat,
                    max as nat,
                    i as nat,
                ),
            decreases n - i,
        {
            let ghost before = entries_of(out@);
            let ghost below = found_below(*entry, pattern, ignores@, depth as nat, max as nat, i as nat);
            let ghost next = found(entry.children@[i as int], pattern, ignores@, (depth + 1) as nat, max as nat);
            collect(&entry.children[i], re, ignores, depth + 1, max, out);
            assert(start + own + below + next =~= start + own + (below + next));
            i += 1;
        }
        assert(start + own + found_below(*entry, pattern, ignores@, depth as nat, max as nat, n as nat) =~= start
            + (own + found_below(*entry, pattern, ignores@, depth as nat, max as nat, n as nat)));
    }
}

/// Whether the search finds anything at or below `entry`.
pub fn finds_any(entry: &Entry, re: &Pattern, ignores: &[Pattern], depth: usize, max: usize) -> (b: bool)
    ensures
        b == (found(*entry, re@, ignores@, depth as nat, max as nat).len() > 0),
    decreases entry,
{
    if re.matches(entry.name.as_str()) {
        return true;
    }
    if goes_below(entry, ignores) && depth < max {
        let ghost pattern = re@;
        let n: usize = entry.children.len();
        let mut i: usize = 0;
        while i < n
            invariant
                0 <= i <= n,
                n == entry.children@.len(),
                depth < max,
                pattern == re@,
                descends(*entry, ignores@),
                found_below(*entry, pattern, ignores@, depth as nat, max as nat, i as nat).len() == 0,
            decreases n - i,
        {
            if finds_any(&entry.children[i], re, ignores, depth + 1, max) {
                assert(found_below(*entry, pattern, ignores@, depth as nat, max as nat, (i + 1) as nat).len() > 0);
                proof {
                    lemma_found_below_grows(*entry, pattern, ignores@, depth as nat, max as nat, (i + 1) as nat, n as nat);
                }
                return true;
            }
            i += 1;
        }
    }
    false
}

/// What is found below the first `n` children is the start of what is
/// found below the first `m`, for `n <= m`.
pub proof fn lemma_found_below_grows(
    entry: Entry,
    pattern: Seq<char>,
    ignores: Seq<Pattern>,
    depth: nat,
    max: nat,
    n: nat,
    m: nat,
)
    requires
        n <= m <= entry.children@.len(),
    ensures
        found_below(entry, pattern, ignores, depth, max, n).len() <= found_below(
            entry,
            pattern,
            ignores,
            depth,
            max,
            m,
        ).len(),
    decreases m,
{
    if n < m {
        lemma_found_below_grows(entry, pattern, ignores, depth, max, n, (m - 1) as nat);
    }
}

/// One result of a flat search.
#[derive(Debug)]
pub struct FlatHit {
    pub path: FsPath,
    /// The size of what was found; zero for a directory.
    pub size: u64,
}

/// A flat result as a specification value.
pub struct FlatHitView {
    pub path: Seq<Seq<char>>,
    pub size: u64,
}

impl View for FlatHit {
    type V = FlatHitView;

    open spec fn view(&self) -> FlatHitView {
        FlatHitView { path: self.path@, size: self.size }
    }
}

/// The flat results of a vector, as specification values.
pub open spec fn hits_view(hits: Seq<FlatHit>) -> Seq<FlatHitView> {
    hits.map_values(|hit: FlatHit| hit@)
}

/// The flat result that stands for a found entry.
pub open spec fn hit_of(entry: Entry) -> FlatHitView {
    FlatHitView {
        path: entry.path@,
        size: if entry.kind is Directory {
            0
        } else {
            entry.size
        },
    }
}

/// The order of paths among found entries, by their indices.
pub open spec fn by_path(entries: Seq<Entry>) -> spec_fn(int, int) -> bool {
    |i: int, j: int| path_le(entries[i].path@, entries[j].path@)
}

/// The flat results for the found entries: one for each, sorted by path.
pub open spec fn flat_hits(entries: Seq<Entry>) -> Seq<FlatHitView> {
    Seq::new(entries.len(), |k: int| hit_of(entries[stable_order(entries.len(), by_path(entries))[k]]))
}

/// Found entries, ranked by their paths.
pub struct PathRanking<'a> {
    pub entries: Vec<&'a Entry>,
}

impl<'a> Ranking for PathRanking<'a> {
    open spec fn size(&self) -> nat {
        self.entries@.len()
    }

    open spec fn ranks_le(&self, i: int, j: int) -> bool {
        path_le(self.entries@[i].path@, self.entries@[j].path@)
    }

    fn le(&self, i: usize, j: usize) -> (r: bool) {
        self.entries[i].path.sorts_before(&self.entries[j].path)
    }
}

/// Turns what a search found into its flat results, sorted by path.
pub fn flat_results(found: Vec<&Entry>) -> (out: Vec<FlatHit>)
    ensures
        hits_view(out@) == flat_hits(entries_of(found@)),
{
    let n: usize = found.len();
    let ranking = PathRanking { entries: found };
    let order = stable_sort(&ranking, n);
    let ghost entries = entries_of(ranking.entries@);
    let ghost sorted = stable_order(n as nat, by_path(entries));
    proof {
        let by_refs = relation_of(&ranking);
        assert forall|a: int, b: int|
            #![trigger by_refs(a, b)]
            #![trigger by_path(entries)(a, b)]
            0 <= a < n && 0 <= b < n implies by_refs(a, b) == by_path(entries)(a, b) by {
            assert(entries[a] == *ranking.entries@[a]);
            assert(entries[b] == *ranking.entries@[b]);
        }
        crate::order::lemma_stable_order_agrees(n as nat, by_refs, by_path(entries));
        lemma_stable_order_permutes(n as nat, by_path(entries));
    }
    let mut out: Vec<FlatHit> = Vec::new();
    let mut k: usize = 0;
    while k < n
        invariant
            0 <= k <= n,
            n == ranking.entries@.len(),
            n == order@.len(),
            entries == entries_of(ranking.entries@),
            sorted == stable_order(n as nat, by_path(entries)),
            indices(order@) == sorted,
            forall|t: int| 0 <= t < n ==> 0 <= #[trigger] sorted[t] < n,
            out@.len() == k,
            forall|t: int| 0 <= t < k ==> (#[trigger] out@[t])@ == hit_of(entries[sorted[t]]),
        decreases n - k,
    {
        let idx: usize = order[k];
        proof {
            assert(indices(order@)[k as int] == idx);
            assert(0 <= sorted[k as int] < n);
            assert(entries[idx as int] == *ranking.entries@[idx as int]);
        }
        let entry: &Entry = ranking.entries[idx];
        let size: u64 = match entry.kind {
            EntryKind::Directory => 0,
            _ => entry.size,
        };
        out.push(FlatHit { path: entry.path.copy(), size });
        k += 1;
    }
    assert(hits_view(out@) =~= flat_hits(entries));
    out
}

/// Whether the search finds anything at or below an entry that lies
/// `depth` levels below the start, as a function of the entry.
pub open spec fn holds_hit(pattern: Seq<char>, ignores: Seq<Pattern>, depth: nat, max: nat) -> spec_fn(
    Entry,
) -> bool {
    |entry: Entry| found(entry, pattern, ignores, depth, max).len() > 0
}

/// How an entry is shown in the tree of a search: a directory plainly, a
/// file with its size.
pub open spec fn search_decision(entry: Entry) -> RenderDecision {
    RenderDecision::Shown {
        style: match entry.kind {
            EntryKind::Directory => Style::Directory,
            EntryKind::Symlink => Style::Symlink,
            _ => if entry.executable {
                Style::Executable
            } else {
                Style::Match
            },
        },
        size: if entry.kind is Directory {
            None
        } else {
            Some(entry.size)
        },
    }
}

/// The lines of the search tree below `dir`, which lies `depth` levels
/// below the start: those of the children at or below which the search
/// finds something, in listing order. No ignore rule applies to what is
/// listed here; the search has applied them to where it went.
pub open spec fn search_tree_lines(
    dir: Entry,
    pattern: Seq<char>,
    ignores: Seq<Pattern>,
    depth: nat,
    max: nat,
    prefix: Seq<char>,
) -> Seq<LineView>
    decreases dir, 1nat, 0nat,
{
    if descends(dir, ignores) && depth < max {
        search_rows_lines(
            dir,
            pattern,
            ignores,
            depth,
            max,
            prefix,
            listed_rows(dir.children@, holds_hit(pattern, ignores, depth + 1, max)),
            0,
        )
    } else {
        Seq::empty()
    }
}

/// The lines of the rows from the `k`th on.
pub open spec fn search_rows_lines(
    dir: Entry,
    pattern: Seq<char>,
    ignores: Seq<Pattern>,
    depth: nat,
    max: nat,
    prefix: Seq<char>,
    rows: Seq<int>,
    k: nat,
) -> Seq<LineView>
    decreases dir, 0nat, rows.len() - k,
{
    if k >= rows.len() {
        Seq::empty()
    } else {
        let idx = rows[k as int];
        let here = if 0 <= idx < dir.children@.len() {
            search_entry_lines(dir.children@[idx], pattern, ignores, depth + 1, max, prefix, k + 1 == rows.len())
        } else {
            Seq::empty()
        };
        here + search_rows_lines(dir, pattern, ignores, depth, max, prefix, rows, k + 1)
    }
}

/// The lines that one kept entry gives: its own, and those of the search
/// tree below it.
pub open spec fn search_entry_lines(
    entry: Entry,
    pattern: Seq<char>,
    ignores: Seq<Pattern>,
    depth: nat,
    max: nat,
    prefix: Seq<char>,
    last: bool,
) -> Seq<LineView>
    decreases entry, 2nat, 0nat,
{
    seq![rendered(entry, search_decision(entry), prefix, last)] + search_tree_lines(
        entry,
        pattern,
        ignores,
        depth,
        max,
        prefix + indent(last),
    )
}

fn decide_shown(entry: &Entry) -> (d: RenderDecision)
    ensures
        d == search_decision(*entry),
{
    RenderDecision::Shown {
        style: match entry.kind {
            EntryKind::Directory => Style::Directory,
            EntryKind::Symlink => Style::Symlink,
            _ => if entry.executable {
                Style::Executable
            } else {
                Style::Match
            },
        },
        size: match entry.kind {
            EntryKind::Directory => None,
            _ => Some(entry.size),
        },
    }
}

fn select_kept(dir: &Entry, re: &Pattern, ignores: &[Pattern], depth: usize, max: usize, order: &Vec<usize>) -> (rows:
    Vec<usize>)
    requires
        depth < max,
        indices(order@) == listing_order(dir.children@),
    ensures
        indices(rows@) == listed_rows(
            dir.children@,
            holds_hit(re@, ignores@, (depth + 1) as nat, max as nat),
        ),
        forall|k: int| 0 <= k < rows.len() ==> (#[trigger] rows@[k]) < dir.children@.len(),
{
    let ghost entries = dir.children@;
    let ghost sorted = listing_order(entries);
    let ghost keep = holds_hit(re@, ignores@, (depth + 1) as nat, max as nat);
    let n: usize = order.len();
    proof {
        lemma_stable_order_permutes(entries.len(), listing_relation(entries));
    }
    let mut rows: Vec<usize> = Vec::new();
    let mut k: usize = 0;
    assert(indices(rows@) =~= rows_among(entries, keep, sorted, 0));
    while k < n
        invariant
            0 <= k <= n,
            depth < max,
            entries == dir.children@,
            sorted == listing_order(entries),
            keep == holds_hit(re@, ignores@, (depth + 1) as nat, max as nat),
            indices(order@) == sorted,
            n == order.len(),
            n == entries.len(),
            forall|t: int| 0 <= t < n ==> 0 <= #[trigger] sorted[t] < n,
            indices(rows@) == rows_among(entries, keep, sorted, k as nat),
            forall|t: int| 0 <= t < rows.len() ==> (#[trigger] rows@[t]) < entries.len(),
        decreases n - k,
    {
        let idx: usize = order[k];
        proof {
            assert(indices(order@)[k as int] == idx);
            assert(0 <= sorted[k as int] < n);
        }
        if finds_any(&dir.children[idx], re, ignores, depth + 1, max) {
            let ghost before = indices(rows@);
            rows.push(idx);
            assert(indices(rows@) =~= before.push(idx as int));
        }
        k += 1;
    }
    rows
}

/// Draws the tree of a search below `dir`: only the entries at or below
/// which the search has found something are listed.
pub fn display_search_tree(
    dir: &Entry,
    re: &Pattern,
    ignores: &[Pattern],
    current_depth: usize,
    max_depth: usize,
    prefix: &str,
    _is_last: bool,
) -> (lines: Vec<Line>)
    ensures
        lines_view(lines@) == search_tree_lines(
            *dir,
            re@,
            ignores@,
            current_depth as nat,
            max_depth as nat,
            prefix@,
        ),
    decreases dir,
{
    let mut lines: Vec<Line> = Vec::new();
    assert(lines_view(lines@) =~= Seq::<LineView>::empty());
    if !(goes_below(dir, ignores) && current_depth < max_depth) {
        return lines;
    }
    let order = sort_listing(&dir.children);
    let rows = select_kept(dir, re, ignores, current_depth, max_depth, &order);
    let count: usize = rows.len();
    let ghost pattern = re@;
    let ghost depth = current_depth as nat;
    let ghost max = max_depth as nat;
    let ghost all = indices(rows@);
    let mut k: usize = 0;
    while k < count
        invariant
            0 <= k <= count,
            count == rows.len(),
            current_depth < max_depth,
            pattern == re@,
            depth == current_depth as nat,
            max == max_depth as nat,
            all == indices(rows@),
            forall|t: int| 0 <= t < rows.len() ==> (#[trigger] rows@[t]) < dir.children@.len(),
            lines_view(lines@) + search_rows_lines(*dir, pattern, ignores@, depth, max, prefix@, all, k as nat)
                == search_rows_lines(*dir, pattern, ignores@, depth, max, prefix@, all, 0),
        decreases count - k,
    {
        let idx: usize = rows[k];
        let entry = &dir.children[idx];
        let last: bool = k + 1 == count;
        let ghost before = lines_view(lines@);
        let ghost rest = search_rows_lines(*dir, pattern, ignores@, depth, max, prefix@, all, (k + 1) as nat);
        proof {
            assert(all[k as int] == idx);
            assert(search_rows_lines(*dir, pattern, ignores@, depth, max, prefix@, all, k as nat)
                == search_entry_lines(*entry, pattern, ignores@, depth + 1, max, prefix@, last) + rest);
        }
        let line = render_line(entry, decide_shown(entry), prefix, last);
        let ghost drawn = line@;
        lines.push(line);
        assert(lines_view(lines@) =~= before.push(drawn));
        let mut below_prefix = String::from_str(prefix);
        if last {
            below_prefix.append("    ");
        } else {
            below_prefix.append("│   ");
        }
        let mut below = display_search_tree(
            entry,
            re,
            ignores,
            current_depth + 1,
            max_depth,
            below_prefix.as_str(),
            last,
        );
        let ghost lower = lines_view(below@);
        let ghost upper = lines@;
        proof {
            lemma_lines_view_add(upper, below@);
        }
        lines.append(&mut below);
        assert(lines_view(lines@) == before.push(drawn) + lower);
        assert(search_entry_lines(*entry, pattern, ignores@, depth + 1, max, prefix@, last) == seq![drawn] + lower);
        assert(before.push(drawn) + lower + rest =~= before + (seq![drawn] + lower + rest));
        k += 1;
    }
    assert(lines_view(lines@) + Seq::<LineView>::empty() =~= lines_view(lines@));
    lines
}

/// What a search gives back.
#[derive(Debug)]
pub enum SearchOutput {
    /// Nothing matched. This is no failure.
    NoMatches,
    /// The matches one by one, sorted by path.
    Flat { count: usize, hits: Vec<FlatHit> },
    /// The matches in their tree, with the directories that lead to them.
    Tree { count: usize, lines: Vec<Line> },
}

/// Why a search was not made.
#[derive(Debug)]
pub enum SearchError {
    /// The pattern does not translate to a regular expression that the
    /// `regex` crate accepts.
    InvalidPattern { message: String },
}

/// Whether `out` is what the search for `pattern` from `root` gives.
pub open spec fn is_search_output(
    out: SearchOutput,
    root: Entry,
    pattern: Seq<char>,
    ignores: Seq<Pattern>,
    max: nat,
    flat: bool,
) -> bool {
    let all = found(root, pattern, ignores, 0, max);
    match out {
        SearchOutput::NoMatches => all.len() == 0,
        SearchOutput::Flat { count, hits } => {
            &&& flat
            &&& all.len() > 0
            &&& count == all.len()
            &&& hits_view(hits@) == flat_hits(all)
        },
        SearchOutput::Tree { count, lines } => {
            &&& !flat
            &&& all.len() > 0
            &&& count == all.len()
            &&& lines_view(lines@) == search_tree_lines(root, pattern, ignores, 0, max, Seq::empty())
        },
    }
}

/// Searches the tree below `root` with a compiled pattern: every entry
/// that the walk comes by, the root first, is tested by its name.
pub fn search_with(re: &Pattern, root: &Entry, max_depth: usize, flat: bool, custom_ignores: &[Pattern]) -> (out:
    SearchOutput)
    ensures
        is_search_output(out, *root, re@, custom_ignores@, max_depth as nat, flat),
{
    let mut all: Vec<&Entry> = Vec::new();
    assert(entries_of(all@) =~= Seq::<Entry>::empty());
    collect(root, re, custom_ignores, 0, max_depth, &mut all);
    let ghost listed = found(*root, re@, custom_ignores@, 0, max_depth as nat);
    assert(entries_of(all@) =~= listed);
    assert(entries_of(all@).len() == all@.len());
    let count: usize = all.len();
    if count == 0 {
        SearchOutput::NoMatches
    } else if flat {
        SearchOutput::Flat { count, hits: flat_results(all) }
    } else {
        proof {
            reveal_strlit("");
        }
        let lines = display_search_tree(root, re, custom_ignores, 0, max_depth, "", true);
        assert(""@ =~= Seq::<char>::empty());
        SearchOutput::Tree { count, lines }
    }
}

/// Searches the tree below `root` for names that match a glob, in which
/// `*` stands for any run of characters and `?` for any one. The search is
/// made if the `regex` crate accepts the translated pattern, and not
/// otherwise.
pub fn search_files(pattern: &str, root: &Entry, max_depth: usize, flat: bool, custom_ignores: &[Pattern]) -> (r:
    Result<SearchOutput, SearchError>)
    ensures
        r matches Ok(out) ==> is_search_output(
            out,
            *root,
            glob_regex(pattern@, true),
            custom_ignores@,
            max_depth as nat,
            flat,
        ),
{
    let translated = translate_glob(pattern, true);
    search_compiled(Pattern::new(translated.as_str()), root, max_depth, flat, custom_ignores)
}

/// Whether `r` is what a search gives once its pattern has been handed to
/// the `regex` crate: the search with the compiled pattern where the crate
/// accepted it, and an error with the crate's words where it did not.
pub open spec fn is_search_result(
    r: Result<SearchOutput, SearchError>,
    compiled: Result<Pattern, PatternError>,
    root: Entry,
    ignores: Seq<Pattern>,
    max: nat,
    flat: bool,
) -> bool {
    match compiled {
        Ok(re) => r matches Ok(out) && is_search_output(out, root, re@, ignores, max, flat),
        Err(error) => r matches Err(SearchError::InvalidPattern { message }) && message@ == error.message@,
    }
}

/// Makes the search for a pattern that has been handed to the `regex`
/// crate. A pattern that was refused is reported, and the tree is not
/// walked; with one that was accepted the search is made, and finding
/// nothing is no failure.
pub fn search_compiled(
    compiled: Result<Pattern, PatternError>,
    root: &Entry,
    max_depth: usize,
    flat: bool,
    custom_ignores: &[Pattern],
) -> (r: Result<SearchOutput, SearchError>)
    ensures
        is_search_result(r, compiled, *root, custom_ignores@, max_depth as nat, flat),
{
    match compiled {
        Ok(re) => Ok(search_with(&re, root, max_depth, flat, custom_ignores)),
        Err(error) => Err(SearchError::InvalidPattern { message: error.message }),
    }
}

/// What is found below the first `n` children is empty exactly where
/// nothing is found at or below any of them.
pub proof fn lemma_found_below_empty(
    entry: Entry,
    pattern: Seq<char>,
    ignores: Seq<Pattern>,
    depth: nat,
    max: nat,
    n: nat,
)
    requires
        n <= entry.children@.len(),
    ensures
        found_below(entry, pattern, ignores, depth, max, n).len() > 0 <==> exists|j: int|
            0 <= j < n && (#[trigger] found(entry.children@[j], pattern, ignores, depth + 1, max)).len() > 0,
    decreases n,
{
    if n > 0 {
        lemma_found_below_empty(entry, pattern, ignores, depth, max, (n - 1) as nat);
        let before = found_below(entry, pattern, ignores, depth, max, (n - 1) as nat);
        let here = found(entry.children@[n - 1], pattern, ignores, depth + 1, max);
        if before.len() > 0 {
            let j = choose|j: int|
                0 <= j < n - 1 && (#[trigger] found(entry.children@[j], pattern, ignores, depth + 1, max)).len()
                    > 0;
            assert(0 <= j < n && found(entry.children@[j], pattern, ignores, depth + 1, max).len() > 0);
        }
    }
}

/// Every entry that a search finds matches the pattern by its name.
pub proof fn lemma_found_entries_match(entry: Entry, pattern: Seq<char>, ignores: Seq<Pattern>, depth: nat, max: nat)
    ensures
        forall|i: int|
            0 <= i < found(entry, pattern, ignores, depth, max).len() ==> is_hit(
                #[trigger] found(entry, pattern, ignores, depth, max)[i],
                pattern,
            ),
    decreases entry, entry.children@.len() + 1,
{
    let all = found(entry, pattern, ignores, depth, max);
    let own = if is_hit(entry, pattern) {
        seq![entry]
    } else {
        Seq::empty()
    };
    if descends(entry, ignores) && depth < max {
        let below = found_below(entry, pattern, ignores, depth, max, entry.children@.len());
        lemma_found_below_match(entry, pattern, ignores, depth, max, entry.children@.len());
        assert forall|i: int| 0 <= i < all.len() implies is_hit(#[trigger] all[i], pattern) by {
            if i >= own.len() {
                assert(all[i] == below[i - own.len()]);
            }
        }
    }
}

/// Every entry that a search finds below the first `n` children matches
/// the pattern by its name.
pub proof fn lemma_found_below_match(
    entry: Entry,
    pattern: Seq<char>,
    ignores: Seq<Pattern>,
    depth: nat,
    max: nat,
    n: nat,
)
    ensures
        forall|i: int|
            0 <= i < found_below(entry, pattern, ignores, depth, max, n).len() ==> is_hit(
                #[trigger] found_below(entry, pattern, ignores, depth, max, n)[i],
                pattern,
            ),
    decreases entry, n,
{
    if n > 0 && n <= entry.children@.len() {
        let all = found_below(entry, pattern, ignores, depth, max, n);
        let before = found_below(entry, pattern, ignores, depth, max, (n - 1) as nat);
        let here = found(entry.children@[n - 1], pattern, ignores, depth + 1, max);
        lemma_found_below_match(entry, pattern, ignores, depth, max, (n - 1) as nat);
        lemma_found_entries_match(entry.children@[n - 1], pattern, ignores, depth + 1, max);
        assert forall|i: int| 0 <= i < all.len() implies is_hit(#[trigger] all[i], pattern) by {
            if i < before.len() {
                assert(all[i] == before[i]);
            } else {
                assert(all[i] == here[i - before.len()]);
            }
        }
    }
}

/// A flat search returns one result for each entry that the search found,
/// and each of those entries matches the pattern by its name.
pub proof fn law_flat_results_match(root: Entry, pattern: Seq<char>, ignores: Seq<Pattern>, max: nat, k: int)
    requires
        0 <= k < flat_hits(found(root, pattern, ignores, 0, max)).len(),
    ensures
        exists|i: int|
            0 <= i < found(root, pattern, ignores, 0, max).len() && is_hit(
                #[trigger] found(root, pattern, ignores, 0, max)[i],
                pattern,
            ) && flat_hits(found(root, pattern, ignores, 0, max))[k] == hit_of(
                found(root, pattern, ignores, 0, max)[i],
            ),
        forall|i: int|
            0 <= i < found(root, pattern, ignores, 0, max).len() ==> exists|t: int|
                0 <= t < flat_hits(found(root, pattern, ignores, 0, max)).len() && flat_hits(
                    found(root, pattern, ignores, 0, max),
                )[t] == hit_of(#[trigger] found(root, pattern, ignores, 0, max)[i]),
{
    let all = found(root, pattern, ignores, 0, max);
    let order = stable_order(all.len(), by_path(all));
    lemma_found_entries_match(root, pattern, ignores, 0, max);
    lemma_stable_order_permutes(all.len(), by_path(all));
    assert(is_hit(all[order[k]], pattern));
    assert forall|i: int| 0 <= i < all.len() implies exists|t: int|
        0 <= t < flat_hits(all).len() && flat_hits(all)[t] == hit_of(#[trigger] all[i]) by {
        assert(order.contains(i));
        let t = choose|t: int| 0 <= t < order.len() && order[t] == i;
        assert(flat_hits(all)[t] == hit_of(all[i]));
    }
}

/// The results of a flat search stand in the order of their paths.
pub proof fn law_flat_results_sorted(entries: Seq<Entry>, a: int, b: int)
    requires
        0 <= a < b < flat_hits(entries).len(),
    ensures
        path_le(flat_hits(entries)[a].path, flat_hits(entries)[b].path),
{
    let le = by_path(entries);
    assert forall|i: int, j: int| 0 <= i < entries.len() && 0 <= j < entries.len() implies #[trigger] le(i, j)
        || #[trigger] le(j, i) by {
        lemma_path_le_total(entries[i].path@, entries[j].path@);
    }
    assert forall|i: int, j: int, k: int|
        0 <= i < entries.len() && 0 <= j < entries.len() && 0 <= k < entries.len() && #[trigger] le(i, j)
            && #[trigger] le(j, k) implies le(i, k) by {
        lemma_path_le_transitive(entries[i].path@, entries[j].path@, entries[k].path@);
    }
    assert(total_preorder(entries.len(), le));
    lemma_stable_order_sorted(entries.len(), le);
    lemma_stable_order_permutes(entries.len(), le);
    let order = stable_order(entries.len(), le);
    assert(le(order[a], order[b]));
}

/// The tree of a search lists, below a directory that the search went
/// into, exactly the children at or below which it found something, each
/// once; and it found something at or below an entry exactly where the
/// entry matches or the search went into it and found something at or
/// below one of its children. So the tree holds the matches and the
/// directories that lead to them, and nothing else.
pub proof fn law_search_tree_holds_matches_and_ancestors(
    dir: Entry,
    pattern: Seq<char>,
    ignores: Seq<Pattern>,
    depth: nat,
    max: nat,
    i: int,
)
    requires
        0 <= i < dir.children@.len(),
    ensures
        listed_rows(dir.children@, holds_hit(pattern, ignores, depth + 1, max)).contains(i) <==> found(
            dir.children@[i],
            pattern,
            ignores,
            depth + 1,
            max,
        ).len() > 0,
        found(dir.children@[i], pattern, ignores, depth + 1, max).len() > 0 <==> is_hit(dir.children@[i], pattern)
            || (descends(dir.children@[i], ignores) && depth + 1 < max && exists|j: int|
            0 <= j < dir.children@[i].children@.len() && (#[trigger] found(
                dir.children@[i].children@[j],
                pattern,
                ignores,
                depth + 2,
                max,
            )).len() > 0),
{
    let keep = holds_hit(pattern, ignores, depth + 1, max);
    let rows = listed_rows(dir.children@, keep);
    let child = dir.children@[i];
    lemma_listed_rows(dir.children@, keep);
    if rows.contains(i) {
        let a = choose|a: int| 0 <= a < rows.len() && rows[a] == i;
        assert(keep(dir.children@[rows[a]]));
    }
    lemma_found_below_empty(child, pattern, ignores, depth + 1, max, child.children@.len());
    let below = found_below(child, pattern, ignores, depth + 1, max, child.children@.len());
    assert(depth + 1 + 1 == depth + 2);
    if below.len() > 0 {
        let j = choose|j: int|
            0 <= j < child.children@.len() && (#[trigger] found(
                child.children@[j],
                pattern,
                ignores,
                depth + 1 + 1,
                max,
            )).len() > 0;
        assert(found(child.children@[j], pattern, ignores, depth + 2, max).len() > 0);
    }
    if exists|j: int|
        0 <= j < child.children@.len() && (#[trigger] found(child.children@[j], pattern, ignores, depth + 2, max)).len()
            > 0 {
        let j = choose|j: int|
            0 <= j < child.children@.len() && (#[trigger] found(
                child.children@[j],
                pattern,
                ignores,
                depth + 2,
                max,
            )).len() > 0;
        assert(found(child.children@[j], pattern, ignores, depth + 1 + 1, max).len() > 0);
    }
}

} // verus!
