//! The filtered walk: which entries of a directory are shown, in which
//! order, and the lines that are drawn for them.

use vstd::prelude::*;
use crate::config::{GitMode, StructConfig};
use crate::ignores::{
    in_dir_deny_list, is_default_ignored_dir, is_default_ignored_file, should_ignore_dir, should_ignore_file,
};
use crate::listing::{
    lemma_listed_rows, listed_le, listed_rows, listing_order, listing_relation, rows_among, sort_listing,
};
use crate::order::{indices, lemma_stable_order_permutes};
use crate::paths::{holds_path, holds_path_below, lies_below, set_holds, set_holds_below, FsPath};
use crate::pattern::{matches_any, matches_custom_pattern};
use crate::text::{decimal, decimal_string, str_equal};
use crate::tree::{Entry, EntryKind, Measure};
use crate::utils::{format_size, size_text, MB};

verus! {

/// What the rules say of one entry.
#[derive(Clone, Copy, Debug, PartialEq, Eq, Structural)]
pub enum Verdict {
    Visible,
    /// Ignored by the built-in lists.
    IgnoredDefault,
    /// Ignored by a custom pattern.
    IgnoredPattern,
    /// A directory larger than the size limit.
    IgnoredSize,
    /// Not in the set of paths that the walk is restricted to.
    IgnoredGit,
}

/// Whether the entry has the requested relationship to the repository: a
/// directory where the set holds a path that lies below it, anything else
/// where the set holds its own path. A directory's own path in the set
/// does nothing for the directory.
pub open spec fn passes_git(entry: Entry, set: Seq<FsPath>) -> bool {
    if entry.kind is Directory {
        holds_path_below(set, entry.path@)
    } else {
        holds_path(set, entry.path@)
    }
}

/// Whether the built-in directory list applies to a directory of this
/// name: it is not switched off, the name is not the one taken off the
/// list, and the list holds the name.
pub open spec fn default_dir_rule(name: Seq<char>, config: StructConfig) -> bool {
    &&& !config.skip_defaults
    &&& (config.skip_specific matches Some(specific) ==> specific@ != name)
    &&& is_default_ignored_dir(name)
}

/// Whether the custom patterns apply and one of them matches the name.
pub open spec fn custom_rule(name: Seq<char>, config: StructConfig) -> bool {
    config.skip_specific is None && matches_any(name, config.custom_ignores@)
}

/// Whether the entry is a directory whose files together are larger than
/// the configured limit.
pub open spec fn over_size_limit(entry: Entry, config: StructConfig) -> bool {
    &&& entry.kind is Directory
    &&& config.max_size_bytes matches Some(max)
    &&& entry.weigh(Measure::Bytes, None) > max
}

/// The verdict on an entry that has passed the git test or the ignore
/// rules: only the size limit is left.
pub open spec fn size_verdict(entry: Entry, config: StructConfig) -> Verdict {
    if over_size_limit(entry, config) {
        Verdict::IgnoredSize
    } else {
        Verdict::Visible
    }
}

/// The verdict of the rules on an entry; the first rule that applies
/// decides. With a set of git paths only the set and the size limit count.
/// Without one: the built-in directory list, the custom patterns, the
/// built-in file list, and the size limit, in that order.
pub open spec fn verdict(entry: Entry, config: StructConfig) -> Verdict {
    if let Some(set) = config.git_files {
        if passes_git(entry, set@) {
            size_verdict(entry, config)
        } else {
            Verdict::IgnoredGit
        }
    } else if entry.kind is Directory && default_dir_rule(entry.name@, config) {
        Verdict::IgnoredDefault
    } else if custom_rule(entry.name@, config) {
        Verdict::IgnoredPattern
    } else if !(entry.kind is Directory) && is_default_ignored_file(entry.name@) {
        Verdict::IgnoredDefault
    } else {
        size_verdict(entry, config)
    }
}

fn is_directory(entry: &Entry) -> (b: bool)
    ensures
        b == (entry.kind is Directory),
{
    match entry.kind {
        EntryKind::Directory => true,
        _ => false,
    }
}

fn check_size_limit(entry: &Entry, config: &StructConfig) -> (v: Verdict)
    requires
        entry.fits(),
    ensures
        v == size_verdict(*entry, *config),
{
    if is_directory(entry) {
        match config.max_size_bytes {
            Some(max) => {
                if entry.measure(Measure::Bytes, None) > max {
                    return Verdict::IgnoredSize;
                }
            },
            None => {},
        }
    }
    Verdict::Visible
}

fn check_default_dir_rule(name: &str, config: &StructConfig) -> (b: bool)
    ensures
        b == default_dir_rule(name@, *config),
{
    if config.skip_defaults {
        return false;
    }
    match &config.skip_specific {
        Some(specific) => {
            if str_equal(specific.as_str(), name) {
                return false;
            }
        },
        None => {},
    }
    should_ignore_dir(name)
}

/// Applies the rules to one entry.
pub fn classify(entry: &Entry, config: &StructConfig) -> (v: Verdict)
    requires
        entry.fits(),
    ensures
        v == verdict(*entry, *config),
{
    let dir: bool = is_directory(entry);
    let name: &str = entry.name.as_str();
    match &config.git_files {
        Some(set) => {
            let inside: bool = if dir {
                set_holds_below(set, &entry.path)
            } else {
                set_holds(set, &entry.path)
            };
            if inside {
                check_size_limit(entry, config)
            } else {
                Verdict::IgnoredGit
            }
        },
        None => {
            if dir && check_default_dir_rule(name, config) {
                Verdict::IgnoredDefault
            } else if config.skip_specific.is_none() && matches_custom_pattern(
                name,
                config.custom_ignores.as_slice(),
            ) {
                Verdict::IgnoredPattern
            } else if !dir && should_ignore_file(name) {
                Verdict::IgnoredDefault
            } else {
                check_size_limit(entry, config)
            }
        },
    }
}

/// How the name on a line is to be drawn.
#[derive(Clone, Copy, Debug, PartialEq, Eq, Structural)]
pub enum Style {
    Plain,
    Directory,
    Symlink,
    Executable,
    Staged,
    Changed,
    Untracked,
    /// A file that a search has found.
    Match,
}

/// What is done with one entry of a listing.
#[derive(Clone, Copy, Debug, PartialEq, Eq)]
pub enum RenderDecision {
    /// The entry gets its line, a file with its size where sizes are shown,
    /// and a directory is expanded below it.
    Shown { style: Style, size: Option<u64> },
    /// An ignored directory: one line with the number of files that it
    /// hides, and their size where sizes are shown.
    PrunedIgnored { files: u64, bytes: Option<u64> },
    /// A directory over the size limit: one line with its size in whole
    /// mebibytes.
    PrunedOversized { megabytes: u64 },
    /// No line.
    Skipped,
}

/// The style of the name of an entry that is shown.
pub open spec fn shown_style(entry: Entry, config: StructConfig) -> Style {
    match entry.kind {
        EntryKind::Symlink => Style::Symlink,
        EntryKind::Directory => Style::Directory,
        _ => match config.git_mode {
            Some(GitMode::Staged) => Style::Staged,
            Some(GitMode::Changed) => Style::Changed,
            Some(GitMode::Untracked) => Style::Untracked,
            _ => if entry.executable {
                Style::Executable
            } else {
                Style::Plain
            },
        },
    }
}

/// What is done with an entry: it is shown where the rules let it pass; an
/// ignored directory is pruned with a count of all the files below it,
/// whatever rules would apply to them; an ignored file and an entry outside
/// the git set are skipped; an oversized directory is pruned with its size.
pub open spec fn decision(entry: Entry, config: StructConfig) -> RenderDecision {
    match verdict(entry, config) {
        Verdict::Visible => RenderDecision::Shown {
            style: shown_style(entry, config),
            size: if config.show_size && !(entry.kind is Directory) {
                Some(entry.size)
            } else {
                None
            },
        },
        Verdict::IgnoredDefault | Verdict::IgnoredPattern => if entry.kind is Directory {
            RenderDecision::PrunedIgnored {
                files: entry.weigh(Measure::Files, None) as u64,
                bytes: if config.show_size {
                    Some(entry.weigh(Measure::Bytes, None) as u64)
                } else {
                    None
                },
            }
        } else {
            RenderDecision::Skipped
        },
        Verdict::IgnoredSize => RenderDecision::PrunedOversized {
            megabytes: (entry.weigh(Measure::Bytes, None) / (MB as nat)) as u64,
        },
        Verdict::IgnoredGit => RenderDecision::Skipped,
    }
}

fn style_of(entry: &Entry, config: &StructConfig) -> (style: Style)
    ensures
        style == shown_style(*entry, *config),
{
    match entry.kind {
        EntryKind::Symlink => Style::Symlink,
        EntryKind::Directory => Style::Directory,
        _ => match config.git_mode {
            Some(GitMode::Staged) => Style::Staged,
            Some(GitMode::Changed) => Style::Changed,
            Some(GitMode::Untracked) => Style::Untracked,
            _ => if entry.executable {
                Style::Executable
            } else {
                Style::Plain
            },
        },
    }
}

/// Decides what is done with one entry.
pub fn decide(entry: &Entry, config: &StructConfig) -> (d: RenderDecision)
    requires
        entry.fits(),
    ensures
        d == decision(*entry, *config),
{
    let dir: bool = is_directory(entry);
    match classify(entry, config) {
        Verdict::Visible => RenderDecision::Shown {
            style: style_of(entry, config),
            size: if config.show_size && !dir {
                Some(entry.size)
            } else {
                None
            },
        },
        Verdict::IgnoredDefault | Verdict::IgnoredPattern => if dir {
            RenderDecision::PrunedIgnored {
                files: entry.measure(Measure::Files, None),
                bytes: if config.show_size {
                    Some(entry.measure(Measure::Bytes, None))
                } else {
                    None
                },
            }
        } else {
            RenderDecision::Skipped
        },
        Verdict::IgnoredSize => RenderDecision::PrunedOversized {
            megabytes: entry.measure(Measure::Bytes, None) / MB,
        },
        Verdict::IgnoredGit => RenderDecision::Skipped,
    }
}

/// One line of a drawn tree, in its parts.
#[derive(Debug)]
pub struct Line {
    /// What the levels above have drawn in front of the line.
    pub prefix: String,
    /// Whether the line is the last of its directory.
    pub last: bool,
    /// The entry's name, as it is shown.
    pub label: String,
    /// How the label is to be drawn.
    pub style: Style,
    /// What follows the label: a size, a count, or nothing.
    pub note: String,
}

/// A line as a specification value.
pub struct LineView {
    pub prefix: Seq<char>,
    pub last: bool,
    pub label: Seq<char>,
    pub style: Style,
    pub note: Seq<char>,
}

impl View for Line {
    type V = LineView;

    open spec fn view(&self) -> LineView {
        LineView {
            prefix: self.prefix@,
            last: self.last,
            label: self.label@,
            style: self.style,
            note: self.note@,
        }
    }
}

/// The lines of a vector, as specification values.
pub open spec fn lines_view(lines: Seq<Line>) -> Seq<LineView> {
    lines.map_values(|line: Line| line@)
}

/// The glyphs that tie a line to the tree: a corner for the last entry of
/// a directory, a tee for the others.
pub open spec fn connector(last: bool) -> Seq<char> {
    if last {
        "└── "@
    } else {
        "├── "@
    }
}

/// What a directory's line adds to the prefix of the lines below it: blanks
/// under a last entry, a bar under the others.
pub open spec fn indent(last: bool) -> Seq<char> {
    if last {
        "    "@
    } else {
        "│   "@
    }
}

impl LineView {
    /// The line as it is printed.
    pub open spec fn text(self) -> Seq<char> {
        self.prefix + connector(self.last) + self.label + self.note
    }
}

impl Line {
    /// The line as it is printed, without colours.
    pub fn text(&self) -> (text: String)
        ensures
            text@ == self@.text(),
    {
        let mut text = self.prefix.clone();
        if self.last {
            text.append("└── ");
        } else {
            text.append("├── ");
        }
        text.append(self.label.as_str());
        text.append(self.note.as_str());
        text
    }
}

/// The name of an entry as its line shows it: a directory with a slash
/// behind it, a symbolic link with an arrow to where it points, anything
/// else as it is.
pub open spec fn label_of(entry: Entry) -> Seq<char> {
    match entry.kind {
        EntryKind::Directory => entry.name@ + "/"@,
        EntryKind::Symlink => match entry.target {
            Some(target) => entry.name@ + " -> "@ + target@,
            None => entry.name@,
        },
        _ => entry.name@,
    }
}

/// What follows the label on a line.
pub open spec fn note_of(decision: RenderDecision) -> Seq<char> {
    match decision {
        RenderDecision::Shown { size: Some(size), .. } => " ("@ + size_text(size as nat) + ")"@,
        RenderDecision::Shown { size: None, .. } => Seq::empty(),
        RenderDecision::PrunedIgnored { files, bytes: None } => " ("@ + decimal(files as nat)
            + " files ignored)"@,
        RenderDecision::PrunedIgnored { files, bytes: Some(bytes) } => " ("@ + size_text(bytes as nat)
            + ", "@ + decimal(files as nat) + " files ignored)"@,
        RenderDecision::PrunedOversized { megabytes } => " ("@ + decimal(megabytes as nat)
            + "MB, skipped)"@,
        RenderDecision::Skipped => Seq::empty(),
    }
}

/// The style of the label on a line: that of the decision where the entry
/// is shown, that of a directory where it is pruned.
pub open spec fn style_for(decision: RenderDecision) -> Style {
    match decision {
        RenderDecision::Shown { style, .. } => style,
        _ => Style::Directory,
    }
}

/// The line that is drawn for an entry after a decision that gives it one.
pub open spec fn rendered(entry: Entry, decision: RenderDecision, prefix: Seq<char>, last: bool) -> LineView {
    LineView {
        prefix,
        last,
        label: label_of(entry),
        style: style_for(decision),
        note: note_of(decision),
    }
}

fn label_for(entry: &Entry) -> (label: String)
    ensures
        label@ == label_of(*entry),
{
    let mut label = entry.name.clone();
    match entry.kind {
        EntryKind::Directory => {
            label.append("/");
        },
        EntryKind::Symlink => match &entry.target {
            Some(target) => {
                label.append(" -> ");
                label.append(target.as_str());
            },
            None => {},
        },
        _ => {},
    }
    label
}

fn note_for(decision: RenderDecision) -> (note: String)
    ensures
        note@ == note_of(decision),
{
    match decision {
        RenderDecision::Shown { size: Some(size), .. } => {
            let mut note = String::from_str(" (");
            note.append(format_size(size).as_str());
            note.append(")");
            note
        },
        RenderDecision::Shown { size: None, .. } => String::new(),
        RenderDecision::PrunedIgnored { files, bytes: None } => {
            let mut note = String::from_str(" (");
            note.append(decimal_string(files).as_str());
            note.append(" files ignored)");
            note
        },
        RenderDecision::PrunedIgnored { files, bytes: Some(bytes) } => {
            let mut note = String::from_str(" (");
            note.append(format_size(bytes).as_str());
            note.append(", ");
            note.append(decimal_string(files).as_str());
            note.append(" files ignored)");
            note
        },
        RenderDecision::PrunedOversized { megabytes } => {
            let mut note = String::from_str(" (");
            note.append(decimal_string(megabytes).as_str());
            note.append("MB, skipped)");
            note
        },
        RenderDecision::Skipped => String::new(),
    }
}

/// Draws the line of one entry.
pub fn render_line(entry: &Entry, decision: RenderDecision, prefix: &str, last: bool) -> (line: Line)
    ensures
        line@ == rendered(*entry, decision, prefix@, last),
{
    let style: Style = match decision {
        RenderDecision::Shown { style, .. } => style,
        _ => Style::Directory,
    };
    Line {
        prefix: String::from_str(prefix),
        last,
        label: label_for(entry),
        style,
        note: note_for(decision),
    }
}

/// Whether an entry gets a line under a configuration, as a function of
/// the entry.
pub open spec fn has_line(config: StructConfig) -> spec_fn(Entry) -> bool {
    |entry: Entry| !(decision(entry, config) is Skipped)
}

/// The entries of a listing that get a line, in the order of their lines.
/// The listing is sorted first and filtered then, so which entry is the
/// last is a matter of what is left.
pub open spec fn visible_rows(entries: Seq<Entry>, config: StructConfig) -> Seq<int> {
    listed_rows(entries, has_line(config))
}

/// The lines that are drawn for the listing of `dir`, at `depth` levels
/// below the root: none at the depth limit or where `dir` is no
/// directory, else those of its visible entries in order.
pub open spec fn tree_lines(dir: Entry, config: StructConfig, depth: nat, prefix: Seq<char>) -> Seq<LineView>
    decreases dir, 1nat, 0nat,
{
    if depth >= config.depth || !(dir.kind is Directory) {
        Seq::empty()
    } else {
        rows_lines(dir, config, depth, prefix, visible_rows(dir.children@, config), 0)
    }
}

/// The lines of the rows from the `k`th on.
pub open spec fn rows_lines(
    dir: Entry,
    config: StructConfig,
    depth: nat,
    prefix: Seq<char>,
    rows: Seq<int>,
    k: nat,
) -> Seq<LineView>
    decreases dir, 0nat, rows.len() - k,
{
    if k >= rows.len() {
        Seq::empty()
    } else {
        let idx = rows[k as int];
        let here = if 0 <= idx < dir.children@.len() {
            entry_lines(dir.children@[idx], config, depth, prefix, k + 1 == rows.len())
        } else {
            Seq::empty()
        };
        here + rows_lines(dir, config, depth, prefix, rows, k + 1)
    }
}

/// The lines that one entry of a listing gives: none where it is skipped,
/// its own line where it is pruned, its own line and the lines of its
/// listing where it is shown.
pub open spec fn entry_lines(
    entry: Entry,
    config: StructConfig,
    depth: nat,
    prefix: Seq<char>,
    last: bool,
) -> Seq<LineView>
    decreases entry, 2nat, 0nat,
{
    let d = decision(entry, config);
    if d is Skipped {
        Seq::empty()
    } else if d is Shown {
        seq![rendered(entry, d, prefix, last)] + tree_lines(entry, config, depth + 1, prefix + indent(last))
    } else {
        seq![rendered(entry, d, prefix, last)]
    }
}

fn select_rows(dir: &Entry, config: &StructConfig, order: &Vec<usize>) -> (r: (Vec<usize>, Vec<RenderDecision>))
    requires
        dir.fits(),
        dir.kind is Directory,
        indices(order@) == listing_order(dir.children@),
    ensures
        indices(r.0@) == visible_rows(dir.children@, *config),
        r.1.len() == r.0.len(),
        forall|k: int|
            0 <= k < r.0.len() ==> (#[trigger] r.0@[k]) < dir.children@.len() && r.1@[k] == decision(
                dir.children@[r.0@[k] as int],
                *config,
            ) && !(r.1@[k] is Skipped),
{
    let ghost entries = dir.children@;
    let ghost sorted = listing_order(entries);
    let n: usize = order.len();
    proof {
        lemma_stable_order_permutes(entries.len(), listing_relation(entries));
    }
    let mut rows: Vec<usize> = Vec::new();
    let mut decisions: Vec<RenderDecision> = Vec::new();
    let mut k: usize = 0;
    assert(indices(rows@) =~= rows_among(entries, has_line(*config), sorted, 0));
    while k < n
        invariant
            0 <= k <= n,
            dir.fits(),
            dir.kind is Directory,
            entries == dir.children@,
            sorted == listing_order(entries),
            indices(order@) == sorted,
            n == order.len(),
            n == entries.len(),
            forall|t: int| 0 <= t < n ==> 0 <= #[trigger] sorted[t] < n,
            indices(rows@) == rows_among(entries, has_line(*config), sorted, k as nat),
            decisions.len() == rows.len(),
            forall|t: int|
                0 <= t < rows.len() ==> (#[trigger] rows@[t]) < entries.len() && decisions@[t] == decision(
                    entries[rows@[t] as int],
                    *config,
                ) && !(decisions@[t] is Skipped),
        decreases n - k,
    {
        let idx: usize = order[k];
        proof {
            assert(indices(order@)[k as int] == idx);
            assert(0 <= sorted[k as int] < n);
            dir.lemma_child_fits(idx as int);
        }
        let d = decide(&dir.children[idx], config);
        let skipped: bool = match d {
            RenderDecision::Skipped => true,
            _ => false,
        };
        if !skipped {
            let ghost before = indices(rows@);
            rows.push(idx);
            decisions.push(d);
            assert(indices(rows@) =~= before.push(idx as int));
        }
        k += 1;
    }
    (rows, decisions)
}

/// `lines_view` of two vectors joined is the two views joined.
pub proof fn lemma_lines_view_add(a: Seq<Line>, b: Seq<Line>)
    ensures
        lines_view(a + b) == lines_view(a) + lines_view(b),
{
    assert(lines_view(a + b) =~= lines_view(a) + lines_view(b));
}

/// Draws the tree below `dir`: lists its entries, sorts them, applies the
/// rules to each, and draws a line for each entry that is left, going into
/// the directories that are shown until the depth limit is reached.
/// `current_depth` is the number of levels between the root and `dir`.
pub fn display_tree(
    dir: &Entry,
    config: &StructConfig,
    current_depth: usize,
    prefix: &str,
    _is_last: bool,
) -> (lines: Vec<Line>)
    requires
        dir.fits(),
    ensures
        lines_view(lines@) == tree_lines(*dir, *config, current_depth as nat, prefix@),
    decreases dir,
{
    let mut lines: Vec<Line> = Vec::new();
    assert(lines_view(lines@) =~= Seq::<LineView>::empty());
    if current_depth >= config.depth || !is_directory(dir) {
        return lines;
    }
    let order = sort_listing(&dir.children);
    let selected = select_rows(dir, config, &order);
    let rows = selected.0;
    let decisions = selected.1;
    let count: usize = rows.len();
    let ghost depth = current_depth as nat;
    let ghost all = indices(rows@);
    let mut k: usize = 0;
    while k < count
        invariant
            0 <= k <= count,
            count == rows.len(),
            decisions.len() == count,
            dir.fits(),
            dir.kind is Directory,
            current_depth < config.depth,
            depth == current_depth as nat,
            all == indices(rows@),
            forall|t: int|
                0 <= t < rows.len() ==> (#[trigger] rows@[t]) < dir.children@.len() && decisions@[t]
                    == decision(dir.children@[rows@[t] as int], *config) && !(decisions@[t] is Skipped),
            lines_view(lines@) + rows_lines(*dir, *config, depth, prefix@, all, k as nat) == rows_lines(
                *dir,
                *config,
                depth,
                prefix@,
                all,
                0,
            ),
        decreases count - k,
    {
        let idx: usize = rows[k];
        let entry = &dir.children[idx];
        let last: bool = k + 1 == count;
        let d = decisions[k];
        let ghost before = lines_view(lines@);
        let ghost rest = rows_lines(*dir, *config, depth, prefix@, all, (k + 1) as nat);
        proof {
            assert(all[k as int] == idx);
            assert(rows_lines(*dir, *config, depth, prefix@, all, k as nat) == entry_lines(
                *entry,
                *config,
                depth,
                prefix@,
                last,
            ) + rest);
        }
        let line = render_line(entry, d, prefix, last);
        let ghost drawn = line@;
        lines.push(line);
        assert(lines_view(lines@) =~= before.push(drawn));
        match d {
            RenderDecision::Shown { .. } => {
                let mut below_prefix = String::from_str(prefix);
                if last {
                    below_prefix.append("    ");
                } else {
                    below_prefix.append("│   ");
                }
                proof {
                    dir.lemma_child_fits(idx as int);
                }
                let mut below = display_tree(entry, config, current_depth + 1, below_prefix.as_str(), last);
                let ghost lower = lines_view(below@);
                let ghost upper = lines@;
                proof {
                    lemma_lines_view_add(upper, below@);
                }
                lines.append(&mut below);
                assert(lines_view(lines@) == before.push(drawn) + lower);
                assert(entry_lines(*entry, *config, depth, prefix@, last) == seq![drawn] + lower);
                assert(before.push(drawn) + lower + rest =~= before + (seq![drawn] + lower + rest));
            },
            _ => {
                assert(entry_lines(*entry, *config, depth, prefix@, last) == seq![drawn]);
                assert(before.push(drawn) + rest =~= before + (seq![drawn] + rest));
            },
        }
        k += 1;
    }
    assert(lines_view(lines@) + Seq::<LineView>::empty() =~= lines_view(lines@));
    lines
}

/// Within a listing, the entries that get a line stand in listing order:
/// every directory before everything that is none, and within each of the
/// two groups the names in order, case set aside.
pub proof fn law_rows_are_in_listing_order(entries: Seq<Entry>, config: StructConfig, a: int, b: int)
    requires
        0 <= a < b < visible_rows(entries, config).len(),
    ensures
        ({
            let first = entries[visible_rows(entries, config)[a]];
            let second = entries[visible_rows(entries, config)[b]];
            &&& listed_le(first, second)
            &&& second.kind is Directory ==> first.kind is Directory
            &&& (first.kind is Directory) == (second.kind is Directory) ==> crate::text::lex_le(
                crate::text::lowercase(first.name@),
                crate::text::lowercase(second.name@),
            )
        }),
{
    lemma_listed_rows(entries, has_line(config));
}

/// A directory whose name is on the built-in list gets one pruned line and
/// is never expanded, whatever the custom patterns, the size limit and the
/// depth are: unless the walk is restricted to git paths, the built-in list
/// is switched off, or the name is the one taken off the list.
pub proof fn law_denied_directory_is_pruned(
    entry: Entry,
    config: StructConfig,
    depth: nat,
    prefix: Seq<char>,
    last: bool,
)
    requires
        entry.kind is Directory,
        in_dir_deny_list(entry.name@),
        config.git_files is None,
        !config.skip_defaults,
        config.skip_specific matches Some(specific) ==> specific@ != entry.name@,
    ensures
        verdict(entry, config) is IgnoredDefault,
        decision(entry, config) is PrunedIgnored,
        entry_lines(entry, config, depth, prefix, last) == seq![
            rendered(entry, decision(entry, config), prefix, last),
        ],
{
}

/// A symbolic link is never gone into, whatever it points to and whatever
/// the snapshot holds below it: it gives one line, with an arrow to its
/// target, where the rules let it pass, and no line where they do not.
pub proof fn law_symlink_is_one_line(entry: Entry, config: StructConfig, depth: nat, prefix: Seq<char>, last: bool)
    requires
        entry.kind is Symlink,
    ensures
        tree_lines(entry, config, depth, prefix).len() == 0,
        verdict(entry, config) is Visible ==> entry_lines(entry, config, depth, prefix, last) == seq![
            rendered(entry, decision(entry, config), prefix, last),
        ],
        !(verdict(entry, config) is Visible) ==> entry_lines(entry, config, depth, prefix, last).len() == 0,
        entry.target matches Some(target) ==> rendered(entry, decision(entry, config), prefix, last).label
            == entry.name@ + " -> "@ + target@,
{
    assert(tree_lines(entry, config, depth + 1, prefix + indent(last)).len() == 0);
    let d = decision(entry, config);
    if verdict(entry, config) is Visible {
        assert(seq![rendered(entry, d, prefix, last)] + Seq::<LineView>::empty() =~= seq![
            rendered(entry, d, prefix, last),
        ]);
    }
}

/// Drawing the same tree twice with the same configuration gives the same
/// lines, character for character.
pub proof fn law_same_tree_same_lines(
    dir: Entry,
    config: StructConfig,
    depth: nat,
    prefix: Seq<char>,
    first: Seq<Line>,
    second: Seq<Line>,
)
    requires
        lines_view(first) == tree_lines(dir, config, depth, prefix),
        lines_view(second) == tree_lines(dir, config, depth, prefix),
    ensures
        first.len() == second.len(),
        forall|i: int|
            0 <= i < first.len() ==> (#[trigger] first[i])@ == second[i]@ && first[i]@.text() == second[i]@.text(),
{
    assert(lines_view(first).len() == first.len());
    assert(lines_view(second).len() == second.len());
    assert forall|i: int| 0 <= i < first.len() implies (#[trigger] first[i])@ == second[i]@ by {
        assert(lines_view(first)[i] == first[i]@);
        assert(lines_view(second)[i] == second[i]@);
    }
}

/// Where the walk is restricted to a set of git paths, the set alone says
/// which entries get a line, whatever the ignore rules would say of them:
/// a directory exactly where the set holds a path that its own path is a
/// proper prefix of, anything else exactly where the set holds its own
/// path. An entry without a line has no pruned line either.
pub proof fn law_git_set_decides(
    entry: Entry,
    config: StructConfig,
    set: Vec<FsPath>,
    depth: nat,
    prefix: Seq<char>,
    last: bool,
)
    requires
        config.git_files == Some(set),
    ensures
        entry.kind is Directory ==> (entry_lines(entry, config, depth, prefix, last).len() > 0 <==> exists|
            i: int,
        |
            0 <= i < set@.len() && entry.path@.is_prefix_of((#[trigger] set@[i])@) && entry.path@.len()
                < set@[i]@.len()),
        !(entry.kind is Directory) ==> (entry_lines(entry, config, depth, prefix, last).len() > 0
            <==> holds_path(set@, entry.path@)),
        entry.kind is Directory && holds_path(set@, entry.path@) && !holds_path_below(set@, entry.path@)
            ==> entry_lines(entry, config, depth, prefix, last).len() == 0,
{
    if entry.kind is Directory {
        if holds_path_below(set@, entry.path@) {
            let i = choose|i: int| 0 <= i < set@.len() && lies_below((#[trigger] set@[i])@, entry.path@);
            assert(entry.path@.is_prefix_of(set@[i]@) && entry.path@.len() < set@[i]@.len());
        }
        if exists|i: int|
            0 <= i < set@.len() && entry.path@.is_prefix_of((#[trigger] set@[i])@) && entry.path@.len()
                < set@[i]@.len() {
            let i = choose|i: int|
                0 <= i < set@.len() && entry.path@.is_prefix_of((#[trigger] set@[i])@) && entry.path@.len()
                    < set@[i]@.len();
            assert(lies_below(set@[i]@, entry.path@));
        }
    }
}

/// A directory that the earlier rules let pass is pruned, in one line with
/// its size, where its files together are strictly larger than the limit,
/// and shown where they are not: one exactly at the limit is shown.
pub proof fn law_size_limit(
    entry: Entry,
    config: StructConfig,
    max: u64,
    depth: nat,
    prefix: Seq<char>,
    last: bool,
)
    requires
        entry.kind is Directory,
        config.max_size_bytes == Some(max),
        config.git_files matches Some(set) ==> passes_git(entry, set@),
        config.git_files is None ==> !default_dir_rule(entry.name@, config) && !custom_rule(entry.name@, config),
    ensures
        entry.weigh(Measure::Bytes, None) > max ==> decision(entry, config) is PrunedOversized && entry_lines(
            entry,
            config,
            depth,
            prefix,
            last,
        ) == seq![rendered(entry, decision(entry, config), prefix, last)],
        entry.weigh(Measure::Bytes, None) <= max ==> decision(entry, config) is Shown,
{
}

} // verus!
