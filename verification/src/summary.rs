//! The summary of one directory: a block for each of its entries, with
//! totals over everything and over what the ignore rules leave.

use vstd::prelude::*;
use crate::histogram::{
    count_texts, counts_view, histogram, lowered_extension, most_frequent, pick_most_frequent, extension, Count,
    CountView,
};
use crate::ignores::{is_default_ignored_dir, is_default_ignored_file, should_ignore_dir, should_ignore_file};
use crate::pattern::{matches_any, matches_custom_pattern, Pattern};
use crate::text::{decimal, decimal_string};
use crate::tree::{filtered_out, is_filtered_out, Entry, EntryKind, Measure};
use crate::utils::{format_size, size_text};

verus! {

/// How many types the summary of a directory names.
pub const TYPES_SHOWN: usize = 10;

/// The numbers of directories and files below a directory, and the bytes
/// of those files.
#[derive(Clone, Copy, Debug, PartialEq, Eq, Structural)]
pub struct Totals {
    pub dirs: u64,
    pub files: u64,
    pub bytes: u64,
}

/// The totals below a directory, over everything or over what a filter
/// leaves.
pub open spec fn totals_below(dir: Entry, filter: Option<Seq<Pattern>>) -> Totals {
    Totals {
        dirs: dir.weigh_below(Measure::Dirs, filter) as u64,
        files: dir.weigh_below(Measure::Files, filter) as u64,
        bytes: dir.weigh_below(Measure::Bytes, filter) as u64,
    }
}

/// Whether the filter has left something out: a visible total is smaller
/// than the total over everything.
pub open spec fn totals_differ(total: Totals, visible: Totals) -> bool {
    visible.dirs < total.dirs || visible.files < total.files || visible.bytes < total.bytes
}

/// The lower-cased extensions of the files at and below `entry` that the
/// ignore rules leave, in the order in which a walk comes by them.
pub open spec fn extensions(entry: Entry, ignores: Seq<Pattern>) -> Seq<Seq<char>>
    decreases entry, entry.children@.len() + 1,
{
    if filtered_out(entry.name@, entry.kind, Some(ignores)) {
        Seq::empty()
    } else if entry.kind is Directory {
        extensions_below(entry, ignores, entry.children@.len())
    } else if entry.kind is File {
        match lowered_extension(entry.name@) {
            Some(ext) => seq![ext],
            None => Seq::empty(),
        }
    } else {
        Seq::empty()
    }
}

/// The extensions of the visible files at and below the first `n`
/// children of `entry`.
pub open spec fn extensions_below(entry: Entry, ignores: Seq<Pattern>, n: nat) -> Seq<Seq<char>>
    decreases entry, n,
{
    if n == 0 || n > entry.children@.len() {
        Seq::empty()
    } else {
        extensions_below(entry, ignores, (n - 1) as nat) + extensions(entry.children@[n - 1], ignores)
    }
}

/// Gathers the extensions of the visible files at and below the children
/// of `entry` behind what `out` holds already.
pub fn collect_extensions_below(entry: &Entry, ignores: &[Pattern], out: &mut Vec<String>)
    ensures
        final(out).deep_view() == old(out).deep_view() + extensions_below(
            *entry,
            ignores@,
            entry.children@.len(),
        ),
    decreases entry, 0nat,
{
    let ghost start = out.deep_view();
    let n: usize = entry.children.len();
    let mut i: usize = 0;
    assert(out.deep_view() =~= start + extensions_below(*entry, ignores@, 0));
    while i < n
        invariant
            0 <= i <= n,
            n == entry.children@.len(),
            out.deep_view() == start + extensions_below(*entry, ignores@, i as nat),
        decreases n - i,
    {
        let ghost below = extensions_below(*entry, ignores@, i as nat);
        let ghost next = extensions(entry.children@[i as int], ignores@);
        collect_extensions(&entry.children[i], ignores, out);
        assert(start + below + next =~= start + (below + next));
        i += 1;
    }
}

/// Gathers the extensions of the visible files at and below `entry`
/// behind what `out` holds already.
pub fn collect_extensions(entry: &Entry, ignores: &[Pattern], out: &mut Vec<String>)
    ensures
        final(out).deep_view() == old(out).deep_view() + extensions(*entry, ignores@),
    decreases entry, 1nat,
{
    let ghost start = out.deep_view();
    assert(start + Seq::<Seq<char>>::empty() =~= start);
    if is_filtered_out(entry.name.as_str(), entry.kind, Some(ignores)) {
        return ;
    }
    match entry.kind {
        EntryKind::Directory => {
            collect_extensions_below(entry, ignores, out);
        },
        EntryKind::File => match extension(entry.name.as_str()) {
            Some(ext) => {
                let ghost text = ext@;
                out.push(ext);
                assert(out.deep_view() =~= start + seq![text]);
            },
            None => {},
        },
        _ => {},
    }
}

/// An entry that a summary has passed over, with the number of files
/// below it where it is a directory.
#[derive(Debug)]
pub struct Skipped {
    pub name: String,
    pub files: Option<u64>,
}

/// A passed-over entry as a specification value.
pub struct SkippedView {
    pub name: Seq<char>,
    pub files: Option<u64>,
}

impl View for Skipped {
    type V = SkippedView;

    open spec fn view(&self) -> SkippedView {
        SkippedView { name: self.name@, files: self.files }
    }
}

/// The passed-over entries of a vector, as specification values.
pub open spec fn skipped_view(list: Seq<Skipped>) -> Seq<SkippedView> {
    list.map_values(|s: Skipped| s@)
}

/// Whether a directory of this name is ignored, by default or by a
/// pattern.
pub open spec fn ignored_dir(name: Seq<char>, ignores: Seq<Pattern>) -> bool {
    is_default_ignored_dir(name) || matches_any(name, ignores)
}

/// The ignored directories among the first `n` children of `dir`, each
/// with the number of all the files below it.
pub open spec fn ignored_children(dir: Entry, ignores: Seq<Pattern>, n: nat) -> Seq<SkippedView>
    decreases n,
{
    if n == 0 || n > dir.children@.len() {
        Seq::empty()
    } else {
        let rest = ignored_children(dir, ignores, (n - 1) as nat);
        let child = dir.children@[n - 1];
        if child.kind is Directory && ignored_dir(child.name@, ignores) {
            rest.push(SkippedView { name: child.name@, files: Some(child.weigh(Measure::Files, None) as u64) })
        } else {
            rest
        }
    }
}

/// What the summary says of one directory.
pub struct DirectoryDetail {
    /// The totals over everything below the directory.
    pub total: Totals,
    /// The totals over what the ignore rules leave.
    pub visible: Totals,
    /// The most frequent extensions among the visible files.
    pub types: Vec<Count>,
    /// The ignored directories directly below the directory.
    pub ignored: Vec<Skipped>,
}

/// The detail of a directory as a specification value.
pub struct DirectoryDetailView {
    pub total: Totals,
    pub visible: Totals,
    pub types: Seq<CountView>,
    pub ignored: Seq<SkippedView>,
}

impl View for DirectoryDetail {
    type V = DirectoryDetailView;

    open spec fn view(&self) -> DirectoryDetailView {
        DirectoryDetailView {
            total: self.total,
            visible: self.visible,
            types: counts_view(self.types@),
            ignored: skipped_view(self.ignored@),
        }
    }
}

/// What a summary says of the directory `dir`: the totals of two walks
/// over all that is below it, one that leaves nothing out and one that
/// passes over what is ignored; the ten most frequent extensions of the
/// files that the second walk counts; and the ignored directories directly
/// below `dir`.
pub open spec fn detail_of(dir: Entry, ignores: Seq<Pattern>) -> DirectoryDetailView {
    DirectoryDetailView {
        total: totals_below(dir, None),
        visible: totals_below(dir, Some(ignores)),
        types: most_frequent(
            histogram(extensions_below(dir, ignores, dir.children@.len())),
            TYPES_SHOWN as nat,
        ),
        ignored: ignored_children(dir, ignores, dir.children@.len()),
    }
}

fn is_ignored_dir(name: &str, ignores: &[Pattern]) -> (b: bool)
    ensures
        b == ignored_dir(name@, ignores@),
{
    should_ignore_dir(name) || matches_custom_pattern(name, ignores)
}

fn list_ignored_children(dir: &Entry, ignores: &[Pattern]) -> (list: Vec<Skipped>)
    requires
        dir.fits(),
        dir.kind is Directory,
    ensures
        skipped_view(list@) == ignored_children(*dir, ignores@, dir.children@.len()),
{
    let n: usize = dir.children.len();
    let mut list: Vec<Skipped> = Vec::new();
    let mut i: usize = 0;
    assert(skipped_view(list@) =~= ignored_children(*dir, ignores@, 0));
    while i < n
        invariant
            0 <= i <= n,
            n == dir.children@.len(),
            dir.fits(),
            dir.kind is Directory,
            skipped_view(list@) == ignored_children(*dir, ignores@, i as nat),
        decreases n - i,
    {
        let child = &dir.children[i];
        let is_dir: bool = match child.kind {
            EntryKind::Directory => true,
            _ => false,
        };
        if is_dir && is_ignored_dir(child.name.as_str(), ignores) {
            proof {
                dir.lemma_child_fits(i as int);
            }
            let ghost before = skipped_view(list@);
            let item = Skipped { name: child.name.clone(), files: Some(child.measure(Measure::Files, None)) };
            let ghost view = item@;
            list.push(item);
            assert(skipped_view(list@) =~= before.push(view));
        }
        i += 1;
    }
    list
}

/// Takes the detail of one directory that the summary does not pass over.
pub fn summarize_directory(dir: &Entry, ignores: &[Pattern]) -> (detail: DirectoryDetail)
    requires
        dir.fits(),
        dir.kind is Directory,
    ensures
        detail@ == detail_of(*dir, ignores@),
{
    let all: Option<&[Pattern]> = None;
    let total = Totals {
        dirs: dir.measure_below(Measure::Dirs, all),
        files: dir.measure_below(Measure::Files, all),
        bytes: dir.measure_below(Measure::Bytes, all),
    };
    let visible = Totals {
        dirs: dir.measure_below(Measure::Dirs, Some(ignores)),
        files: dir.measure_below(Measure::Files, Some(ignores)),
        bytes: dir.measure_below(Measure::Bytes, Some(ignores)),
    };
    let mut found: Vec<String> = Vec::new();
    assert(found.deep_view() =~= Seq::<Seq<char>>::empty());
    collect_extensions_below(dir, ignores, &mut found);
    assert(found.deep_view() =~= extensions_below(*dir, ignores@, dir.children@.len()));
    let counts = count_texts(&found);
    let types = pick_most_frequent(&counts, TYPES_SHOWN);
    let ignored = list_ignored_children(dir, ignores);
    DirectoryDetail { total, visible, types, ignored }
}

/// One block of a summary: what it says of one entry of the directory,
/// which is known by its place in the listing.
pub enum Block {
    File { index: usize },
    Directory { index: usize, detail: DirectoryDetail },
}

/// A block as a specification value.
pub enum BlockView {
    File { index: usize },
    Directory { index: usize, detail: DirectoryDetailView },
}

impl View for Block {
    type V = BlockView;

    open spec fn view(&self) -> BlockView {
        match *self {
            Block::File { index } => BlockView::File { index },
            Block::Directory { index, detail } => BlockView::Directory { index, detail: detail@ },
        }
    }
}

/// The blocks of a vector, as specification values.
pub open spec fn blocks_view(blocks: Seq<Block>) -> Seq<BlockView> {
    blocks.map_values(|b: Block| b@)
}

/// Whether a summary passes over an entry at the top: a directory that is
/// ignored by default or by a pattern, or anything else whose name is an
/// ignored file name or matches a pattern.
pub open spec fn skipped_at_top(entry: Entry, ignores: Seq<Pattern>) -> bool {
    if entry.kind is Directory {
        ignored_dir(entry.name@, ignores)
    } else {
        is_default_ignored_file(entry.name@) || matches_any(entry.name@, ignores)
    }
}

/// The block of an entry that is not passed over.
pub open spec fn block_of(entry: Entry, index: usize, ignores: Seq<Pattern>) -> BlockView {
    if entry.kind is Directory {
        BlockView::Directory { index, detail: detail_of(entry, ignores) }
    } else {
        BlockView::File { index }
    }
}

/// The blocks for the first `n` entries of `root`, in the order of the
/// listing.
pub open spec fn blocks_of(root: Entry, ignores: Seq<Pattern>, n: nat) -> Seq<BlockView>
    decreases n,
{
    if n == 0 || n > root.children@.len() {
        Seq::empty()
    } else {
        let rest = blocks_of(root, ignores, (n - 1) as nat);
        let child = root.children@[n - 1];
        if skipped_at_top(child, ignores) {
            rest
        } else {
            rest.push(block_of(child, (n - 1) as usize, ignores))
        }
    }
}

/// How an entry that is passed over at the top is named: a directory with
/// the number of files below it, anything else by its name alone.
pub open spec fn skipped_item(entry: Entry) -> SkippedView {
    SkippedView {
        name: entry.name@,
        files: if entry.kind is Directory {
            Some(entry.weigh(Measure::Files, None) as u64)
        } else {
            None
        },
    }
}

/// The entries passed over among the first `n` of `root`.
pub open spec fn skipped_of(root: Entry, ignores: Seq<Pattern>, n: nat) -> Seq<SkippedView>
    decreases n,
{
    if n == 0 || n > root.children@.len() {
        Seq::empty()
    } else {
        let rest = skipped_of(root, ignores, (n - 1) as nat);
        let child = root.children@[n - 1];
        if skipped_at_top(child, ignores) {
            rest.push(skipped_item(child))
        } else {
            rest
        }
    }
}

/// What an entry of the listing counts for where the summary passes over
/// it: a directory for the files below it and their bytes; anything else,
/// whatever kind of thing it is, for one file of its own size.
pub open spec fn passed_weight(entry: Entry, what: Measure) -> nat {
    if entry.kind is Directory {
        entry.weigh(what, None)
    } else {
        match what {
            Measure::Files => 1,
            Measure::Bytes => entry.size as nat,
            Measure::Dirs => 0,
        }
    }
}

/// The total of `what` over the entries passed over among the first `n`
/// of `root`.
pub open spec fn skipped_weight(root: Entry, ignores: Seq<Pattern>, what: Measure, n: nat) -> nat
    decreases n,
{
    if n == 0 || n > root.children@.len() {
        0
    } else {
        let rest = skipped_weight(root, ignores, what, (n - 1) as nat);
        let child = root.children@[n - 1];
        if skipped_at_top(child, ignores) {
            rest + passed_weight(child, what)
        } else {
            rest
        }
    }
}

/// What the first `n` entries of `root` would count for if the summary
/// passed over all of them.
pub open spec fn listing_weight(root: Entry, what: Measure, n: nat) -> nat
    decreases n,
{
    if n == 0 || n > root.children@.len() {
        0
    } else {
        listing_weight(root, what, (n - 1) as nat) + passed_weight(root.children@[n - 1], what)
    }
}

/// Whether the numbers of a summary of `root` fit in 64 bits, whatever is
/// passed over: the totals over `root`, and what its entries count for
/// together.
pub open spec fn can_be_summarized(root: Entry) -> bool {
    &&& root.fits()
    &&& listing_weight(root, Measure::Files, root.children@.len()) <= u64::MAX
    &&& listing_weight(root, Measure::Bytes, root.children@.len()) <= u64::MAX
}

/// What is passed over counts for no more than the whole listing.
pub proof fn lemma_skipped_weight_bounded(root: Entry, ignores: Seq<Pattern>, what: Measure, n: nat)
    requires
        n <= root.children@.len(),
    ensures
        skipped_weight(root, ignores, what, n) <= listing_weight(root, what, n),
    decreases n,
{
    if n > 0 {
        lemma_skipped_weight_bounded(root, ignores, what, (n - 1) as nat);
    }
}

/// What the first `n` entries count for grows with `n`, and no entry
/// counts for more than all of them together.
pub proof fn lemma_listing_weight_grows(root: Entry, what: Measure, n: nat, m: nat)
    requires
        n <= m <= root.children@.len(),
    ensures
        listing_weight(root, what, n) <= listing_weight(root, what, m),
        n < m ==> listing_weight(root, what, n) + passed_weight(root.children@[n as int], what)
            <= listing_weight(root, what, m),
    decreases m,
{
    if n < m {
        lemma_listing_weight_grows(root, what, n, (m - 1) as nat);
    }
}

fn checked_passed_weight(entry: &Entry, what: Measure) -> (w: Option<u64>)
    ensures
        match w {
            Some(t) => t == passed_weight(*entry, what),
            None => passed_weight(*entry, what) > u64::MAX,
        },
{
    match entry.kind {
        EntryKind::Directory => entry.checked_measure(what, None),
        _ => match what {
            Measure::Files => Some(1),
            Measure::Bytes => Some(entry.size),
            Measure::Dirs => Some(0),
        },
    }
}

fn checked_listing_weight(root: &Entry, what: Measure) -> (total: Option<u64>)
    ensures
        match total {
            Some(t) => t == listing_weight(*root, what, root.children@.len()),
            None => listing_weight(*root, what, root.children@.len()) > u64::MAX,
        },
{
    let n: usize = root.children.len();
    let mut total: u64 = 0;
    let mut i: usize = 0;
    while i < n
        invariant
            0 <= i <= n,
            n == root.children@.len(),
            total == listing_weight(*root, what, i as nat),
        decreases n - i,
    {
        proof {
            lemma_listing_weight_grows(*root, what, i as nat, n as nat);
            lemma_listing_weight_grows(*root, what, (i + 1) as nat, n as nat);
        }
        let here: u64 = match checked_passed_weight(&root.children[i], what) {
            Some(t) => t,
            None => {
                return None;
            },
        };
        total = match total.checked_add(here) {
            Some(t) => t,
            None => {
                return None;
            },
        };
        i += 1;
    }
    Some(total)
}

/// Whether the numbers of a summary of `root` fit in 64 bits, so that
/// `display_summary` can be called on it.
pub fn summary_within_limits(root: &Entry) -> (ok: bool)
    ensures
        ok == can_be_summarized(*root),
{
    root.within_limits() && checked_listing_weight(root, Measure::Files).is_some() && checked_listing_weight(
        root,
        Measure::Bytes,
    ).is_some()
}

/// The summary of one directory.
pub struct Summary {
    /// A block for each entry that is not passed over, in the order of the
    /// listing.
    pub blocks: Vec<Block>,
    /// The entries that are passed over.
    pub ignored: Vec<Skipped>,
    /// The number of files at and below the entries passed over.
    pub ignored_files: u64,
    /// The bytes of those files.
    pub ignored_bytes: u64,
}

/// A summary as a specification value.
pub struct SummaryView {
    pub blocks: Seq<BlockView>,
    pub ignored: Seq<SkippedView>,
    pub ignored_files: u64,
    pub ignored_bytes: u64,
}

impl View for Summary {
    type V = SummaryView;

    open spec fn view(&self) -> SummaryView {
        SummaryView {
            blocks: blocks_view(self.blocks@),
            ignored: skipped_view(self.ignored@),
            ignored_files: self.ignored_files,
            ignored_bytes: self.ignored_bytes,
        }
    }
}

/// The summary of the directory `root`: its entries are gone through once,
/// as the listing holds them. An entry that is ignored is not looked into;
/// such entries are named together at the end, with the files and bytes
/// that they count for: a directory for what is below it, anything else
/// for one file of its size. Every other entry gets a block.
pub open spec fn summary_of(root: Entry, ignores: Seq<Pattern>) -> SummaryView {
    let n = root.children@.len();
    SummaryView {
        blocks: blocks_of(root, ignores, n),
        ignored: skipped_of(root, ignores, n),
        ignored_files: skipped_weight(root, ignores, Measure::Files, n) as u64,
        ignored_bytes: skipped_weight(root, ignores, Measure::Bytes, n) as u64,
    }
}

fn is_skipped_at_top(entry: &Entry, ignores: &[Pattern]) -> (b: bool)
    ensures
        b == skipped_at_top(*entry, ignores@),
{
    match entry.kind {
        EntryKind::Directory => is_ignored_dir(entry.name.as_str(), ignores),
        _ => should_ignore_file(entry.name.as_str()) || matches_custom_pattern(entry.name.as_str(), ignores),
    }
}

/// Summarizes the directory `root`, or returns `None` where `root` is no
/// directory and so cannot be listed.
pub fn display_summary(root: &Entry, custom_ignores: &[Pattern]) -> (r: Option<Summary>)
    requires
        can_be_summarized(*root),
    ensures
        match r {
            Some(summary) => root.kind is Directory && summary@ == summary_of(*root, custom_ignores@),
            None => !(root.kind is Directory),
        },
{
    match root.kind {
        EntryKind::Directory => {},
        _ => {
            return None;
        },
    }
    let ghost ignores = custom_ignores@;
    let n: usize = root.children.len();
    let mut blocks: Vec<Block> = Vec::new();
    let mut ignored: Vec<Skipped> = Vec::new();
    let mut ignored_files: u64 = 0;
    let mut ignored_bytes: u64 = 0;
    let mut i: usize = 0;
    assert(blocks_view(blocks@) =~= blocks_of(*root, ignores, 0));
    assert(skipped_view(ignored@) =~= skipped_of(*root, ignores, 0));
    while i < n
        invariant
            0 <= i <= n,
            n == root.children@.len(),
            can_be_summarized(*root),
            root.kind is Directory,
            ignores == custom_ignores@,
            blocks_view(blocks@) == blocks_of(*root, ignores, i as nat),
            skipped_view(ignored@) == skipped_of(*root, ignores, i as nat),
            ignored_files == skipped_weight(*root, ignores, Measure::Files, i as nat),
            ignored_bytes == skipped_weight(*root, ignores, Measure::Bytes, i as nat),
        decreases n - i,
    {
        let child = &root.children[i];
        proof {
            root.lemma_child_fits(i as int);
            lemma_skipped_weight_bounded(*root, ignores, Measure::Files, (i + 1) as nat);
            lemma_skipped_weight_bounded(*root, ignores, Measure::Bytes, (i + 1) as nat);
            lemma_listing_weight_grows(*root, Measure::Files, (i + 1) as nat, n as nat);
            lemma_listing_weight_grows(*root, Measure::Bytes, (i + 1) as nat, n as nat);
        }
        let is_dir: bool = match child.kind {
            EntryKind::Directory => true,
            _ => false,
        };
        if is_skipped_at_top(child, custom_ignores) {
            let files: u64 = if is_dir {
                child.measure(Measure::Files, None)
            } else {
                1
            };
            let bytes: u64 = if is_dir {
                child.measure(Measure::Bytes, None)
            } else {
                child.size
            };
            ignored_files = ignored_files + files;
            ignored_bytes = ignored_bytes + bytes;
            let ghost before = skipped_view(ignored@);
            let item = Skipped {
                name: child.name.clone(),
                files: if is_dir {
                    Some(files)
                } else {
                    None
                },
            };
            let ghost view = item@;
            ignored.push(item);
            assert(skipped_view(ignored@) =~= before.push(view));
        } else {
            let ghost before = blocks_view(blocks@);
            let block = if is_dir {
                Block::Directory { index: i, detail: summarize_directory(child, custom_ignores) }
            } else {
                Block::File { index: i }
            };
            let ghost view = block@;
            blocks.push(block);
            assert(blocks_view(blocks@) =~= before.push(view));
        }
        i += 1;
    }
    Some(Summary { blocks, ignored, ignored_files, ignored_bytes })
}

/// The text of totals: the numbers of directories and of files, each
/// where it is not zero or where `all` asks for it, and the size, with
/// dots between them.
pub open spec fn totals_text(totals: Totals, all: bool) -> Seq<char> {
    let dirs = if all || totals.dirs > 0 {
        decimal(totals.dirs as nat) + " dirs · "@
    } else {
        Seq::empty()
    };
    let files = if all || totals.files > 0 {
        decimal(totals.files as nat) + " files · "@
    } else {
        Seq::empty()
    };
    dirs + files + size_text(totals.bytes as nat)
}

/// Writes totals out.
pub fn write_totals(totals: Totals, all: bool) -> (text: String)
    ensures
        text@ == totals_text(totals, all),
{
    let mut text = String::new();
    if all || totals.dirs > 0 {
        text.append(decimal_string(totals.dirs).as_str());
        text.append(" dirs · ");
    }
    if all || totals.files > 0 {
        text.append(decimal_string(totals.files).as_str());
        text.append(" files · ");
    }
    text.append(format_size(totals.bytes).as_str());
    assert(text@ =~= totals_text(totals, all));
    text
}

/// The text of one passed-over entry: its name, and the number of its
/// files in brackets where it has one.
pub open spec fn skipped_item_text(item: SkippedView) -> Seq<char> {
    match item.files {
        Some(files) => item.name + "("@ + decimal(files as nat) + " files)"@,
        None => item.name,
    }
}

/// The texts of the first `n` passed-over entries, with commas between
/// them.
pub open spec fn skipped_text(list: Seq<SkippedView>, n: nat) -> Seq<char>
    decreases n,
{
    if n == 0 || n > list.len() {
        Seq::empty()
    } else if n == 1 {
        skipped_item_text(list[0])
    } else {
        skipped_text(list, (n - 1) as nat) + ", "@ + skipped_item_text(list[n - 1])
    }
}

/// Writes a list of passed-over entries out.
pub fn write_skipped(list: &Vec<Skipped>) -> (text: String)
    ensures
        text@ == skipped_text(skipped_view(list@), list@.len()),
{
    let ghost views = skipped_view(list@);
    let n: usize = list.len();
    let mut text = String::new();
    let mut i: usize = 0;
    while i < n
        invariant
            0 <= i <= n,
            n == list@.len(),
            views == skipped_view(list@),
            text@ == skipped_text(views, i as nat),
        decreases n - i,
    {
        let ghost before = text@;
        assert(views[i as int] == list@[i as int]@);
        if i > 0 {
            text.append(", ");
        }
        text.append(list[i].name.as_str());
        match list[i].files {
            Some(files) => {
                text.append("(");
                text.append(decimal_string(files).as_str());
                text.append(" files)");
            },
            None => {},
        }
        assert(text@ =~= skipped_text(views, (i + 1) as nat));
        i += 1;
    }
    text
}

/// The texts of the first `n` counts, each as the text with its number in
/// brackets, with blanks between them.
pub open spec fn counts_text(counts: Seq<CountView>, n: nat) -> Seq<char>
    decreases n,
{
    if n == 0 || n > counts.len() {
        Seq::empty()
    } else if n == 1 {
        counts[0].text + "("@ + decimal(counts[0].times) + ")"@
    } else {
        counts_text(counts, (n - 1) as nat) + " "@ + counts[n - 1].text + "("@ + decimal(counts[n - 1].times)
            + ")"@
    }
}

/// Writes a list of counts out.
pub fn write_counts(counts: &Vec<Count>) -> (text: String)
    ensures
        text@ == counts_text(counts_view(counts@), counts@.len()),
{
    let ghost views = counts_view(counts@);
    let n: usize = counts.len();
    let mut text = String::new();
    let mut i: usize = 0;
    while i < n
        invariant
            0 <= i <= n,
            n == counts@.len(),
            views == counts_view(counts@),
            text@ == counts_text(views, i as nat),
        decreases n - i,
    {
        assert(views[i as int] == counts@[i as int]@);
        if i > 0 {
            text.append(" ");
        }
        text.append(counts[i].text.as_str());
        text.append("(");
        text.append(decimal_string(counts[i].times as u64).as_str());
        text.append(")");
        assert(text@ =~= counts_text(views, (i + 1) as nat));
        i += 1;
    }
    text
}

impl DirectoryDetailView {
    /// Whether the ignore rules have left something out below the
    /// directory.
    pub open spec fn differs(self) -> bool {
        totals_differ(self.total, self.visible)
    }

    /// The line of totals over everything: all three numbers where
    /// something was left out, else only those that are not zero.
    pub open spec fn total_line(self) -> Seq<char> {
        totals_text(self.total, self.differs())
    }

    /// The line of visible totals, where something was left out.
    pub open spec fn visible_line(self) -> Option<Seq<char>> {
        if self.differs() {
            Some(totals_text(self.visible, false))
        } else {
            None
        }
    }

    /// The line of types, where something was left out and there are
    /// types to name.
    pub open spec fn types_line(self) -> Option<Seq<char>> {
        if self.differs() && self.types.len() > 0 {
            Some(counts_text(self.types, self.types.len()))
        } else {
            None
        }
    }

    /// The line of ignored directories, where there are any.
    pub open spec fn ignored_line(self) -> Option<Seq<char>> {
        if self.differs() && self.ignored.len() > 0 {
            Some(skipped_text(self.ignored, self.ignored.len()))
        } else {
            None
        }
    }
}

/// Whether an optional string holds the given optional text.
pub open spec fn holds_text(line: Option<String>, text: Option<Seq<char>>) -> bool {
    match (line, text) {
        (Some(a), Some(b)) => a@ == b,
        (None, None) => true,
        _ => false,
    }
}

impl DirectoryDetail {
    /// Whether the ignore rules have left something out below the
    /// directory.
    pub fn differs(&self) -> (b: bool)
        ensures
            b == self@.differs(),
    {
        self.visible.dirs < self.total.dirs || self.visible.files < self.total.files || self.visible.bytes
            < self.total.bytes
    }

    /// Writes the line of totals over everything.
    pub fn total_line(&self) -> (line: String)
        ensures
            line@ == self@.total_line(),
    {
        write_totals(self.total, self.differs())
    }

    /// Writes the line of visible totals, if there is one.
    pub fn visible_line(&self) -> (line: Option<String>)
        ensures
            holds_text(line, self@.visible_line()),
    {
        if self.differs() {
            Some(write_totals(self.visible, false))
        } else {
            None
        }
    }

    /// Writes the line of types, if there is one.
    pub fn types_line(&self) -> (line: Option<String>)
        ensures
            holds_text(line, self@.types_line()),
    {
        if self.differs() && self.types.len() > 0 {
            Some(write_counts(&self.types))
        } else {
            None
        }
    }

    /// Writes the line of ignored directories, if there is one.
    pub fn ignored_line(&self) -> (line: Option<String>)
        ensures
            holds_text(line, self@.ignored_line()),
    {
        if self.differs() && self.ignored.len() > 0 {
            Some(write_skipped(&self.ignored))
        } else {
            None
        }
    }
}

impl SummaryView {
    /// The closing line on what was passed over at the top: the names, the
    /// number of files and their size, where there is a file among them.
    pub open spec fn ignored_line(self) -> Option<Seq<char>> {
        if self.ignored_files > 0 {
            Some(
                skipped_text(self.ignored, self.ignored.len()) + " · "@ + decimal(self.ignored_files as nat)
                    + " files · "@ + size_text(self.ignored_bytes as nat),
            )
        } else {
            None
        }
    }
}

impl Summary {
    /// Writes the closing line on what was passed over, if there is one.
    pub fn ignored_line(&self) -> (line: Option<String>)
        ensures
            holds_text(line, self@.ignored_line()),
    {
        if self.ignored_files > 0 {
            let mut text = write_skipped(&self.ignored);
            text.append(" · ");
            text.append(decimal_string(self.ignored_files).as_str());
            text.append(" files · ");
            text.append(format_size(self.ignored_bytes).as_str());
            Some(text)
        } else {
            None
        }
    }
}

} // verus!
