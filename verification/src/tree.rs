//! The snapshot of a directory tree that the library works on, and the
//! totals that are taken over it.

use vstd::prelude::*;
use crate::ignores::{is_default_ignored_dir, is_default_ignored_file, should_ignore_dir, should_ignore_file};
use crate::pattern::{matches_any, matches_custom_pattern, Pattern};
use crate::paths::FsPath;

verus! {

/// What kind of thing a directory entry is. A symbolic link is a kind of
/// its own, whatever it points to.
#[derive(Clone, Copy, Debug, PartialEq, Eq, Structural)]
pub enum EntryKind {
    File,
    Directory,
    Symlink,
    Other,
}

/// One entry of the snapshot, with the entries below it.
pub struct Entry {
    /// The entry's base name.
    pub name: String,
    /// The path under which the entry is reported and looked up.
    pub path: FsPath,
    pub kind: EntryKind,
    /// The byte size that the file system reports for the entry; zero where
    /// it reports none.
    pub size: u64,
    /// Whether the entry is a file that may be executed.
    pub executable: bool,
    /// Where a symbolic link points, if that could be read.
    pub target: Option<String>,
    /// The listing of the entry; empty where it cannot be listed.
    pub children: Vec<Entry>,
}

impl Entry {
    /// A regular file.
    pub fn file(name: String, path: FsPath, size: u64, executable: bool) -> (entry: Entry)
        ensures
            entry.name == name,
            entry.path == path,
            entry.kind is File,
            entry.size == size,
            entry.executable == executable,
            entry.target is None,
            entry.children@.len() == 0,
    {
        Entry { name, path, kind: EntryKind::File, size, executable, target: None, children: Vec::new() }
    }

    /// A directory with its listing.
    pub fn directory(name: String, path: FsPath, children: Vec<Entry>) -> (entry: Entry)
        ensures
            entry.name == name,
            entry.path == path,
            entry.kind is Directory,
            entry.size == 0,
            !entry.executable,
            entry.target is None,
            entry.children == children,
    {
        Entry { name, path, kind: EntryKind::Directory, size: 0, executable: false, target: None, children }
    }

    /// A symbolic link, with its target where that could be read.
    pub fn symlink(name: String, path: FsPath, target: Option<String>, size: u64) -> (entry: Entry)
        ensures
            entry.name == name,
            entry.path == path,
            entry.kind is Symlink,
            entry.size == size,
            !entry.executable,
            entry.target == target,
            entry.children@.len() == 0,
    {
        Entry { name, path, kind: EntryKind::Symlink, size, executable: false, target, children: Vec::new() }
    }

    /// Something that is neither a file, a directory nor a link.
    pub fn other(name: String, path: FsPath, size: u64) -> (entry: Entry)
        ensures
            entry.name == name,
            entry.path == path,
            entry.kind is Other,
            entry.size == size,
            !entry.executable,
            entry.target is None,
            entry.children@.len() == 0,
    {
        Entry { name, path, kind: EntryKind::Other, size, executable: false, target: None, children: Vec::new() }
    }
}

/// What a total is taken of.
#[derive(Clone, Copy, Debug, PartialEq, Eq, Structural)]
pub enum Measure {
    /// The bytes of regular files.
    Bytes,
    /// The number of regular files.
    Files,
    /// The number of directories.
    Dirs,
}

/// Whether a total that skips ignored entries passes over an entry of this
/// name and kind: a directory that is ignored by default or by a pattern,
/// or a file that is.
pub open spec fn filtered_out(name: Seq<char>, kind: EntryKind, filter: Option<Seq<Pattern>>) -> bool {
    match filter {
        None => false,
        Some(patterns) => match kind {
            EntryKind::Directory => is_default_ignored_dir(name) || matches_any(name, patterns),
            EntryKind::File => is_default_ignored_file(name) || matches_any(name, patterns),
            _ => false,
        },
    }
}

impl Entry {
    /// What the entry itself adds to a total.
    pub open spec fn own_weight(&self, what: Measure) -> nat {
        match (what, self.kind) {
            (Measure::Bytes, EntryKind::File) => self.size as nat,
            (Measure::Files, EntryKind::File) => 1,
            (Measure::Dirs, EntryKind::Directory) => 1,
            _ => 0,
        }
    }

    /// The total of `what` over the entry and everything below it. Only
    /// directories are descended into, so nothing behind a symbolic link is
    /// counted. With a `filter`, ignored entries and what lies below them
    /// are left out.
    pub open spec fn weigh(&self, what: Measure, filter: Option<Seq<Pattern>>) -> nat
        decreases self, self.children@.len() + 1,
    {
        if filtered_out(self.name@, self.kind, filter) {
            0
        } else if self.kind is Directory {
            self.own_weight(what) + self.weigh_children(what, filter, self.children@.len())
        } else {
            self.own_weight(what)
        }
    }

    /// The total of `what` over the first `n` children.
    pub open spec fn weigh_children(&self, what: Measure, filter: Option<Seq<Pattern>>, n: nat) -> nat
        decreases self, n,
    {
        if n == 0 || n > self.children@.len() {
            0
        } else {
            self.weigh_children(what, filter, (n - 1) as nat) + self.children@[n - 1].weigh(
                what,
                filter,
            )
        }
    }

    /// The total of `what` over everything below the entry, the entry
    /// itself left out.
    pub open spec fn weigh_below(&self, what: Measure, filter: Option<Seq<Pattern>>) -> nat {
        self.weigh_children(what, filter, self.children@.len())
    }

    /// Whether every unfiltered total over the entry fits in 64 bits.
    pub open spec fn fits(&self) -> bool {
        &&& self.weigh(Measure::Bytes, None) <= u64::MAX
        &&& self.weigh(Measure::Files, None) <= u64::MAX
        &&& self.weigh(Measure::Dirs, None) <= u64::MAX
    }

    /// The total over the first `n` children grows with `n`, and no child
    /// weighs more than all of them together.
    pub proof fn lemma_weigh_children_grows(&self, what: Measure, filter: Option<Seq<Pattern>>, n: nat, m: nat)
        requires
            n <= m <= self.children@.len(),
        ensures
            self.weigh_children(what, filter, n) <= self.weigh_children(what, filter, m),
            n < m ==> self.weigh_children(what, filter, n) + self.children@[n as int].weigh(what, filter)
                <= self.weigh_children(what, filter, m),
        decreases m,
    {
        if n < m {
            self.lemma_weigh_children_grows(what, filter, n, (m - 1) as nat);
        }
    }

    /// A filter can only lower a total.
    pub proof fn lemma_filter_lowers(&self, what: Measure, filter: Option<Seq<Pattern>>)
        ensures
            self.weigh(what, filter) <= self.weigh(what, None),
        decreases self, self.children@.len() + 1,
    {
        if !filtered_out(self.name@, self.kind, filter) && self.kind is Directory {
            self.lemma_filter_lowers_children(what, filter, self.children@.len());
        }
    }

    /// A filter can only lower the total over the first `n` children.
    pub proof fn lemma_filter_lowers_children(&self, what: Measure, filter: Option<Seq<Pattern>>, n: nat)
        ensures
            self.weigh_children(what, filter, n) <= self.weigh_children(what, None, n),
        decreases self, n,
    {
        if n > 0 && n <= self.children@.len() {
            self.lemma_filter_lowers_children(what, filter, (n - 1) as nat);
            self.children@[n - 1].lemma_filter_lowers(what, filter);
        }
    }

    /// Every child of an entry that fits, and is a directory, fits.
    pub proof fn lemma_child_fits(&self, i: int)
        requires
            self.fits(),
            self.kind is Directory,
            0 <= i < self.children@.len(),
        ensures
            self.children@[i].fits(),
    {
        let len = self.children@.len();
        self.lemma_weigh_children_grows(Measure::Bytes, None, i as nat, len);
        self.lemma_weigh_children_grows(Measure::Files, None, i as nat, len);
        self.lemma_weigh_children_grows(Measure::Dirs, None, i as nat, len);
    }
}

/// The patterns of an optional filter, as a specification value.
pub open spec fn filter_view(filter: Option<&[Pattern]>) -> Option<Seq<Pattern>> {
    match filter {
        None => None,
        Some(patterns) => Some(patterns@),
    }
}

/// Decides `filtered_out`.
pub fn is_filtered_out(name: &str, kind: EntryKind, filter: Option<&[Pattern]>) -> (b: bool)
    ensures
        b == filtered_out(name@, kind, filter_view(filter)),
{
    match filter {
        None => false,
        Some(patterns) => match kind {
            EntryKind::Directory => should_ignore_dir(name) || matches_custom_pattern(name, patterns),
            EntryKind::File => should_ignore_file(name) || matches_custom_pattern(name, patterns),
            _ => false,
        },
    }
}

impl Entry {
    /// Decides what the entry itself adds to a total.
    pub fn own(&self, what: Measure) -> (w: u64)
        ensures
            w == self.own_weight(what),
    {
        match (what, self.kind) {
            (Measure::Bytes, EntryKind::File) => self.size,
            (Measure::Files, EntryKind::File) => 1,
            (Measure::Dirs, EntryKind::Directory) => 1,
            _ => 0,
        }
    }

    /// Takes the total of `what` over everything below the entry, or finds
    /// that it does not fit in 64 bits.
    pub fn checked_measure_below(&self, what: Measure, filter: Option<&[Pattern]>) -> (total: Option<u64>)
        ensures
            match total {
                Some(t) => t == self.weigh_below(what, filter_view(filter)),
                None => self.weigh_below(what, filter_view(filter)) > u64::MAX,
            },
        decreases self, 0nat,
    {
        let ghost f = filter_view(filter);
        let n: usize = self.children.len();
        let mut total: u64 = 0;
        let mut i: usize = 0;
        while i < n
            invariant
                0 <= i <= n,
                n == self.children@.len(),
                f == filter_view(filter),
                total == self.weigh_children(what, f, i as nat),
            decreases n - i,
        {
            proof {
                self.lemma_weigh_children_grows(what, f, i as nat, n as nat);
                self.lemma_weigh_children_grows(what, f, (i + 1) as nat, n as nat);
            }
            let below: u64 = match self.children[i].checked_measure(what, filter) {
                Some(t) => t,
                None => {
                    return None;
                },
            };
            total = match total.checked_add(below) {
                Some(t) => t,
                None => {
                    return None;
                },
            };
            i += 1;
        }
        Some(total)
    }

    /// Takes the total of `what` over the entry and everything below it,
    /// or finds that it does not fit in 64 bits.
    pub fn checked_measure(&self, what: Measure, filter: Option<&[Pattern]>) -> (total: Option<u64>)
        ensures
            match total {
                Some(t) => t == self.weigh(what, filter_view(filter)),
                None => self.weigh(what, filter_view(filter)) > u64::MAX,
            },
        decreases self, 1nat,
    {
        if is_filtered_out(self.name.as_str(), self.kind, filter) {
            return Some(0);
        }
        let own: u64 = self.own(what);
        match self.kind {
            EntryKind::Directory => match self.checked_measure_below(what, filter) {
                Some(below) => own.checked_add(below),
                None => None,
            },
            _ => Some(own),
        }
    }

    /// The total of `what` over the entry and everything below it.
    pub fn measure(&self, what: Measure, filter: Option<&[Pattern]>) -> (total: u64)
        requires
            self.weigh(what, None) <= u64::MAX,
        ensures
            total == self.weigh(what, filter_view(filter)),
    {
        proof {
            self.lemma_filter_lowers(what, filter_view(filter));
        }
        match self.checked_measure(what, filter) {
            Some(t) => t,
            None => 0,
        }
    }

    /// The total of `what` over everything below the entry.
    pub fn measure_below(&self, what: Measure, filter: Option<&[Pattern]>) -> (total: u64)
        requires
            self.weigh_below(what, None) <= u64::MAX,
        ensures
            total == self.weigh_below(what, filter_view(filter)),
    {
        proof {
            self.lemma_filter_lowers_children(what, filter_view(filter), self.children@.len());
        }
        match self.checked_measure_below(what, filter) {
            Some(t) => t,
            None => 0,
        }
    }

    /// Whether the entry's totals fit in 64 bits, so that the functions
    /// which take totals can be called on it.
    pub fn within_limits(&self) -> (ok: bool)
        ensures
            ok == self.fits(),
    {
        self.checked_measure(Measure::Bytes, None).is_some() && self.checked_measure(
            Measure::Files,
            None,
        ).is_some() && self.checked_measure(Measure::Dirs, None).is_some()
    }
}

} // verus!
