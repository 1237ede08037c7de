//! What the relationships to a git repository mean, in terms of the
//! status that git reports for a path.

use vstd::prelude::*;
use crate::config::GitMode;
use crate::paths::FsPath;

verus! {

/// The parts of a path's git status that the relationships are decided
/// by.
#[derive(Clone, Copy, Debug, PartialEq, Eq, Structural)]
pub struct StatusFlags {
    /// New in the index.
    pub index_new: bool,
    /// Modified in the index.
    pub index_modified: bool,
    /// Deleted in the index.
    pub index_deleted: bool,
    /// New in the working tree.
    pub wt_new: bool,
    /// Modified in the working tree.
    pub wt_modified: bool,
    /// Deleted in the working tree.
    pub wt_deleted: bool,
    /// Ignored by the repository's rules.
    pub ignored: bool,
}

/// What a status query is asked to include.
#[derive(Clone, Copy, Debug, PartialEq, Eq, Structural)]
pub struct StatusQuery {
    pub include_untracked: bool,
    pub recurse_untracked_dirs: bool,
}

/// The status query that a relationship is answered from. The index and
/// the history are not answered from a status query.
pub open spec fn query_for(mode: GitMode) -> Option<StatusQuery> {
    match mode {
        GitMode::Untracked => Some(StatusQuery { include_untracked: true, recurse_untracked_dirs: true }),
        GitMode::Staged => Some(StatusQuery { include_untracked: true, recurse_untracked_dirs: false }),
        GitMode::Changed => Some(StatusQuery { include_untracked: false, recurse_untracked_dirs: false }),
        GitMode::Indexed | GitMode::History => None,
    }
}

/// Picks the status query for a relationship.
pub fn status_query(mode: GitMode) -> (query: Option<StatusQuery>)
    ensures
        query == query_for(mode),
{
    match mode {
        GitMode::Untracked => Some(StatusQuery { include_untracked: true, recurse_untracked_dirs: true }),
        GitMode::Staged => Some(StatusQuery { include_untracked: true, recurse_untracked_dirs: false }),
        GitMode::Changed => Some(StatusQuery { include_untracked: false, recurse_untracked_dirs: false }),
        GitMode::Indexed | GitMode::History => None,
    }
}

/// Whether a path with this status has the relationship: untracked is new
/// in the working tree and not ignored; staged is new, modified or deleted
/// in the index; changed is modified or deleted in the working tree. No
/// status says that a path is in the index or in the history.
pub open spec fn has_relationship(mode: GitMode, flags: StatusFlags) -> bool {
    match mode {
        GitMode::Untracked => flags.wt_new && !flags.ignored,
        GitMode::Staged => flags.index_new || flags.index_modified || flags.index_deleted,
        GitMode::Changed => flags.wt_modified || flags.wt_deleted,
        GitMode::Indexed | GitMode::History => false,
    }
}

/// Decides whether a path with this status belongs to the set of a
/// relationship.
pub fn status_selects(mode: GitMode, flags: StatusFlags) -> (b: bool)
    ensures
        b == has_relationship(mode, flags),
{
    match mode {
        GitMode::Untracked => flags.wt_new && !flags.ignored,
        GitMode::Staged => flags.index_new || flags.index_modified || flags.index_deleted,
        GitMode::Changed => flags.wt_modified || flags.wt_deleted,
        GitMode::Indexed | GitMode::History => false,
    }
}

/// A path of the repository, relative to its working directory, with the
/// status that git reports for it.
pub struct Reported {
    pub flags: StatusFlags,
    pub path: FsPath,
}

/// The paths, under `workdir`, of those among the first `n` reported
/// paths that have the relationship.
pub open spec fn selected_paths(mode: GitMode, workdir: Seq<Seq<char>>, reported: Seq<Reported>, n: nat) -> Seq<
    Seq<Seq<char>>,
>
    decreases n,
{
    if n == 0 || n > reported.len() {
        Seq::empty()
    } else {
        let rest = selected_paths(mode, workdir, reported, (n - 1) as nat);
        if has_relationship(mode, reported[n - 1].flags) {
            rest.push(workdir + reported[n - 1].path@)
        } else {
            rest
        }
    }
}

/// The paths of the first `n` of `relative`, each put under `workdir`.
pub open spec fn paths_under(workdir: Seq<Seq<char>>, relative: Seq<FsPath>, n: nat) -> Seq<Seq<Seq<char>>>
    decreases n,
{
    if n == 0 || n > relative.len() {
        Seq::empty()
    } else {
        paths_under(workdir, relative, (n - 1) as nat).push(workdir + relative[n - 1]@)
    }
}

/// The paths of a vector, as specification values.
pub open spec fn paths_view(paths: Seq<FsPath>) -> Seq<Seq<Seq<char>>> {
    paths.map_values(|p: FsPath| p@)
}

/// The working directory, as a specification value.
pub open spec fn workdir_view(workdir: Option<&FsPath>) -> Option<Seq<Seq<char>>> {
    match workdir {
        Some(dir) => Some(dir@),
        None => None,
    }
}

/// The set of a relationship that is decided by status, for a repository
/// with a working directory; the empty set for one without.
pub open spec fn status_set(mode: GitMode, workdir: Option<Seq<Seq<char>>>, reported: Seq<Reported>) -> Seq<
    Seq<Seq<char>>,
> {
    match workdir {
        Some(dir) => selected_paths(mode, dir, reported, reported.len()),
        None => Seq::empty(),
    }
}

/// Puts together the set of a relationship from the statuses that git
/// has reported.
pub fn select_paths(mode: GitMode, workdir: Option<&FsPath>, reported: &Vec<Reported>) -> (paths: Vec<FsPath>)
    ensures
        paths_view(paths@) == status_set(mode, workdir_view(workdir), reported@),
{
    let mut paths: Vec<FsPath> = Vec::new();
    assert(paths_view(paths@) =~= Seq::<Seq<Seq<char>>>::empty());
    match workdir {
        None => {},
        Some(dir) => {
            let n: usize = reported.len();
            let mut i: usize = 0;
            while i < n
                invariant
                    0 <= i <= n,
                    n == reported.len(),
                    paths_view(paths@) == selected_paths(mode, dir@, reported@, i as nat),
                decreases n - i,
            {
                if status_selects(mode, reported[i].flags) {
                    let ghost before = paths_view(paths@);
                    let full = dir.join(&reported[i].path);
                    let ghost view = full@;
                    paths.push(full);
                    assert(paths_view(paths@) =~= before.push(view));
                }
                i += 1;
            }
        },
    }
    paths
}

/// The paths in the index of a repository, each under its working
/// directory; none for a repository without one.
pub fn get_git_tracked_files(workdir: Option<&FsPath>, index: &Vec<FsPath>) -> (paths: Vec<FsPath>)
    ensures
        paths_view(paths@) == match workdir_view(workdir) {
            Some(dir) => paths_under(dir, index@, index@.len()),
            None => Seq::empty(),
        },
{
    let mut paths: Vec<FsPath> = Vec::new();
    assert(paths_view(paths@) =~= Seq::<Seq<Seq<char>>>::empty());
    match workdir {
        None => {},
        Some(dir) => {
            let n: usize = index.len();
            let mut i: usize = 0;
            while i < n
                invariant
                    0 <= i <= n,
                    n == index.len(),
                    paths_view(paths@) == paths_under(dir@, index@, i as nat),
                decreases n - i,
            {
                let ghost before = paths_view(paths@);
                let full = dir.join(&index[i]);
                let ghost view = full@;
                paths.push(full);
                assert(paths_view(paths@) =~= before.push(view));
                i += 1;
            }
        },
    }
    paths
}

/// The paths that are new in the working tree and not ignored.
pub fn get_git_untracked_files(workdir: Option<&FsPath>, reported: &Vec<Reported>) -> (paths: Vec<FsPath>)
    ensures
        paths_view(paths@) == status_set(GitMode::Untracked, workdir_view(workdir), reported@),
{
    select_paths(GitMode::Untracked, workdir, reported)
}

/// The paths that are new, modified or deleted in the index.
pub fn get_git_staged_files(workdir: Option<&FsPath>, reported: &Vec<Reported>) -> (paths: Vec<FsPath>)
    ensures
        paths_view(paths@) == status_set(GitMode::Staged, workdir_view(workdir), reported@),
{
    select_paths(GitMode::Staged, workdir, reported)
}

/// The paths that are modified or deleted in the working tree.
pub fn get_git_changed_files(workdir: Option<&FsPath>, reported: &Vec<Reported>) -> (paths: Vec<FsPath>)
    ensures
        paths_view(paths@) == status_set(GitMode::Changed, workdir_view(workdir), reported@),
{
    select_paths(GitMode::Changed, workdir, reported)
}

} // verus!
