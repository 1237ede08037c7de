//! The configuration of one walk.

use vstd::prelude::*;
use crate::paths::FsPath;
use crate::pattern::Pattern;

verus! {

/// The relationship to the git repository that a walk is restricted to.
#[derive(Debug, Clone, Copy, PartialEq, Eq, Structural)]
pub enum GitMode {
    /// In the index.
    Indexed,
    /// Not in the repository, and not ignored by it.
    Untracked,
    /// Staged: the index differs from the last commit.
    Staged,
    /// Changed and not staged: the working tree differs from the index.
    Changed,
    /// The last commit of each directory. No set of paths stands for it, so
    /// a walk in this mode is not restricted.
    History,
}

/// What one walk is configured with. It is made once and only read while
/// the walk runs.
pub struct StructConfig {
    /// How many levels of directories are expanded below the root;
    /// `usize::MAX` stands for no bound.
    pub depth: usize,
    /// The compiled patterns of names to ignore.
    pub custom_ignores: Vec<Pattern>,
    /// The size above which a directory is not expanded.
    pub max_size_bytes: Option<u64>,
    /// The paths that have the requested relationship to the repository.
    /// Where it is present the walk shows these and nothing else.
    pub git_files: Option<Vec<FsPath>>,
    /// The relationship that `git_files` was asked for.
    pub git_mode: Option<GitMode>,
    /// Whether file lines carry their size.
    pub show_size: bool,
    /// Whether the built-in directory list is switched off.
    pub skip_defaults: bool,
    /// The one directory name that is taken off the built-in list.
    pub skip_specific: Option<String>,
}

} // verus!
