//! The built-in ignore lists: directory names that are pruned by default
//! and file names that are left out by default.

use vstd::prelude::*;
use crate::text::{chars_of, has_suffix, str_equal};

verus! {

/// Whether `name` is on the built-in list of directory names that hold
/// caches, build output, dependencies, version-control or editor metadata.
pub open spec fn in_dir_deny_list(name: Seq<char>) -> bool {
    ||| name == "__pycache__"@
    ||| name == ".pytest_cache"@
    ||| name == ".mypy_cache"@
    ||| name == ".ruff_cache"@
    ||| name == ".tox"@
    ||| name == "dist"@
    ||| name == "build"@
    ||| name == ".coverage"@
    ||| name == "venv"@
    ||| name == ".venv"@
    ||| name == "env"@
    ||| name == ".env"@
    ||| name == "virtualenv"@
    ||| name == "node_modules"@
    ||| name == ".npm"@
    ||| name == ".yarn"@
    ||| name == ".git"@
    ||| name == ".svn"@
    ||| name == ".hg"@
    ||| name == ".vscode"@
    ||| name == ".idea"@
    ||| name == ".obsidian"@
    ||| name == "target"@
    ||| name == "bin"@
    ||| name == "obj"@
    ||| name == ".next"@
    ||| name == ".nuxt"@
    ||| name == ".DS_Store"@
    ||| name == "chrome_profile"@
    ||| name == "lofi_chrome_profile"@
    ||| name == "GPUCache"@
    ||| name == "ShaderCache"@
    ||| name == "GrShaderCache"@
    ||| name == "Cache"@
    ||| name == "blob_storage"@
}

/// Whether a directory of this name is ignored by default: it is on the
/// deny-list, or its name ends with `.egg-info`.
pub open spec fn is_default_ignored_dir(name: Seq<char>) -> bool {
    in_dir_deny_list(name) || ".egg-info"@.is_suffix_of(name)
}

fn on_dir_deny_list(name: &str) -> (b: bool)
    ensures
        b == in_dir_deny_list(name@),
{
    str_equal(name, "__pycache__") || str_equal(name, ".pytest_cache") || str_equal(
        name,
        ".mypy_cache",
    ) || str_equal(name, ".ruff_cache") || str_equal(name, ".tox") || str_equal(name, "dist")
        || str_equal(name, "build") || str_equal(name, ".coverage") || str_equal(name, "venv")
        || str_equal(name, ".venv") || str_equal(name, "env") || str_equal(name, ".env")
        || str_equal(name, "virtualenv") || str_equal(name, "node_modules") || str_equal(
        name,
        ".npm",
    ) || str_equal(name, ".yarn") || str_equal(name, ".git") || str_equal(name, ".svn")
        || str_equal(name, ".hg") || str_equal(name, ".vscode") || str_equal(name, ".idea")
        || str_equal(name, ".obsidian") || str_equal(name, "target") || str_equal(name, "bin")
        || str_equal(name, "obj") || str_equal(name, ".next") || str_equal(name, ".nuxt")
        || str_equal(name, ".DS_Store") || str_equal(name, "chrome_profile") || str_equal(
        name,
        "lofi_chrome_profile",
    ) || str_equal(name, "GPUCache") || str_equal(name, "ShaderCache") || str_equal(
        name,
        "GrShaderCache",
    ) || str_equal(name, "Cache") || str_equal(name, "blob_storage")
}

/// Decides whether a directory name is ignored by default.
pub fn should_ignore_dir(name: &str) -> (b: bool)
    ensures
        b == is_default_ignored_dir(name@),
{
    if on_dir_deny_list(name) {
        return true;
    }
    let chars = chars_of(name);
    let suffix = chars_of(".egg-info");
    has_suffix(&chars, &suffix)
}

/// The part of `name` after its last `.`, or all of `name` where it holds
/// none.
pub open spec fn last_segment(name: Seq<char>) -> Seq<char>
    decreases name.len(),
{
    if name.len() == 0 {
        name
    } else if name.last() == '.' {
        Seq::empty()
    } else {
        last_segment(name.drop_last()).push(name.last())
    }
}

/// `last_segment` is what follows a `.` that no other `.` follows.
pub proof fn lemma_last_segment(name: Seq<char>, i: int)
    requires
        0 <= i <= name.len(),
        forall|k: int| i <= k < name.len() ==> name[k] != '.',
        i > 0 ==> name[i - 1] == '.',
    ensures
        last_segment(name) == name.skip(i),
    decreases name.len(),
{
    if name.len() == 0 {
        assert(name.skip(i) =~= name);
    } else if i == name.len() {
        assert(name.skip(i) =~= Seq::<char>::empty());
    } else {
        let front = name.drop_last();
        assert forall|k: int| i <= k < front.len() implies front[k] != '.' by {
            assert(front[k] == name[k]);
        }
        lemma_last_segment(front, i);
        assert(front.skip(i).push(name.last()) =~= name.skip(i));
    }
}

/// Where the last segment of `chars` starts: just behind its last `.`, or
/// at zero.
pub fn last_segment_start(chars: &Vec<char>) -> (i: usize)
    ensures
        0 <= i <= chars.len(),
        last_segment(chars@) == chars@.skip(i as int),
        forall|k: int| i <= k < chars.len() ==> chars@[k] != '.',
        i > 0 ==> chars@[i - 1] == '.',
{
    let mut i: usize = chars.len();
    while i > 0 && chars[i - 1] != '.'
        invariant
            0 <= i <= chars.len(),
            forall|k: int| i <= k < chars.len() ==> chars@[k] != '.',
        decreases i,
    {
        i -= 1;
    }
    proof {
        lemma_last_segment(chars@, i as int);
    }
    i
}

/// Whether `ext` is the extension of a compiled Python artifact or of an
/// editor's swap file.
pub open spec fn is_ignored_extension(ext: Seq<char>) -> bool {
    ||| ext == "pyc"@
    ||| ext == "pyo"@
    ||| ext == "pyd"@
    ||| ext == "swp"@
    ||| ext == "swo"@
}

/// Whether a file of this name is ignored by default: its name holds a
/// `.` and what follows the last one is an ignored extension, or it is
/// `package-lock.json` or `.DS_Store`. A name without a `.` has no
/// extension, so a file that is called `pyc` is not ignored.
pub open spec fn is_default_ignored_file(name: Seq<char>) -> bool {
    ||| name.contains('.') && is_ignored_extension(last_segment(name))
    ||| name == "package-lock.json"@
    ||| name == ".DS_Store"@
}

/// Decides whether a file name is ignored by default.
pub fn should_ignore_file(name: &str) -> (b: bool)
    ensures
        b == is_default_ignored_file(name@),
{
    let chars = chars_of(name);
    let start: usize = last_segment_start(&chars);
    let ext = name.substring_char(start, chars.len());
    proof {
        assert(ext@ =~= last_segment(name@));
        if start > 0 {
            assert(name@[start - 1] == '.');
            assert(name@.contains('.'));
        } else {
            assert(!name@.contains('.'));
        }
    }
    let by_extension: bool = start > 0 && (str_equal(ext, "pyc") || str_equal(ext, "pyo") || str_equal(
        ext,
        "pyd",
    ) || str_equal(ext, "swp") || str_equal(ext, "swo"));
    by_extension || str_equal(name, "package-lock.json") || str_equal(name, ".DS_Store")
}

} // verus!
