//! What the command line asks for, resolved to plain values.

use vstd::prelude::*;
use crate::config::GitMode;
use crate::pattern::{glob_regex, translate_glob, Pattern, PatternError};
use crate::text::{split, split_on, str_equal, trim, trimmed};
use crate::utils::MB;

verus! {

/// Which view a run gives.
#[derive(Clone, Copy, Debug, PartialEq, Eq, Structural)]
pub enum ViewRequest {
    /// The one-level summary.
    Summary,
    /// The tree, expanded `depth` levels below the root; `usize::MAX`
    /// stands for no bound.
    Tree { depth: usize },
}

/// Resolves the depth argument: none asks for the whole tree, zero for the
/// summary, and any other number for that many levels.
pub fn resolve_depth(depth: Option<usize>) -> (view: ViewRequest)
    ensures
        view == match depth {
            None => ViewRequest::Tree { depth: usize::MAX },
            Some(levels) => if levels == 0 {
                ViewRequest::Summary
            } else {
                ViewRequest::Tree { depth: levels }
            },
        },
{
    match depth {
        None => ViewRequest::Tree { depth: usize::MAX },
        Some(levels) => if levels == 0 {
            ViewRequest::Summary
        } else {
            ViewRequest::Tree { depth: levels }
        },
    }
}

/// Resolves the depth of a search: zero asks for no bound.
pub fn search_depth(depth: usize) -> (max: usize)
    ensures
        max == if depth == 0 {
            usize::MAX
        } else {
            depth
        },
{
    if depth == 0 {
        usize::MAX
    } else {
        depth
    }
}

/// The size limit in bytes for a limit given in mebibytes, where it fits
/// in 64 bits.
pub fn megabytes_to_bytes(megabytes: u64) -> (bytes: Option<u64>)
    ensures
        match bytes {
            Some(b) => b == megabytes * MB,
            None => megabytes * MB > u64::MAX,
        },
{
    megabytes.checked_mul(MB)
}

/// Picks the git relationship where several flags are set: changed goes
/// before staged, staged before untracked, untracked before the index, and
/// the index before history.
pub fn select_git_mode(index: bool, untracked: bool, staged: bool, changed: bool, history: bool) -> (mode: Option<
    GitMode,
>)
    ensures
        mode == if changed {
            Some(GitMode::Changed)
        } else if staged {
            Some(GitMode::Staged)
        } else if untracked {
            Some(GitMode::Untracked)
        } else if index {
            Some(GitMode::Indexed)
        } else if history {
            Some(GitMode::History)
        } else {
            None::<GitMode>
        },
{
    if changed {
        Some(GitMode::Changed)
    } else if staged {
        Some(GitMode::Staged)
    } else if untracked {
        Some(GitMode::Untracked)
    } else if index {
        Some(GitMode::Indexed)
    } else if history {
        Some(GitMode::History)
    } else {
        None
    }
}

/// Which ignore rules a run switches off.
pub struct NoIgnore {
    /// The built-in directory list is off.
    pub skip_defaults: bool,
    /// The stored patterns are not used.
    pub skip_config: bool,
    /// This one name is taken off the built-in directory list.
    pub skip_specific: Option<String>,
}

/// Whether `choice` is what the value of the no-ignore option asks for:
/// `all`, `defaults` and `config` switch off what they name, and any
/// other value is a name to take off the built-in list.
pub open spec fn is_no_ignore(choice: NoIgnore, mode: Option<Seq<char>>) -> bool {
    match mode {
        None => !choice.skip_defaults && !choice.skip_config && choice.skip_specific is None,
        Some(value) => if value == "all"@ {
            choice.skip_defaults && choice.skip_config && choice.skip_specific is None
        } else if value == "defaults"@ {
            choice.skip_defaults && !choice.skip_config && choice.skip_specific is None
        } else if value == "config"@ {
            !choice.skip_defaults && choice.skip_config && choice.skip_specific is None
        } else {
            &&& !choice.skip_defaults
            &&& !choice.skip_config
            &&& choice.skip_specific matches Some(name)
            &&& name@ == value
        },
    }
}

/// The text of an optional string.
pub open spec fn text_of(value: Option<&str>) -> Option<Seq<char>> {
    match value {
        Some(s) => Some(s@),
        None => None,
    }
}

/// Resolves the value of the no-ignore option.
pub fn parse_no_ignore(mode: Option<&str>) -> (choice: NoIgnore)
    ensures
        is_no_ignore(choice, text_of(mode)),
{
    match mode {
        None => NoIgnore { skip_defaults: false, skip_config: false, skip_specific: None },
        Some(value) => if str_equal(value, "all") {
            NoIgnore { skip_defaults: true, skip_config: true, skip_specific: None }
        } else if str_equal(value, "defaults") {
            NoIgnore { skip_defaults: true, skip_config: false, skip_specific: None }
        } else if str_equal(value, "config") {
            NoIgnore { skip_defaults: false, skip_config: true, skip_specific: None }
        } else {
            NoIgnore { skip_defaults: false, skip_config: false, skip_specific: Some(String::from_str(value)) }
        },
    }
}

/// The pieces of a comma-separated list, each without the white space
/// around it.
pub open spec fn listed(list: Seq<char>) -> Seq<Seq<char>> {
    split(list, ',').map_values(|piece: Seq<char>| trimmed(piece))
}

/// The globs that a run ignores by: the stored ones first, then those of
/// the comma-separated list given on the command line.
pub open spec fn requested_globs(stored: Seq<Seq<char>>, given: Option<Seq<char>>) -> Seq<Seq<char>> {
    match given {
        Some(list) => stored + listed(list),
        None => stored,
    }
}

/// Puts the globs of a run together.
pub fn gather_globs(stored: &Vec<String>, given: Option<&str>) -> (globs: Vec<String>)
    ensures
        globs.deep_view() == requested_globs(stored.deep_view(), text_of(given)),
{
    let mut globs: Vec<String> = Vec::new();
    let n: usize = stored.len();
    let mut i: usize = 0;
    while i < n
        invariant
            0 <= i <= n,
            n == stored.len(),
            globs.deep_view() == stored.deep_view().take(i as int),
        decreases n - i,
    {
        let ghost before = globs.deep_view();
        globs.push(stored[i].clone());
        assert(globs.deep_view() =~= before.push(stored@[i as int]@));
        assert(globs.deep_view() =~= stored.deep_view().take(i + 1));
        i += 1;
    }
    assert(globs.deep_view() =~= stored.deep_view());
    match given {
        Some(list) => {
            let pieces = split_on(list, ',');
            let ghost parts = split(list@, ',');
            let m: usize = pieces.len();
            let mut j: usize = 0;
            assert(pieces.deep_view().len() == m);
            assert(globs.deep_view() =~= stored.deep_view() + listed(list@).take(0));
            while j < m
                invariant
                    0 <= j <= m,
                    m == pieces.len(),
                    parts == split(list@, ','),
                    pieces.deep_view() == parts,
                    globs.deep_view() == stored.deep_view() + listed(list@).take(j as int),
                decreases m - j,
            {
                let piece = trim(pieces[j].as_str());
                assert(pieces.deep_view()[j as int] == pieces@[j as int]@);
                let ghost before = globs.deep_view();
                let ghost text = piece@;
                globs.push(piece);
                assert(globs.deep_view() =~= before.push(text));
                assert(listed(list@)[j as int] == text);
                assert(globs.deep_view() =~= stored.deep_view() + listed(list@).take(j + 1));
                j += 1;
            }
            assert(listed(list@).take(m as int) =~= listed(list@));
        },
        None => {},
    }
    globs
}

/// The regular expressions that were accepted among the first `n`
/// outcomes of compiling.
pub open spec fn accepted(outcomes: Seq<Result<Pattern, PatternError>>, n: nat) -> Seq<Pattern>
    decreases n,
{
    if n == 0 || n > outcomes.len() {
        Seq::empty()
    } else {
        match outcomes[n - 1] {
            Ok(re) => accepted(outcomes, (n - 1) as nat).push(re),
            Err(_) => accepted(outcomes, (n - 1) as nat),
        }
    }
}

/// Keeps a regular expression that was accepted, and drops an error
/// without a word.
pub fn keep_accepted(kept: &mut Vec<Pattern>, outcome: Result<Pattern, PatternError>)
    ensures
        final(kept)@ == match outcome {
            Ok(re) => old(kept)@.push(re),
            Err(_) => old(kept)@,
        },
{
    match outcome {
        Ok(re) => {
            kept.push(re);
        },
        Err(_) => {},
    }
}

/// Whether `outcomes` are outcomes of compiling the regular expressions
/// for `globs`, one for each: an accepted one keeps the text it was
/// compiled from.
pub open spec fn compiled_from(outcomes: Seq<Result<Pattern, PatternError>>, globs: Seq<Seq<char>>) -> bool {
    &&& outcomes.len() == globs.len()
    &&& forall|i: int|
        0 <= i < outcomes.len() ==> ((#[trigger] outcomes[i]) matches Ok(re) ==> re@ == glob_regex(
            globs[i],
            false,
        ))
}

/// Compiles the globs that a run ignores by. A glob whose regular
/// expression the `regex` crate refuses is dropped; the others are kept
/// in their order.
pub fn compile_ignores(globs: &Vec<String>) -> (patterns: Vec<Pattern>)
    ensures
        exists|outcomes: Seq<Result<Pattern, PatternError>>|
            compiled_from(outcomes, globs.deep_view()) && patterns@ == accepted(outcomes, outcomes.len()),
{
    let n: usize = globs.len();
    let mut patterns: Vec<Pattern> = Vec::new();
    let ghost mut outcomes: Seq<Result<Pattern, PatternError>> = Seq::empty();
    let mut i: usize = 0;
    while i < n
        invariant
            0 <= i <= n,
            n == globs.len(),
            outcomes.len() == i,
            compiled_from(outcomes, globs.deep_view().take(i as int)),
            patterns@ == accepted(outcomes, i as nat),
        decreases n - i,
    {
        let translated = translate_glob(globs[i].as_str(), false);
        let outcome = Pattern::new(translated.as_str());
        proof {
            assert(globs.deep_view()[i as int] == globs@[i as int]@);
            let before = outcomes;
            outcomes = outcomes.push(outcome);
            lemma_accepted_keeps(before, outcomes, i as nat);
        }
        keep_accepted(&mut patterns, outcome);
        i += 1;
    }
    assert(globs.deep_view().take(n as int) =~= globs.deep_view());
    patterns
}

/// What was accepted among the first `n` outcomes does not depend on the
/// outcomes behind them.
pub proof fn lemma_accepted_keeps(
    outcomes: Seq<Result<Pattern, PatternError>>,
    longer: Seq<Result<Pattern, PatternError>>,
    n: nat,
)
    requires
        n <= outcomes.len() <= longer.len(),
        forall|k: int| 0 <= k < n ==> outcomes[k] == longer[k],
    ensures
        accepted(outcomes, n) == accepted(longer, n),
    decreases n,
{
    if n > 0 {
        lemma_accepted_keeps(outcomes, longer, (n - 1) as nat);
    }
}

} // verus!
