//! The stored ignore patterns: the text of their file, and the changes
//! that are made to the list.

use vstd::prelude::*;
use crate::text::{chars_of, split, split_on, str_equal, trim, trimmed};

verus! {

/// Whether a line of the pattern file, its white space taken off, holds a
/// pattern: it is not empty and does not start a comment.
pub open spec fn is_stored_pattern(line: Seq<char>) -> bool {
    line.len() > 0 && line[0] != '#'
}

/// The patterns on the first `n` lines.
pub open spec fn patterns_among(lines: Seq<Seq<char>>, n: nat) -> Seq<Seq<char>>
    decreases n,
{
    if n == 0 || n > lines.len() {
        Seq::empty()
    } else {
        let rest = patterns_among(lines, (n - 1) as nat);
        let line = trimmed(lines[n - 1]);
        if is_stored_pattern(line) {
            rest.push(line)
        } else {
            rest
        }
    }
}

/// The patterns that the text of a pattern file holds: one on each line
/// that is not blank and not a comment, without the white space around
/// it.
pub open spec fn stored_patterns(content: Seq<char>) -> Seq<Seq<char>> {
    patterns_among(split(content, '\n'), split(content, '\n').len())
}

/// Reads the patterns out of the text of a pattern file.
pub fn parse_config_patterns(content: &str) -> (patterns: Vec<String>)
    ensures
        patterns.deep_view() == stored_patterns(content@),
{
    let lines = split_on(content, '\n');
    let ghost all = split(content@, '\n');
    let n: usize = lines.len();
    let mut patterns: Vec<String> = Vec::new();
    let mut i: usize = 0;
    assert(lines.deep_view().len() == n);
    assert(patterns.deep_view() =~= patterns_among(all, 0));
    while i < n
        invariant
            0 <= i <= n,
            n == lines.len(),
            all == split(content@, '\n'),
            lines.deep_view() == all,
            patterns.deep_view() == patterns_among(all, i as nat),
        decreases n - i,
    {
        assert(lines.deep_view()[i as int] == lines@[i as int]@);
        let line = trim(lines[i].as_str());
        let chars = chars_of(line.as_str());
        if chars.len() > 0 && chars[0] != '#' {
            let ghost before = patterns.deep_view();
            let ghost text = line@;
            patterns.push(line);
            assert(patterns.deep_view() =~= before.push(text));
        }
        i += 1;
    }
    patterns
}

/// The first `n` patterns, each on a line of its own.
pub open spec fn joined(patterns: Seq<Seq<char>>, n: nat) -> Seq<char>
    decreases n,
{
    if n == 0 || n > patterns.len() {
        Seq::empty()
    } else if n == 1 {
        patterns[0]
    } else {
        joined(patterns, (n - 1) as nat) + seq!['\n'] + patterns[n - 1]
    }
}

/// Writes the text of the pattern file: the patterns with a line break
/// between one and the next.
pub fn write_patterns(patterns: &Vec<String>) -> (content: String)
    ensures
        content@ == joined(patterns.deep_view(), patterns.len() as nat),
{
    let ghost all = patterns.deep_view();
    let n: usize = patterns.len();
    let mut content = String::new();
    let mut i: usize = 0;
    while i < n
        invariant
            0 <= i <= n,
            n == patterns.len(),
            all == patterns.deep_view(),
            content@ == joined(all, i as nat),
        decreases n - i,
    {
        proof {
            reveal_strlit("\n");
            assert(all[i as int] == patterns@[i as int]@);
        }
        if i > 0 {
            content.append("\n");
        }
        content.append(patterns[i].as_str());
        assert(content@ =~= joined(all, (i + 1) as nat));
        i += 1;
    }
    content
}

/// Whether the list holds the pattern.
pub fn holds_pattern(patterns: &Vec<String>, pattern: &str) -> (b: bool)
    ensures
        b == patterns.deep_view().contains(pattern@),
{
    let ghost all = patterns.deep_view();
    let mut i: usize = 0;
    while i < patterns.len()
        invariant
            0 <= i <= patterns.len(),
            all == patterns.deep_view(),
            forall|k: int| 0 <= k < i ==> all[k] != pattern@,
        decreases patterns.len() - i,
    {
        assert(all[i as int] == patterns@[i as int]@);
        if str_equal(patterns[i].as_str(), pattern) {
            return true;
        }
        i += 1;
    }
    false
}

/// Adds a pattern behind the others, unless the list holds it already.
/// Returns whether it was added.
pub fn add_pattern(patterns: &mut Vec<String>, pattern: String) -> (added: bool)
    ensures
        added == !old(patterns).deep_view().contains(pattern@),
        final(patterns).deep_view() == if added {
            old(patterns).deep_view().push(pattern@)
        } else {
            old(patterns).deep_view()
        },
{
    if holds_pattern(patterns, pattern.as_str()) {
        false
    } else {
        let ghost before = patterns.deep_view();
        let ghost text = pattern@;
        patterns.push(pattern);
        assert(patterns.deep_view() =~= before.push(text));
        true
    }
}

/// The first `n` patterns without those that equal `pattern`.
pub open spec fn without(patterns: Seq<Seq<char>>, pattern: Seq<char>, n: nat) -> Seq<Seq<char>>
    decreases n,
{
    if n == 0 || n > patterns.len() {
        Seq::empty()
    } else if patterns[n - 1] == pattern {
        without(patterns, pattern, (n - 1) as nat)
    } else {
        without(patterns, pattern, (n - 1) as nat).push(patterns[n - 1])
    }
}

/// Takes every occurrence of a pattern off the list. Returns what is
/// left, or `None` where the list did not hold the pattern.
pub fn remove_pattern(patterns: &Vec<String>, pattern: &str) -> (left: Option<Vec<String>>)
    ensures
        match left {
            Some(rest) => patterns.deep_view().contains(pattern@) && rest.deep_view() == without(
                patterns.deep_view(),
                pattern@,
                patterns.len() as nat,
            ),
            None => !patterns.deep_view().contains(pattern@),
        },
{
    if !holds_pattern(patterns, pattern) {
        return None;
    }
    let ghost all = patterns.deep_view();
    let n: usize = patterns.len();
    let mut rest: Vec<String> = Vec::new();
    let mut i: usize = 0;
    assert(rest.deep_view() =~= without(all, pattern@, 0));
    while i < n
        invariant
            0 <= i <= n,
            n == patterns.len(),
            all == patterns.deep_view(),
            rest.deep_view() == without(all, pattern@, i as nat),
        decreases n - i,
    {
        assert(all[i as int] == patterns@[i as int]@);
        if !str_equal(patterns[i].as_str(), pattern) {
            let ghost before = rest.deep_view();
            rest.push(patterns[i].clone());
            assert(rest.deep_view() =~= before.push(all[i as int]));
        }
        i += 1;
    }
    Some(rest)
}

} // verus!
