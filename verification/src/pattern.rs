//! Glob patterns and the regular expressions they are matched with.
//!
//! A glob is translated to an anchored regular expression, character by
//! character, and handed to the `regex` crate. What that crate computes is
//! not restated here: the contracts speak of it through `regex_is_match`.

use vstd::prelude::*;
use regex::Regex;
use crate::text::chars_of;

verus! {

/// The compiled regular expression of the `regex` crate. Nothing of what
/// it holds is visible here.
#[verifier::external_type_specification]
#[verifier::external_body]
pub struct ExRegex(regex::Regex);

/// The error with which the `regex` crate refuses a pattern.
#[verifier::external_type_specification]
#[verifier::external_body]
pub struct ExRegexError(regex::Error);

/// Whether the regular expression written as `pattern` matches somewhere in
/// `haystack`: what `Regex::is_match` returns for a regex that `Regex::new`
/// has compiled from `pattern`.
pub uninterp spec fn regex_is_match(pattern: Seq<char>, haystack: Seq<char>) -> bool;

/// A regular expression that the `regex` crate has accepted, together with
/// the text that it was compiled from. A pattern is only ever made by
/// `Pattern::new`, so the two always belong together.
pub struct Pattern {
    source: String,
    compiled: Regex,
}

impl View for Pattern {
    type V = Seq<char>;

    /// The text of the regular expression.
    closed spec fn view(&self) -> Seq<char> {
        self.source@
    }
}

/// Why a pattern was refused.
#[derive(Debug)]
pub struct PatternError {
    /// What the `regex` crate says of the pattern.
    pub message: String,
}

/// Calls `Regex::new`, which either refuses the text or compiles it with
/// the default settings. The compiled regex is kept beside a copy of the
/// text. Which texts are accepted is left open: that depends on the crate's
/// syntax and on its size limit.
#[verifier::external_body]
fn compile_regex(source: &str) -> (r: Result<Pattern, regex::Error>)
    ensures
        r matches Ok(pattern) ==> pattern@ == source@,
{
    match Regex::new(source) {
        Ok(compiled) => Ok(Pattern { source: source.to_string(), compiled }),
        Err(error) => Err(error),
    }
}

/// Calls `Regex::is_match` on the compiled regex of a pattern. For a regex
/// compiled with the default settings the answer depends on the text of
/// the regular expression and on the haystack alone; it is named by
/// `regex_is_match` and not described here.
#[verifier::external_body]
fn regex_matches(pattern: &Pattern, haystack: &str) -> (b: bool)
    ensures
        b == regex_is_match(pattern@, haystack@),
{
    pattern.compiled.is_match(haystack)
}

/// The text of an error of the `regex` crate, through its `Display`.
/// Nothing is claimed of it.
#[verifier::external_body]
fn error_text(error: &regex::Error) -> (message: String) {
    error.to_string()
}

impl Pattern {
    /// Compiles a regular expression. Where the `regex` crate accepts the
    /// text, the pattern stands for that text.
    pub fn new(source: &str) -> (r: Result<Pattern, PatternError>)
        ensures
            r matches Ok(pattern) ==> pattern@ == source@,
    {
        Pattern::from_outcome(compile_regex(source))
    }

    /// Whether the pattern matches somewhere in `text`.
    pub fn matches(&self, text: &str) -> (b: bool)
        ensures
            b == regex_is_match(self@, text@),
    {
        regex_matches(self, text)
    }

    /// The text of the regular expression.
    pub fn source(&self) -> (text: &str)
        ensures
            text@ == self@,
    {
        self.source.as_str()
    }

    /// Turns the answer of the `regex` crate into the library's own: a
    /// pattern that was accepted is handed on as it is, and a refusal is
    /// replaced by an error that carries what the crate says of it.
    pub fn from_outcome(outcome: Result<Pattern, regex::Error>) -> (r: Result<Pattern, PatternError>)
        ensures
            match outcome {
                Ok(pattern) => r == Ok::<Pattern, PatternError>(pattern),
                Err(_) => r is Err,
            },
    {
        match outcome {
            Ok(pattern) => Ok(pattern),
            Err(error) => Err(PatternError { message: error_text(&error) }),
        }
    }
}

/// The regular expression text for one character of a glob: `*` stands for
/// any run of characters, `?` (where `question` is set) for any single
/// character, every other character for itself.
pub open spec fn glob_char(c: char, question: bool) -> Seq<char> {
    if c == '*' {
        seq!['.', '*']
    } else if question && c == '?' {
        seq!['.']
    } else {
        seq![c]
    }
}

/// The translation of a glob, character by character, without anchors.
pub open spec fn glob_body(glob: Seq<char>, question: bool) -> Seq<char>
    decreases glob.len(),
{
    if glob.len() == 0 {
        Seq::empty()
    } else {
        glob_body(glob.drop_last(), question) + glob_char(glob.last(), question)
    }
}

/// The anchored regular expression that a glob is matched with: the whole
/// text must match.
pub open spec fn glob_regex(glob: Seq<char>, question: bool) -> Seq<char> {
    seq!['^'] + glob_body(glob, question) + seq!['$']
}

/// Translates a glob to its anchored regular expression. Nothing is
/// escaped and there are no bracket classes: every character but the
/// wildcards is handed on as it is.
pub fn translate_glob(glob: &str, question: bool) -> (r: String)
    ensures
        r@ == glob_regex(glob@, question),
{
    proof {
        reveal_strlit("^");
        reveal_strlit("$");
    }
    let chars = chars_of(glob);
    let n: usize = chars.len();
    let mut r = String::from_str("^");
    let mut i: usize = 0;
    assert(r@ =~= seq!['^'] + glob_body(glob@.take(0), question));
    while i < n
        invariant
            0 <= i <= n,
            n == chars.len(),
            chars@ == glob@,
            r@ == seq!['^'] + glob_body(glob@.take(i as int), question),
        decreases n - i,
    {
        let c: char = chars[i];
        let ghost before = r@;
        proof {
            reveal_strlit(".*");
            reveal_strlit(".");
            assert(glob@.take(i + 1).drop_last() =~= glob@.take(i as int));
            assert(glob@.take(i + 1).last() == c);
        }
        if c == '*' {
            r.append(".*");
            assert(r@ =~= before + seq!['.', '*']);
        } else if question && c == '?' {
            r.append(".");
            assert(r@ =~= before + seq!['.']);
        } else {
            let piece = glob.substring_char(i, i + 1);
            assert(piece@ =~= seq![c]);
            r.append(piece);
        }
        assert(r@ =~= seq!['^'] + glob_body(glob@.take(i + 1), question));
        i += 1;
    }
    assert(glob@.take(n as int) =~= glob@);
    r.append("$");
    assert(r@ =~= glob_regex(glob@, question));
    r
}

/// Whether some pattern of the list matches `name`.
pub open spec fn matches_any(name: Seq<char>, patterns: Seq<Pattern>) -> bool {
    exists|i: int| 0 <= i < patterns.len() && regex_is_match((#[trigger] patterns[i])@, name)
}

/// Tests `name` against each compiled pattern in turn.
pub fn matches_custom_pattern(name: &str, patterns: &[Pattern]) -> (b: bool)
    ensures
        b == matches_any(name@, patterns@),
{
    let mut i: usize = 0;
    while i < patterns.len()
        invariant
            0 <= i <= patterns.len(),
            forall|k: int| 0 <= k < i ==> !regex_is_match((#[trigger] patterns@[k])@, name@),
        decreases patterns.len() - i,
    {
        if patterns[i].matches(name) {
            return true;
        }
        i += 1;
    }
    false
}

} // verus!
