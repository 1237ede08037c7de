//! Paths as sequences of components, and sets of them.

use vstd::prelude::*;
use crate::text::{chars_le, chars_of, lemma_lex_le_total, lemma_lex_le_transitive, lex_le, str_equal};

verus! {

/// A path, held as its components from the root down. Two paths are the
/// same where their components are, and one lies below another where the
/// other's components are a prefix of its own and it has more of them.
#[derive(Debug)]
pub struct FsPath {
    pub components: Vec<String>,
}

impl View for FsPath {
    type V = Seq<Seq<char>>;

    open spec fn view(&self) -> Seq<Seq<char>> {
        self.components.deep_view()
    }
}

impl FsPath {
    /// The path with the given components.
    pub fn new(components: Vec<String>) -> (p: FsPath)
        ensures
            p@ == components.deep_view(),
            p.components == components,
    {
        FsPath { components }
    }

    /// A copy of the path.
    pub fn copy(&self) -> (p: FsPath)
        ensures
            p@ == self@,
    {
        let n: usize = self.components.len();
        let mut components: Vec<String> = Vec::new();
        let mut i: usize = 0;
        while i < n
            invariant
                0 <= i <= n,
                n == self.components@.len(),
                components@.len() == i,
                forall|k: int| 0 <= k < i ==> components@[k]@ == self.components@[k]@,
            decreases n - i,
        {
            components.push(self.components[i].clone());
            i += 1;
        }
        let p = FsPath { components };
        assert(p@ =~= self@);
        p
    }

    /// The path that `relative` names below this one: the components of
    /// the two, one after the other.
    pub fn join(&self, relative: &FsPath) -> (p: FsPath)
        ensures
            p@ == self@ + relative@,
    {
        let mut p = self.copy();
        let n: usize = relative.components.len();
        let mut i: usize = 0;
        assert(p@ =~= self@ + relative@.take(0));
        while i < n
            invariant
                0 <= i <= n,
                n == relative.components@.len(),
                p@ == self@ + relative@.take(i as int),
            decreases n - i,
        {
            let ghost before = p@;
            p.components.push(relative.components[i].clone());
            assert(p@ =~= before.push(relative@[i as int]));
            assert(p@ =~= self@ + relative@.take(i + 1));
            i += 1;
        }
        assert(relative@.take(n as int) =~= relative@);
        p
    }

    /// Whether the two paths have the same components.
    pub fn same_as(&self, other: &FsPath) -> (r: bool)
        ensures
            r == (self@ == other@),
    {
        let n: usize = self.components.len();
        if n != other.components.len() {
            assert(self@.len() != other@.len());
            return false;
        }
        let mut i: usize = 0;
        while i < n
            invariant
                0 <= i <= n,
                n == self.components@.len(),
                n == other.components@.len(),
                forall|k: int| 0 <= k < i ==> self@[k] == other@[k],
            decreases n - i,
        {
            if !str_equal(self.components[i].as_str(), other.components[i].as_str()) {
                assert(self@[i as int] != other@[i as int]);
                return false;
            }
            i += 1;
        }
        assert(self@ =~= other@);
        true
    }

    /// Whether the path is `base` or lies below it: whether `base`'s
    /// components are a prefix of its own.
    pub fn starts_with(&self, base: &FsPath) -> (r: bool)
        ensures
            r == base@.is_prefix_of(self@),
    {
        let n: usize = base.components.len();
        if n > self.components.len() {
            return false;
        }
        let mut i: usize = 0;
        while i < n
            invariant
                0 <= i <= n,
                n == base.components@.len(),
                n <= self.components@.len(),
                forall|k: int| 0 <= k < i ==> self@[k] == base@[k],
            decreases n - i,
        {
            if !str_equal(self.components[i].as_str(), base.components[i].as_str()) {
                assert(self@.subrange(0, n as int)[i as int] != base@[i as int]);
                return false;
            }
            i += 1;
        }
        assert(base@ =~= self@.subrange(0, n as int));
        true
    }

    /// Whether the path lies below `dir`, which it does not where the two
    /// are the same.
    pub fn is_below(&self, dir: &FsPath) -> (r: bool)
        ensures
            r == lies_below(self@, dir@),
    {
        assert(self@.len() == self.components@.len() && dir@.len() == dir.components@.len());
        dir.components.len() < self.components.len() && self.starts_with(dir)
    }

    /// Whether the path sorts before `other` or equals it.
    pub fn sorts_before(&self, other: &FsPath) -> (r: bool)
        ensures
            r == path_le(self@, other@),
    {
        let mut i: usize = 0;
        assert(self@.skip(0) =~= self@ && other@.skip(0) =~= other@);
        while i < self.components.len() && i < other.components.len()
            invariant
                0 <= i <= self.components@.len(),
                i <= other.components@.len(),
                path_le(self@, other@) == path_le(self@.skip(i as int), other@.skip(i as int)),
            decreases self.components@.len() - i,
        {
            proof {
                assert(self@.skip(i as int)[0] == self@[i as int]);
                assert(other@.skip(i as int)[0] == other@[i as int]);
                assert(self@.skip(i as int).drop_first() =~= self@.skip(i + 1));
                assert(other@.skip(i as int).drop_first() =~= other@.skip(i + 1));
            }
            if !str_equal(self.components[i].as_str(), other.components[i].as_str()) {
                let a = chars_of(self.components[i].as_str());
                let b = chars_of(other.components[i].as_str());
                return chars_le(&a, &b);
            }
            i += 1;
        }
        i == self.components.len()
    }
}

/// Whether path `a` comes before path `b`, or equals it, when the two are
/// compared component by component, each component by code points, a
/// proper prefix coming first.
pub open spec fn path_le(a: Seq<Seq<char>>, b: Seq<Seq<char>>) -> bool
    decreases a.len(),
{
    if a.len() == 0 {
        true
    } else if b.len() == 0 {
        false
    } else if a[0] != b[0] {
        lex_le(a[0], b[0])
    } else {
        path_le(a.drop_first(), b.drop_first())
    }
}

/// Of two paths one comes before the other, or they are equal.
pub proof fn lemma_path_le_total(a: Seq<Seq<char>>, b: Seq<Seq<char>>)
    ensures
        path_le(a, b) || path_le(b, a),
    decreases a.len(),
{
    if a.len() > 0 && b.len() > 0 {
        if a[0] != b[0] {
            lemma_lex_le_total(a[0], b[0]);
        } else {
            lemma_path_le_total(a.drop_first(), b.drop_first());
        }
    }
}

/// Two texts that come before each other are the same text.
pub proof fn lemma_lex_le_antisymmetric(a: Seq<char>, b: Seq<char>)
    requires
        lex_le(a, b),
        lex_le(b, a),
    ensures
        a == b,
    decreases a.len(),
{
    if a.len() > 0 && b.len() > 0 {
        vstd::utf8::char_u32_cast(a[0], a[0] as u32);
        vstd::utf8::char_u32_cast(b[0], b[0] as u32);
        lemma_lex_le_antisymmetric(a.drop_first(), b.drop_first());
        assert(a =~= seq![a[0]] + a.drop_first());
        assert(b =~= seq![b[0]] + b.drop_first());
    } else {
        assert(a =~= b);
    }
}

/// The order of paths is transitive.
pub proof fn lemma_path_le_transitive(a: Seq<Seq<char>>, b: Seq<Seq<char>>, c: Seq<Seq<char>>)
    requires
        path_le(a, b),
        path_le(b, c),
    ensures
        path_le(a, c),
    decreases a.len(),
{
    if a.len() > 0 {
        if a[0] == b[0] && b[0] == c[0] {
            lemma_path_le_transitive(a.drop_first(), b.drop_first(), c.drop_first());
        } else if a[0] != b[0] && b[0] != c[0] {
            lemma_lex_le_transitive(a[0], b[0], c[0]);
            if a[0] == c[0] {
                lemma_lex_le_antisymmetric(a[0], b[0]);
            }
        }
    }
}

/// Whether `set` holds the path `p`.
pub open spec fn holds_path(set: Seq<FsPath>, p: Seq<Seq<char>>) -> bool {
    exists|i: int| 0 <= i < set.len() && (#[trigger] set[i])@ == p
}

/// Whether `path` lies below `dir`: whether the components of `dir` are
/// a prefix of its own and it has more of them. No path lies below itself.
pub open spec fn lies_below(path: Seq<Seq<char>>, dir: Seq<Seq<char>>) -> bool {
    dir.is_prefix_of(path) && dir.len() < path.len()
}

/// Whether `set` holds a path that lies below `dir`. That it holds `dir`
/// itself does not count.
pub open spec fn holds_path_below(set: Seq<FsPath>, dir: Seq<Seq<char>>) -> bool {
    exists|i: int| 0 <= i < set.len() && lies_below((#[trigger] set[i])@, dir)
}

/// Looks `p` up in `set`.
pub fn set_holds(set: &Vec<FsPath>, p: &FsPath) -> (r: bool)
    ensures
        r == holds_path(set@, p@),
{
    let mut i: usize = 0;
    while i < set.len()
        invariant
            0 <= i <= set.len(),
            forall|k: int| 0 <= k < i ==> (#[trigger] set@[k])@ != p@,
        decreases set.len() - i,
    {
        if set[i].same_as(p) {
            return true;
        }
        i += 1;
    }
    false
}

/// Looks for a path below `dir` in `set`.
pub fn set_holds_below(set: &Vec<FsPath>, dir: &FsPath) -> (r: bool)
    ensures
        r == holds_path_below(set@, dir@),
{
    let mut i: usize = 0;
    while i < set.len()
        invariant
            0 <= i <= set.len(),
            forall|k: int| 0 <= k < i ==> !lies_below((#[trigger] set@[k])@, dir@),
        decreases set.len() - i,
    {
        if set[i].is_below(dir) {
            return true;
        }
        i += 1;
    }
    false
}

} // verus!
