//! Stable sorting of items by a ranking, as an order of their indices.
//!
//! The order of `n` items is built by taking them one by one and putting
//! each behind the last item already placed that may stand before it. The
//! lemmas say what that gives: every index once, no item before one that
//! ranks strictly lower, and items of equal rank in their first order.

use vstd::prelude::*;

verus! {

/// Something that ranks items, which are known by their indices.
pub trait Ranking {
    /// How many items there are.
    spec fn size(&self) -> nat;

    /// Whether item `i` may stand before item `j`: whether it ranks lower
    /// or equal.
    spec fn ranks_le(&self, i: int, j: int) -> bool;

    /// Decides `ranks_le`.
    fn le(&self, i: usize, j: usize) -> (r: bool)
        requires
            i < self.size(),
            j < self.size(),
        ensures
            r == self.ranks_le(i as int, j as int),
    ;
}

/// The relation of a ranking, as a function.
pub open spec fn relation_of<R: Ranking>(r: &R) -> spec_fn(int, int) -> bool {
    |i: int, j: int| r.ranks_le(i, j)
}

/// `order` with `x` put in behind the last item that may stand before it.
pub open spec fn insert_stable(order: Seq<int>, le: spec_fn(int, int) -> bool, x: int) -> Seq<int>
    decreases order.len(),
{
    if order.len() == 0 {
        seq![x]
    } else if le(order.last(), x) {
        order.push(x)
    } else {
        insert_stable(order.drop_last(), le, x).push(order.last())
    }
}

/// The stable order of the items `0..n` under `le`.
pub open spec fn stable_order(n: nat, le: spec_fn(int, int) -> bool) -> Seq<int>
    decreases n,
{
    if n == 0 {
        Seq::empty()
    } else {
        insert_stable(stable_order((n - 1) as nat, le), le, n - 1)
    }
}

/// Whether `le` relates any two items of `0..n` one way or the other, and
/// is transitive on them.
pub open spec fn total_preorder(n: nat, le: spec_fn(int, int) -> bool) -> bool {
    &&& forall|i: int, j: int| 0 <= i < n && 0 <= j < n ==> #[trigger] le(i, j) || #[trigger] le(j, i)
    &&& forall|i: int, j: int, k: int|
        0 <= i < n && 0 <= j < n && 0 <= k < n && #[trigger] le(i, j) && #[trigger] le(j, k) ==> le(
            i,
            k,
        )
}

/// The index vector as a sequence of integers.
pub open spec fn indices(v: Seq<usize>) -> Seq<int> {
    v.map_values(|i: usize| i as int)
}

/// Where `insert_stable` puts `x`: at the one place with nothing behind it
/// that may stand before `x`, and right behind an item that may.
pub proof fn lemma_insert_at(order: Seq<int>, le: spec_fn(int, int) -> bool, x: int, pos: int)
    requires
        0 <= pos <= order.len(),
        forall|t: int| pos <= t < order.len() ==> !le(#[trigger] order[t], x),
        pos > 0 ==> le(order[pos - 1], x),
    ensures
        insert_stable(order, le, x) == order.insert(pos, x),
    decreases order.len(),
{
    if order.len() == 0 {
        assert(seq![x] =~= order.insert(0, x));
    } else if pos == order.len() {
        assert(order.push(x) =~= order.insert(pos, x));
    } else {
        let front = order.drop_last();
        assert(!le(order[order.len() - 1], x));
        assert forall|t: int| pos <= t < front.len() implies !le(#[trigger] front[t], x) by {
            assert(front[t] == order[t]);
        }
        lemma_insert_at(front, le, x, pos);
        assert(front.insert(pos, x).push(order.last()) =~= order.insert(pos, x));
    }
}

/// The place at which `insert_stable` puts `x`.
pub proof fn lemma_insert_place(order: Seq<int>, le: spec_fn(int, int) -> bool, x: int) -> (pos: int)
    ensures
        0 <= pos <= order.len(),
        forall|t: int| pos <= t < order.len() ==> !le(#[trigger] order[t], x),
        pos > 0 ==> le(order[pos - 1], x),
        insert_stable(order, le, x) == order.insert(pos, x),
    decreases order.len(),
{
    if order.len() == 0 {
        assert(seq![x] =~= order.insert(0, x));
        0
    } else if le(order.last(), x) {
        assert(order.push(x) =~= order.insert(order.len() as int, x));
        order.len() as int
    } else {
        let front = order.drop_last();
        let pos = lemma_insert_place(front, le, x);
        assert forall|t: int| pos <= t < order.len() implies !le(#[trigger] order[t], x) by {
            if t < front.len() {
                assert(front[t] == order[t]);
            }
        }
        assert(front.insert(pos, x).push(order.last()) =~= order.insert(pos, x));
        pos
    }
}

/// The stable order of `n` items holds every index below `n` once and
/// nothing else.
pub proof fn lemma_stable_order_permutes(n: nat, le: spec_fn(int, int) -> bool)
    ensures
        stable_order(n, le).len() == n,
        forall|k: int| 0 <= k < n ==> 0 <= #[trigger] stable_order(n, le)[k] < n,
        forall|i: int| 0 <= i < n ==> stable_order(n, le).contains(i),
        stable_order(n, le).no_duplicates(),
    decreases n,
{
    if n > 0 {
        let before = stable_order((n - 1) as nat, le);
        lemma_stable_order_permutes((n - 1) as nat, le);
        let pos = lemma_insert_place(before, le, n - 1);
        let after = before.insert(pos, n - 1);
        assert forall|i: int| 0 <= i < n implies after.contains(i) by {
            if i == n - 1 {
                assert(after[pos] == i);
            } else {
                assert(before.contains(i));
                let k = choose|k: int| 0 <= k < before.len() && before[k] == i;
                if k < pos {
                    assert(after[k] == i);
                } else {
                    assert(after[k + 1] == i);
                }
            }
        }
        assert forall|a: int, b: int| 0 <= a < after.len() && 0 <= b < after.len() && a != b implies after[a]
            != after[b] by {
            let ka = if a < pos { a } else { a - 1 };
            let kb = if b < pos { b } else { b - 1 };
            if a != pos && b != pos {
                assert(after[a] == before[ka] && after[b] == before[kb]);
            } else if a == pos {
                assert(after[b] == before[kb]);
            } else {
                assert(after[a] == before[ka]);
            }
        }
    }
}

/// In the stable order, an item stands behind another only if it does not
/// rank strictly lower; where the two rank equal, they stand as they came.
pub proof fn lemma_stable_order_sorted(n: nat, le: spec_fn(int, int) -> bool)
    ensures
        forall|a: int, b: int|
            0 <= a < b < n && le(#[trigger] stable_order(n, le)[b], #[trigger] stable_order(n, le)[a])
                ==> stable_order(n, le)[a] < stable_order(n, le)[b],
        total_preorder(n, le) ==> forall|a: int, b: int|
            0 <= a < b < n ==> le(#[trigger] stable_order(n, le)[a], #[trigger] stable_order(n, le)[b]),
    decreases n,
{
    if n > 0 {
        let before = stable_order((n - 1) as nat, le);
        lemma_stable_order_sorted((n - 1) as nat, le);
        lemma_stable_order_permutes((n - 1) as nat, le);
        lemma_stable_order_permutes(n, le);
        let pos = lemma_insert_place(before, le, n - 1);
        let after = before.insert(pos, n - 1);
        assert forall|a: int, b: int| 0 <= a < b < n && le(#[trigger] after[b], #[trigger] after[a]) implies after[a]
            < after[b] by {
            let ka = if a < pos { a } else { a - 1 };
            let kb = if b < pos { b } else { b - 1 };
            if a != pos && b != pos {
                assert(after[a] == before[ka] && after[b] == before[kb]);
            } else if a == pos {
                assert(after[b] == before[kb]);
                assert(!le(before[kb], n - 1));
            } else {
                assert(after[a] == before[ka]);
            }
        }
        if total_preorder(n, le) {
            assert(total_preorder((n - 1) as nat, le));
            assert forall|a: int, b: int| 0 <= a < b < n implies le(#[trigger] after[a], #[trigger] after[b]) by {
                let ka = if a < pos { a } else { a - 1 };
                let kb = if b < pos { b } else { b - 1 };
                if a != pos && b != pos {
                    assert(after[a] == before[ka] && after[b] == before[kb]);
                } else if a == pos {
                    assert(after[b] == before[kb]);
                    assert(!le(before[kb], n - 1));
                    assert(le(before[kb], n - 1) || le(n - 1, before[kb]));
                } else {
                    assert(after[a] == before[ka]);
                    if ka < pos - 1 {
                        assert(le(before[ka], before[pos - 1]));
                        assert(le(before[pos - 1], n - 1));
                    }
                }
            }
        }
    }
}

/// Two relations that agree on the items `0..n` give the same order.
pub proof fn lemma_stable_order_agrees(n: nat, le: spec_fn(int, int) -> bool, other: spec_fn(int, int) -> bool)
    requires
        forall|i: int, j: int|
            #![trigger le(i, j)]
            #![trigger other(i, j)]
            0 <= i < n && 0 <= j < n ==> le(i, j) == other(i, j),
    ensures
        stable_order(n, le) == stable_order(n, other),
    decreases n,
{
    if n > 0 {
        lemma_stable_order_agrees((n - 1) as nat, le, other);
        lemma_stable_order_permutes((n - 1) as nat, le);
        let before = stable_order((n - 1) as nat, le);
        let pos = lemma_insert_place(before, le, n - 1);
        lemma_insert_at(before, other, n - 1, pos);
    }
}

/// Sorts the items `0..n` of a ranking and returns their indices in order.
/// The sort is stable.
pub fn stable_sort<R: Ranking>(r: &R, n: usize) -> (order: Vec<usize>)
    requires
        n == r.size(),
    ensures
        indices(order@) == stable_order(n as nat, relation_of(r)),
{
    let ghost le = relation_of(r);
    let mut order: Vec<usize> = Vec::new();
    let mut k: usize = 0;
    assert(indices(order@) =~= stable_order(0, le));
    while k < n
        invariant
            0 <= k <= n,
            n == r.size(),
            le == relation_of(r),
            indices(order@) == stable_order(k as nat, le),
        decreases n - k,
    {
        proof {
            lemma_stable_order_permutes(k as nat, le);
            assert forall|t: int| 0 <= t < order.len() implies #[trigger] order@[t] < k by {
                assert(indices(order@)[t] == order@[t]);
            }
        }
        let mut pos: usize = order.len();
        while pos > 0 && !r.le(order[pos - 1], k)
            invariant
                0 <= pos <= order.len(),
                order.len() == k,
                k < n,
                n == r.size(),
                le == relation_of(r),
                forall|t: int| 0 <= t < order.len() ==> #[trigger] order@[t] < k,
                forall|t: int| pos <= t < order.len() ==> !le(#[trigger] indices(order@)[t], k as int),
            decreases pos,
        {
            proof {
                assert(indices(order@)[pos - 1] == order@[pos - 1]);
            }
            pos -= 1;
        }
        proof {
            if pos > 0 {
                assert(indices(order@)[pos - 1] == order@[pos - 1]);
            }
            lemma_insert_at(indices(order@), le, k as int, pos as int);
        }
        let ghost before = indices(order@);
        order.insert(pos, k);
        assert(indices(order@) =~= before.insert(pos as int, k as int));
        k += 1;
    }
    order
}

} // verus!
