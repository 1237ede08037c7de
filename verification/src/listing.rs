//! The order of a directory listing: directories first, then by name
//! without regard to case.

use vstd::prelude::*;
use crate::order::{
    indices, lemma_stable_order_agrees, lemma_stable_order_permutes, lemma_stable_order_sorted, relation_of,
    stable_order, stable_sort, total_preorder, Ranking,
};
use crate::text::{
    chars_le, chars_of, lemma_lex_le_total, lemma_lex_le_transitive, lex_le, lowercase, to_lowercase,
};
use crate::tree::{Entry, EntryKind};

verus! {

/// Whether entry `a` may stand before entry `b` in a listing: a directory
/// before anything that is none, and within each group the lower-cased
/// names in order of their code points.
pub open spec fn listed_le(a: Entry, b: Entry) -> bool {
    if (a.kind is Directory) != (b.kind is Directory) {
        a.kind is Directory
    } else {
        lex_le(lowercase(a.name@), lowercase(b.name@))
    }
}

/// `listed_le` on the entries of a listing, by their indices.
pub open spec fn listing_relation(entries: Seq<Entry>) -> spec_fn(int, int) -> bool {
    |i: int, j: int| listed_le(entries[i], entries[j])
}

/// The order in which the entries of a listing are gone through, as
/// indices into the listing: sorted by `listed_le`, entries that rank equal
/// in the order in which the listing holds them.
pub open spec fn listing_order(entries: Seq<Entry>) -> Seq<int> {
    stable_order(entries.len(), listing_relation(entries))
}

/// Any two entries can be listed one before the other, and the order is
/// transitive.
pub proof fn lemma_listing_relation_is_total_preorder(entries: Seq<Entry>)
    ensures
        total_preorder(entries.len(), listing_relation(entries)),
{
    let le = listing_relation(entries);
    assert forall|i: int, j: int| 0 <= i < entries.len() && 0 <= j < entries.len() implies #[trigger] le(i, j)
        || #[trigger] le(j, i) by {
        lemma_lex_le_total(lowercase(entries[i].name@), lowercase(entries[j].name@));
    }
    assert forall|i: int, j: int, k: int|
        0 <= i < entries.len() && 0 <= j < entries.len() && 0 <= k < entries.len() && #[trigger] le(i, j)
            && #[trigger] le(j, k) implies le(i, k) by {
        let a = entries[i];
        let b = entries[j];
        let c = entries[k];
        if (a.kind is Directory) == (b.kind is Directory) && (b.kind is Directory) == (c.kind is Directory) {
            lemma_lex_le_transitive(lowercase(a.name@), lowercase(b.name@), lowercase(c.name@));
        }
    }
}

/// The listing order holds every entry once, and no entry stands behind
/// one that it should be listed strictly before.
pub proof fn lemma_listing_order(entries: Seq<Entry>)
    ensures
        listing_order(entries).len() == entries.len(),
        listing_order(entries).no_duplicates(),
        forall|k: int| 0 <= k < entries.len() ==> 0 <= #[trigger] listing_order(entries)[k] < entries.len(),
        forall|i: int| 0 <= i < entries.len() ==> listing_order(entries).contains(i),
        forall|a: int, b: int|
            0 <= a < b < entries.len() ==> listed_le(
                entries[#[trigger] listing_order(entries)[a]],
                entries[#[trigger] listing_order(entries)[b]],
            ),
{
    let le = listing_relation(entries);
    lemma_listing_relation_is_total_preorder(entries);
    lemma_stable_order_permutes(entries.len(), le);
    lemma_stable_order_sorted(entries.len(), le);
    let order = listing_order(entries);
    assert forall|a: int, b: int| 0 <= a < b < entries.len() implies listed_le(
        entries[#[trigger] order[a]],
        entries[#[trigger] order[b]],
    ) by {
        assert(le(order[a], order[b]));
    }
}

/// The entries that are kept, among the first `k` of `order`: their
/// indices into the listing, in the order of `order`.
pub open spec fn rows_among(entries: Seq<Entry>, keep: spec_fn(Entry) -> bool, order: Seq<int>, k: nat) -> Seq<int>
    decreases k,
{
    if k == 0 || k > order.len() {
        Seq::empty()
    } else {
        let rest = rows_among(entries, keep, order, (k - 1) as nat);
        let idx = order[k - 1];
        if 0 <= idx < entries.len() && keep(entries[idx]) {
            rest.push(idx)
        } else {
            rest
        }
    }
}

/// The entries of a listing that are kept, in listing order. The listing
/// is sorted first and filtered then.
pub open spec fn listed_rows(entries: Seq<Entry>, keep: spec_fn(Entry) -> bool) -> Seq<int> {
    rows_among(entries, keep, listing_order(entries), entries.len())
}

/// Every row among the first `k` of an order is one of those `k` and is
/// kept, and rows stand as their places in the order do.
pub proof fn lemma_rows_follow_order(entries: Seq<Entry>, keep: spec_fn(Entry) -> bool, order: Seq<int>, k: nat)
    requires
        k <= order.len(),
    ensures
        forall|a: int|
            0 <= a < rows_among(entries, keep, order, k).len() ==> {
                let row = #[trigger] rows_among(entries, keep, order, k)[a];
                &&& 0 <= row < entries.len()
                &&& keep(entries[row])
                &&& exists|q: int| 0 <= q < k && order[q] == row
            },
        forall|a: int, b: int|
            0 <= a < b < rows_among(entries, keep, order, k).len() ==> exists|p: int, q: int|
                0 <= p < q < k && order[p] == #[trigger] rows_among(entries, keep, order, k)[a] && order[q]
                    == #[trigger] rows_among(entries, keep, order, k)[b],
        forall|q: int|
            0 <= q < k && 0 <= #[trigger] order[q] < entries.len() && keep(entries[order[q]]) ==> rows_among(
                entries,
                keep,
                order,
                k,
            ).contains(order[q]),
    decreases k,
{
    if k > 0 {
        let rest = rows_among(entries, keep, order, (k - 1) as nat);
        let rows = rows_among(entries, keep, order, k);
        lemma_rows_follow_order(entries, keep, order, (k - 1) as nat);
        assert forall|a: int| 0 <= a < rows.len() implies {
            let row = #[trigger] rows[a];
            &&& 0 <= row < entries.len()
            &&& keep(entries[row])
            &&& exists|q: int| 0 <= q < k && order[q] == row
        } by {
            if a < rest.len() {
                assert(rows[a] == rest[a]);
                let q = choose|q: int| 0 <= q < k - 1 && order[q] == rest[a];
                assert(0 <= q < k && order[q] == rows[a]);
            } else {
                assert(order[k - 1] == rows[a]);
            }
        }
        assert forall|a: int, b: int| 0 <= a < b < rows.len() implies exists|p: int, q: int|
            0 <= p < q < k && order[p] == #[trigger] rows[a] && order[q] == #[trigger] rows[b] by {
            assert(rows[a] == rest[a]);
            if b < rest.len() {
                assert(rows[b] == rest[b]);
                let (p, q) = choose|p: int, q: int|
                    0 <= p < q < k - 1 && order[p] == rest[a] && order[q] == rest[b];
                assert(0 <= p < q < k && order[p] == rows[a] && order[q] == rows[b]);
            } else {
                let p = choose|p: int| 0 <= p < k - 1 && order[p] == rest[a];
                assert(0 <= p < k - 1 < k && order[p] == rows[a] && order[k - 1] == rows[b]);
            }
        }
        assert forall|q: int|
            0 <= q < k && 0 <= #[trigger] order[q] < entries.len() && keep(entries[order[q]]) implies rows.contains(
            order[q],
        ) by {
            if q < k - 1 {
                assert(rest.contains(order[q]));
                let a = choose|a: int| 0 <= a < rest.len() && rest[a] == order[q];
                assert(rows[a] == order[q]);
            } else {
                assert(rows[rows.len() - 1] == order[q]);
            }
        }
    }
}

/// The kept rows of a listing are exactly the kept entries, each once, and
/// they stand in listing order: every directory before everything that is
/// none, and within each of the two groups the names in order, case set
/// aside.
pub proof fn lemma_listed_rows(entries: Seq<Entry>, keep: spec_fn(Entry) -> bool)
    ensures
        forall|a: int|
            0 <= a < listed_rows(entries, keep).len() ==> 0 <= #[trigger] listed_rows(entries, keep)[a]
                < entries.len() && keep(entries[listed_rows(entries, keep)[a]]),
        forall|i: int|
            0 <= i < entries.len() && keep(#[trigger] entries[i]) ==> listed_rows(entries, keep).contains(i),
        forall|a: int, b: int|
            0 <= a < b < listed_rows(entries, keep).len() ==> {
                let first = entries[#[trigger] listed_rows(entries, keep)[a]];
                let second = entries[#[trigger] listed_rows(entries, keep)[b]];
                &&& listed_rows(entries, keep)[a] != listed_rows(entries, keep)[b]
                &&& listed_le(first, second)
                &&& second.kind is Directory ==> first.kind is Directory
                &&& (first.kind is Directory) == (second.kind is Directory) ==> lex_le(
                    lowercase(first.name@),
                    lowercase(second.name@),
                )
            },
{
    let order = listing_order(entries);
    let rows = listed_rows(entries, keep);
    lemma_listing_order(entries);
    lemma_rows_follow_order(entries, keep, order, entries.len());
    assert forall|i: int| 0 <= i < entries.len() && keep(#[trigger] entries[i]) implies rows.contains(i) by {
        assert(order.contains(i));
        let q = choose|q: int| 0 <= q < order.len() && order[q] == i;
        assert(0 <= order[q] < entries.len() && keep(entries[order[q]]));
    }
    assert forall|a: int, b: int| 0 <= a < b < rows.len() implies {
        let first = entries[#[trigger] rows[a]];
        let second = entries[#[trigger] rows[b]];
        &&& rows[a] != rows[b]
        &&& listed_le(first, second)
        &&& second.kind is Directory ==> first.kind is Directory
        &&& (first.kind is Directory) == (second.kind is Directory) ==> lex_le(
            lowercase(first.name@),
            lowercase(second.name@),
        )
    } by {
        let (p, q) = choose|p: int, q: int|
            0 <= p < q < entries.len() && order[p] == rows[a] && order[q] == rows[b];
        assert(listed_le(entries[order[p]], entries[order[q]]));
    }
}

/// What an entry is sorted by.
pub struct ListingKey {
    pub directory: bool,
    pub lowered: Vec<char>,
}

/// The sort keys of a listing.
pub struct ListingKeys {
    pub keys: Vec<ListingKey>,
}

impl ListingKey {
    /// Whether the key is that of `entry`.
    pub open spec fn is_key_of(&self, entry: Entry) -> bool {
        &&& self.directory == (entry.kind is Directory)
        &&& self.lowered@ == lowercase(entry.name@)
    }

    /// The sort key of an entry.
    pub fn of(entry: &Entry) -> (key: ListingKey)
        ensures
            key.is_key_of(*entry),
    {
        let directory: bool = match entry.kind {
            EntryKind::Directory => true,
            _ => false,
        };
        let lowered = to_lowercase(entry.name.as_str());
        ListingKey { directory, lowered: chars_of(lowered.as_str()) }
    }
}

impl Ranking for ListingKeys {
    open spec fn size(&self) -> nat {
        self.keys@.len()
    }

    open spec fn ranks_le(&self, i: int, j: int) -> bool {
        if self.keys@[i].directory != self.keys@[j].directory {
            self.keys@[i].directory
        } else {
            lex_le(self.keys@[i].lowered@, self.keys@[j].lowered@)
        }
    }

    fn le(&self, i: usize, j: usize) -> (r: bool) {
        if self.keys[i].directory != self.keys[j].directory {
            self.keys[i].directory
        } else {
            chars_le(&self.keys[i].lowered, &self.keys[j].lowered)
        }
    }
}

/// Sorts a listing: returns the indices of its entries in the order in
/// which they are gone through.
pub fn sort_listing(entries: &Vec<Entry>) -> (order: Vec<usize>)
    ensures
        indices(order@) == listing_order(entries@),
{
    let n: usize = entries.len();
    let mut keys: Vec<ListingKey> = Vec::new();
    let mut i: usize = 0;
    while i < n
        invariant
            0 <= i <= n,
            n == entries.len(),
            keys.len() == i,
            forall|k: int| 0 <= k < i ==> (#[trigger] keys@[k]).is_key_of(entries@[k]),
        decreases n - i,
    {
        keys.push(ListingKey::of(&entries[i]));
        i += 1;
    }
    let ranking = ListingKeys { keys };
    let order = stable_sort(&ranking, n);
    proof {
        let by_keys = relation_of(&ranking);
        let by_entries = listing_relation(entries@);
        assert forall|a: int, b: int|
            #![trigger by_keys(a, b)]
            #![trigger by_entries(a, b)]
            0 <= a < n && 0 <= b < n implies by_keys(a, b) == by_entries(a, b) by {
            assert(ranking.keys@[a].is_key_of(entries@[a]));
            assert(ranking.keys@[b].is_key_of(entries@[b]));
        }
        lemma_stable_order_agrees(n as nat, by_keys, by_entries);
    }
    order
}

} // verus!
