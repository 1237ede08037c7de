//! File extensions and how often each occurs.

use vstd::prelude::*;
use crate::ignores::{last_segment, last_segment_start};
use crate::order::{indices, lemma_stable_order_agrees, lemma_stable_order_permutes, relation_of, stable_order, stable_sort, Ranking};
use crate::text::{chars_of, lowercase, str_equal, to_lowercase};

verus! {

/// The extension of a file name: what follows its last `.`. A name
/// without a `.`, a name whose only `.` is its first character, and the
/// name `..` have none.
pub open spec fn extension_of(name: Seq<char>) -> Option<Seq<char>> {
    if name == ".."@ || name.len() - last_segment(name).len() <= 1 {
        None
    } else {
        Some(last_segment(name))
    }
}

/// The extension of a file name, in lower case.
pub open spec fn lowered_extension(name: Seq<char>) -> Option<Seq<char>> {
    match extension_of(name) {
        Some(ext) => Some(lowercase(ext)),
        None => None,
    }
}

/// Takes the extension of a file name and lowers its case.
pub fn extension(name: &str) -> (ext: Option<String>)
    ensures
        match ext {
            Some(text) => lowered_extension(name@) == Some(text@),
            None => lowered_extension(name@) is None,
        },
{
    let chars = chars_of(name);
    let start: usize = last_segment_start(&chars);
    assert(chars@.skip(start as int).len() == chars@.len() - start);
    if start <= 1 || str_equal(name, "..") {
        None
    } else {
        let tail = name.substring_char(start, chars.len());
        assert(tail@ =~= last_segment(name@));
        Some(to_lowercase(tail))
    }
}

/// A text and the number of times it has occurred.
pub struct Count {
    pub text: String,
    pub times: usize,
}

/// A count as a specification value.
pub struct CountView {
    pub text: Seq<char>,
    pub times: nat,
}

impl View for Count {
    type V = CountView;

    open spec fn view(&self) -> CountView {
        CountView { text: self.text@, times: self.times as nat }
    }
}

/// The counts of a vector, as specification values.
pub open spec fn counts_view(counts: Seq<Count>) -> Seq<CountView> {
    counts.map_values(|c: Count| c@)
}

/// The place of the first count for `text`, or the number of counts where
/// none is for it.
pub open spec fn place_of(counts: Seq<CountView>, text: Seq<char>) -> int
    decreases counts.len(),
{
    if counts.len() == 0 {
        0
    } else if counts[0].text == text {
        0
    } else {
        1 + place_of(counts.drop_first(), text)
    }
}

/// The counts after one more occurrence of `text`: its count goes up by
/// one, or a new count of one is put behind the others.
pub open spec fn counted(counts: Seq<CountView>, text: Seq<char>) -> Seq<CountView> {
    let i = place_of(counts, text);
    if 0 <= i < counts.len() {
        counts.update(i, CountView { text, times: counts[i].times + 1 })
    } else {
        counts.push(CountView { text, times: 1 })
    }
}

/// How often each text occurs in `texts`, the texts in the order in which
/// they first occur.
pub open spec fn histogram(texts: Seq<Seq<char>>) -> Seq<CountView>
    decreases texts.len(),
{
    if texts.len() == 0 {
        Seq::empty()
    } else {
        counted(histogram(texts.drop_last()), texts.last())
    }
}

/// `place_of` is the one place that holds `text` with none before it.
pub proof fn lemma_place_of(counts: Seq<CountView>, text: Seq<char>, i: int)
    requires
        0 <= i <= counts.len(),
        forall|k: int| 0 <= k < i ==> (#[trigger] counts[k]).text != text,
        i < counts.len() ==> counts[i].text == text,
    ensures
        place_of(counts, text) == i,
    decreases counts.len(),
{
    if counts.len() > 0 && i > 0 {
        assert(counts[0].text != text);
        assert forall|k: int| 0 <= k < i - 1 implies (#[trigger] counts.drop_first()[k]).text != text by {
            assert(counts.drop_first()[k] == counts[k + 1]);
        }
        lemma_place_of(counts.drop_first(), text, i - 1);
    }
}

/// Where `place_of` points: at a count for `text` with none before it, or
/// behind all counts where none is for `text`.
pub proof fn lemma_place_found(counts: Seq<CountView>, text: Seq<char>)
    ensures
        0 <= place_of(counts, text) <= counts.len(),
        place_of(counts, text) < counts.len() ==> counts[place_of(counts, text)].text == text,
        forall|k: int| 0 <= k < place_of(counts, text) ==> (#[trigger] counts[k]).text != text,
    decreases counts.len(),
{
    if counts.len() > 0 && counts[0].text != text {
        let rest = counts.drop_first();
        lemma_place_found(rest, text);
        assert forall|k: int| 0 <= k < place_of(counts, text) implies (#[trigger] counts[k]).text != text by {
            if k > 0 {
                assert(counts[k] == rest[k - 1]);
            }
        }
    }
}

/// A histogram holds each text once, with a count that is not zero: it is
/// a map from the texts to their numbers, kept in the order in which the
/// texts first occur.
pub proof fn lemma_histogram_is_a_map(texts: Seq<Seq<char>>)
    ensures
        forall|i: int, j: int|
            0 <= i < j < histogram(texts).len() ==> (#[trigger] histogram(texts)[i]).text != (
            #[trigger] histogram(texts)[j]).text,
        forall|i: int| 0 <= i < histogram(texts).len() ==> (#[trigger] histogram(texts)[i]).times > 0,
        forall|i: int| 0 <= i < histogram(texts).len() ==> texts.contains((#[trigger] histogram(texts)[i]).text),
    decreases texts.len(),
{
    if texts.len() > 0 {
        let before = histogram(texts.drop_last());
        let text = texts.last();
        let after = histogram(texts);
        lemma_histogram_is_a_map(texts.drop_last());
        lemma_place_found(before, text);
        let place = place_of(before, text);
        assert forall|i: int| 0 <= i < after.len() implies texts.contains((#[trigger] after[i]).text) by {
            if i < before.len() && i != place {
                assert(after[i] == before[i]);
                let k = choose|k: int| 0 <= k < texts.drop_last().len() && texts.drop_last()[k] == before[i].text;
                assert(texts[k] == before[i].text);
            } else {
                assert(after[i].text == text);
                assert(texts[texts.len() - 1] == text);
            }
        }
        assert forall|i: int, j: int| 0 <= i < j < after.len() implies (#[trigger] after[i]).text != (
        #[trigger] after[j]).text by {
            if place < before.len() {
                assert(after[i].text == before[i].text && after[j].text == before[j].text);
            } else if j < before.len() {
                assert(after[i] == before[i] && after[j] == before[j]);
            } else {
                assert(after[i] == before[i]);
            }
        }
    }
}

/// Counts how often each text occurs.
pub fn count_texts(texts: &Vec<String>) -> (counts: Vec<Count>)
    ensures
        counts_view(counts@) == histogram(texts.deep_view()),
{
    let ghost all = texts.deep_view();
    let n: usize = texts.len();
    let mut counts: Vec<Count> = Vec::new();
    let mut i: usize = 0;
    assert(all.take(0) =~= Seq::<Seq<char>>::empty());
    assert(counts_view(counts@) =~= histogram(all.take(0)));
    while i < n
        invariant
            0 <= i <= n,
            n == texts.len(),
            all == texts.deep_view(),
            counts_view(counts@) == histogram(all.take(i as int)),
            forall|k: int| 0 <= k < counts.len() ==> (#[trigger] counts@[k]).times <= i,
        decreases n - i,
    {
        let text: &String = &texts[i];
        let ghost before = counts_view(counts@);
        proof {
            assert(all.take(i + 1).drop_last() =~= all.take(i as int));
            assert(all.take(i + 1).last() == text@);
        }
        let m: usize = counts.len();
        let mut j: usize = 0;
        while j < m && !str_equal(counts[j].text.as_str(), text.as_str())
            invariant
                0 <= j <= m,
                m == counts.len(),
                before == counts_view(counts@),
                forall|k: int| 0 <= k < j ==> (#[trigger] before[k]).text != text@,
            decreases m - j,
        {
            proof {
                assert(before[j as int] == counts@[j as int]@);
            }
            j += 1;
        }
        proof {
            if j < m {
                assert(before[j as int] == counts@[j as int]@);
            }
            lemma_place_of(before, text@, j as int);
        }
        if j < m {
            let times: usize = counts[j].times;
            counts.set(j, Count { text: text.clone(), times: times + 1 });
            assert(counts_view(counts@) =~= before.update(
                j as int,
                CountView { text: text@, times: (times + 1) as nat },
            ));
        } else {
            counts.push(Count { text: text.clone(), times: 1 });
            assert(counts_view(counts@) =~= before.push(CountView { text: text@, times: 1 }));
        }
        i += 1;
    }
    assert(all.take(n as int) =~= all);
    counts
}

/// The order of counts by their numbers, the larger first, by their
/// indices.
pub open spec fn by_times(counts: Seq<CountView>) -> spec_fn(int, int) -> bool {
    |i: int, j: int| counts[i].times >= counts[j].times
}

/// The `limit` most frequent of the counts, the most frequent first;
/// counts of equal number in the order in which they stand.
pub open spec fn most_frequent(counts: Seq<CountView>, limit: nat) -> Seq<CountView> {
    let shown = if counts.len() < limit {
        counts.len()
    } else {
        limit
    };
    Seq::new(shown, |k: int| counts[stable_order(counts.len(), by_times(counts))[k]])
}

/// Counts, ranked by their numbers.
pub struct TimesRanking<'a> {
    pub counts: &'a Vec<Count>,
}

impl<'a> Ranking for TimesRanking<'a> {
    open spec fn size(&self) -> nat {
        self.counts@.len()
    }

    open spec fn ranks_le(&self, i: int, j: int) -> bool {
        self.counts@[i].times >= self.counts@[j].times
    }

    fn le(&self, i: usize, j: usize) -> (r: bool) {
        self.counts[i].times >= self.counts[j].times
    }
}

/// Picks the `limit` most frequent of the counts.
pub fn pick_most_frequent(counts: &Vec<Count>, limit: usize) -> (top: Vec<Count>)
    ensures
        counts_view(top@) == most_frequent(counts_view(counts@), limit as nat),
{
    let n: usize = counts.len();
    let ranking = TimesRanking { counts };
    let order = stable_sort(&ranking, n);
    let ghost views = counts_view(counts@);
    let ghost sorted = stable_order(n as nat, by_times(views));
    proof {
        let by_refs = relation_of(&ranking);
        assert forall|a: int, b: int|
            #![trigger by_refs(a, b)]
            #![trigger by_times(views)(a, b)]
            0 <= a < n && 0 <= b < n implies by_refs(a, b) == by_times(views)(a, b) by {
            assert(views[a] == counts@[a]@);
            assert(views[b] == counts@[b]@);
        }
        lemma_stable_order_agrees(n as nat, by_refs, by_times(views));
        lemma_stable_order_permutes(n as nat, by_times(views));
    }
    let shown: usize = if n < limit {
        n
    } else {
        limit
    };
    let mut top: Vec<Count> = Vec::new();
    let mut k: usize = 0;
    while k < shown
        invariant
            0 <= k <= shown <= n,
            n == counts@.len(),
            n == order@.len(),
            views == counts_view(counts@),
            sorted == stable_order(n as nat, by_times(views)),
            indices(order@) == sorted,
            forall|t: int| 0 <= t < n ==> 0 <= #[trigger] sorted[t] < n,
            top@.len() == k,
            forall|t: int| 0 <= t < k ==> (#[trigger] top@[t])@ == views[sorted[t]],
        decreases shown - k,
    {
        let idx: usize = order[k];
        proof {
            assert(indices(order@)[k as int] == idx);
            assert(0 <= sorted[k as int] < n);
            assert(views[idx as int] == counts@[idx as int]@);
        }
        top.push(Count { text: counts[idx].text.clone(), times: counts[idx].times });
        k += 1;
    }
    assert(counts_view(top@) =~= most_frequent(views, limit as nat));
    top
}

} // verus!
