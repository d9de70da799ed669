//! Merging of (word, translation) pairs into one entry per word.

use vstd::prelude::*;

verus! {

/// A word with the translation markup first seen for it and the number of
/// bookmarks that carried it.
pub struct Entry {
    pub word: String,
    pub translation: String,
    pub count: usize,
}

impl View for Entry {
    type V = (Seq<char>, Seq<char>, nat);

    open spec fn view(&self) -> (Seq<char>, Seq<char>, nat) {
        (self.word@, self.translation@, self.count as nat)
    }
}

/// The mathematical form of a list of entries.
pub open spec fn entries_view(v: Seq<Entry>) -> Seq<(Seq<char>, Seq<char>, nat)> {
    v.map_values(|e: Entry| e@)
}

/// The mathematical form of a list of (word, translation) pairs.
pub open spec fn pairs_view(v: Seq<(String, String)>) -> Seq<(Seq<char>, Seq<char>)> {
    v.map_values(|p: (String, String)| (p.0@, p.1@))
}

/// Some entry is keyed by `w`.
pub open spec fn holds_word(entries: Seq<(Seq<char>, Seq<char>, nat)>, w: Seq<char>) -> bool {
    exists|k: int| 0 <= k < entries.len() && (#[trigger] entries[k]).0 == w
}

/// The position of an entry keyed by `w`, where there is one.
pub open spec fn index_of_word(entries: Seq<(Seq<char>, Seq<char>, nat)>, w: Seq<char>) -> int {
    choose|k: int| 0 <= k < entries.len() && (#[trigger] entries[k]).0 == w
}

/// No two entries share a word.
pub open spec fn words_unique(entries: Seq<(Seq<char>, Seq<char>, nat)>) -> bool {
    forall|i: int, j: int|
        0 <= i < entries.len() && 0 <= j < entries.len() && i != j ==> (#[trigger] entries[i]).0
            != (#[trigger] entries[j]).0
}

/// The entries that a list of pairs merges into, in order of first appearance:
/// a word seen before adds one to its count, a new word is appended with its
/// translation and a count of one.
pub open spec fn aggregate(pairs: Seq<(Seq<char>, Seq<char>)>) -> Seq<(Seq<char>, Seq<char>, nat)>
    decreases pairs.len(),
{
    if pairs.len() == 0 {
        Seq::empty()
    } else {
        let prev = aggregate(pairs.drop_last());
        let w = pairs.last().0;
        if holds_word(prev, w) {
            let k = index_of_word(prev, w);
            prev.update(k, (prev[k].0, prev[k].1, prev[k].2 + 1))
        } else {
            prev.push((w, pairs.last().1, 1nat))
        }
    }
}

/// How many pairs carry the word `w`.
pub open spec fn count_of(pairs: Seq<(Seq<char>, Seq<char>)>, w: Seq<char>) -> nat
    decreases pairs.len(),
{
    if pairs.len() == 0 {
        0
    } else {
        count_of(pairs.drop_last(), w) + if pairs.last().0 == w {
            1nat
        } else {
            0nat
        }
    }
}

/// The translation of the first pair that carries the word `w`.
pub open spec fn first_translation(pairs: Seq<(Seq<char>, Seq<char>)>, w: Seq<char>) -> Seq<char>
    decreases pairs.len(),
{
    if pairs.len() == 0 {
        Seq::empty()
    } else if count_of(pairs.drop_last(), w) > 0 {
        first_translation(pairs.drop_last(), w)
    } else {
        pairs.last().1
    }
}

/// Aggregation keeps one entry per word; a word has an entry exactly when some
/// pair carries it, and that entry counts every pair carrying the word and holds
/// the translation of the first of them.
pub proof fn lemma_aggregate_counts(pairs: Seq<(Seq<char>, Seq<char>)>)
    ensures
        words_unique(aggregate(pairs)),
        forall|w: Seq<char>| #[trigger]
            holds_word(aggregate(pairs), w) <==> count_of(pairs, w) > 0,
        forall|k: int|
            0 <= k < aggregate(pairs).len() ==> {
                &&& (#[trigger] aggregate(pairs)[k]).2 == count_of(pairs, aggregate(pairs)[k].0)
                &&& aggregate(pairs)[k].1 == first_translation(pairs, aggregate(pairs)[k].0)
            },
    decreases pairs.len(),
{
    if pairs.len() > 0 {
        let dl = pairs.drop_last();
        lemma_aggregate_counts(dl);
        let prev = aggregate(dl);
        let w = pairs.last().0;
        let cur = aggregate(pairs);
        if holds_word(prev, w) {
            let k = index_of_word(prev, w);
            assert(cur == prev.update(k, (prev[k].0, prev[k].1, prev[k].2 + 1)));
            assert forall|x: Seq<char>| #[trigger] holds_word(cur, x) <==> count_of(pairs, x) > 0 by {
                if holds_word(cur, x) {
                    let j = choose|j: int| 0 <= j < cur.len() && (#[trigger] cur[j]).0 == x;
                    assert(prev[j].0 == x);
                    assert(holds_word(prev, x));
                }
                if holds_word(prev, x) {
                    let j = choose|j: int| 0 <= j < prev.len() && (#[trigger] prev[j]).0 == x;
                    assert(cur[j].0 == x);
                }
            }
            assert forall|j: int| 0 <= j < cur.len() implies {
                &&& (#[trigger] cur[j]).2 == count_of(pairs, cur[j].0)
                &&& cur[j].1 == first_translation(pairs, cur[j].0)
            } by {
                assert(holds_word(prev, prev[j].0));
                if j != k {
                    assert(prev[j].0 != prev[k].0);
                }
            }
        } else {
            assert(cur == prev.push((w, pairs.last().1, 1nat)));
            assert(count_of(dl, w) == 0);
            assert forall|x: Seq<char>| #[trigger] holds_word(cur, x) <==> count_of(pairs, x) > 0 by {
                if holds_word(cur, x) {
                    let j = choose|j: int| 0 <= j < cur.len() && (#[trigger] cur[j]).0 == x;
                    if j < prev.len() {
                        assert(prev[j].0 == x);
                        assert(holds_word(prev, x));
                    }
                }
                if holds_word(prev, x) {
                    let j = choose|j: int| 0 <= j < prev.len() && (#[trigger] prev[j]).0 == x;
                    assert(cur[j].0 == x);
                }
                if x == w {
                    assert(cur[prev.len() as int].0 == x);
                }
            }
            assert forall|j: int| 0 <= j < cur.len() implies {
                &&& (#[trigger] cur[j]).2 == count_of(pairs, cur[j].0)
                &&& cur[j].1 == first_translation(pairs, cur[j].0)
            } by {
                if j < prev.len() {
                    assert(holds_word(prev, prev[j].0));
                }
            }
            assert forall|i: int, j: int|
                0 <= i < cur.len() && 0 <= j < cur.len() && i != j implies (#[trigger] cur[i]).0
                != (#[trigger] cur[j]).0 by {
                if i < prev.len() && j == prev.len() {
                    assert(prev[i] == cur[i]);
                }
                if j < prev.len() && i == prev.len() {
                    assert(prev[j] == cur[j]);
                }
            }
        }
    }
}

/// A word is counted at least once exactly when some pair carries it.
pub proof fn lemma_count_positive(pairs: Seq<(Seq<char>, Seq<char>)>, w: Seq<char>)
    ensures
        count_of(pairs, w) > 0 <==> exists|m: int| 0 <= m < pairs.len() && (#[trigger] pairs[m]).0 == w,
    decreases pairs.len(),
{
    if pairs.len() > 0 {
        let dl = pairs.drop_last();
        lemma_count_positive(dl, w);
        if count_of(dl, w) > 0 {
            let m = choose|m: int| 0 <= m < dl.len() && (#[trigger] dl[m]).0 == w;
            assert(pairs[m] == dl[m]);
        }
        if exists|m: int| 0 <= m < pairs.len() && (#[trigger] pairs[m]).0 == w {
            let m = choose|m: int| 0 <= m < pairs.len() && (#[trigger] pairs[m]).0 == w;
            if m < dl.len() {
                assert(dl[m] == pairs[m]);
            }
        }
    }
}

/// The translation kept for a word comes from a pair that carries it.
pub proof fn lemma_first_translation_present(pairs: Seq<(Seq<char>, Seq<char>)>, w: Seq<char>)
    requires
        count_of(pairs, w) > 0,
    ensures
        pairs.contains((w, first_translation(pairs, w))),
    decreases pairs.len(),
{
    let dl = pairs.drop_last();
    if count_of(dl, w) > 0 {
        lemma_first_translation_present(dl, w);
        let m = choose|m: int| 0 <= m < dl.len() && dl[m] == (w, first_translation(dl, w));
        assert(pairs[m] == dl[m]);
    } else {
        assert(pairs[pairs.len() - 1] == (w, first_translation(pairs, w)));
    }
}

/// Merges `pairs` into one entry per word, keeping the order in which words
/// first appear, the first translation seen for each, and how many pairs
/// carried it.
pub fn aggregate_pairs(pairs: &Vec<(String, String)>) -> (r: Vec<Entry>)
    ensures
        entries_view(r@) == aggregate(pairs_view(pairs@)),
{
    let ghost all = pairs_view(pairs@);
    let mut entries: Vec<Entry> = Vec::new();
    let mut i: usize = 0;
    while i < pairs.len()
        invariant
            i <= pairs.len(),
            all == pairs_view(pairs@),
            entries_view(entries@) == aggregate(all.take(i as int)),
            forall|k: int| 0 <= k < entries.len() ==> (#[trigger] entries@[k]).count <= i,
        decreases pairs.len() - i,
    {
        proof {
            lemma_aggregate_counts(all.take(i as int));
            assert(all.take(i as int + 1).drop_last() == all.take(i as int));
        }
        let ghost prev = entries_view(entries@);
        let word = &pairs[i].0;
        let mut j: usize = 0;
        let mut found = false;
        while j < entries.len() && !found
            invariant
                j <= entries.len(),
                prev == entries_view(entries@),
                found ==> j < entries.len() && entries@[j as int].word@ == word@,
                !found ==> forall|k: int| 0 <= k < j ==> (#[trigger] prev[k]).0 != word@,
            decreases entries.len() - j + if found { 0int } else { 1int },
        {
            if entries[j].word == *word {
                found = true;
            } else {
                j = j + 1;
            }
        }
        if found {
            proof {
                assert(prev[j as int].0 == word@);
                assert(holds_word(prev, word@));
                let k = index_of_word(prev, word@);
                assert(k == j);
            }
            entries[j].count = entries[j].count + 1;
            assert(entries_view(entries@) =~= aggregate(all.take(i as int + 1)));
        } else {
            proof {
                assert(!holds_word(prev, word@));
            }
            entries.push(Entry { word: word.clone(), translation: pairs[i].1.clone(), count: 1 });
            assert(entries_view(entries@) =~= aggregate(all.take(i as int + 1)));
        }
        i = i + 1;
    }
    assert(all.take(pairs.len() as int) =~= all);
    entries
}

/// Whether no two entries share a word.
pub fn has_unique_words(entries: &Vec<Entry>) -> (r: bool)
    ensures
        r == words_unique(entries_view(entries@)),
{
    let ghost ev = entries_view(entries@);
    let mut i: usize = 0;
    while i < entries.len()
        invariant
            i <= entries.len(),
            ev == entries_view(entries@),
            forall|a: int, b: int|
                0 <= a < i && 0 <= b < ev.len() && a != b ==> (#[trigger] ev[a]).0 != (#[trigger] ev[b]).0,
        decreases entries.len() - i,
    {
        let mut j: usize = 0;
        while j < entries.len()
            invariant
                j <= entries.len(),
                i < entries.len(),
                ev == entries_view(entries@),
                forall|a: int, b: int|
                    0 <= a < i && 0 <= b < ev.len() && a != b ==> (#[trigger] ev[a]).0 != (#[trigger] ev[b]).0,
                forall|b: int| 0 <= b < j && b != i ==> ev[i as int].0 != (#[trigger] ev[b]).0,
            decreases entries.len() - j,
        {
            if j != i && entries[i].word == entries[j].word {
                assert(ev[i as int].0 == ev[j as int].0);
                return false;
            }
            j = j + 1;
        }
        i = i + 1;
    }
    true
}

} // verus!
