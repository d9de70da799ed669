//! Reading (word, translation) pairs out of an exported bookmarks document.

use vstd::prelude::*;
use scraper::{Html, Selector};
use crate::aggregate::{
    aggregate, aggregate_pairs, count_of, entries_view, index_of_word, first_translation, holds_word,
    lemma_aggregate_counts, lemma_count_positive, words_unique, lemma_first_translation_present, pairs_view, Entry,
};
use crate::anki::ModelSummary;
use crate::deck::{card_fields, deck_notes, kept, lemma_kept_exact, lemma_kept_unique};

verus! {

/// The elements that hold one bookmark each.
pub const BOOKMARK_SELECTOR: &'static str = ".bookmark";

/// The element inside a bookmark that holds the marked word.
pub const TEXT_SELECTOR: &'static str = ".bm-text";

/// The element inside a bookmark that holds the translation note.
pub const NOTE_SELECTOR: &'static str = ".bm-note";

/// A character of the Unicode White_Space property, which `char::is_whitespace`
/// and so `str::trim` go by.
pub open spec fn is_white_space(c: char) -> bool {
    let u = c as u32;
    (0x9 <= u <= 0xd) || u == 0x20 || u == 0x85 || u == 0xa0 || u == 0x1680 || (0x2000 <= u <= 0x200a)
        || u == 0x2028 || u == 0x2029 || u == 0x202f || u == 0x205f || u == 0x3000
}

/// The text without its leading white space.
pub open spec fn trimmed_start(s: Seq<char>) -> Seq<char>
    decreases s.len(),
{
    if s.len() > 0 && is_white_space(s[0]) {
        trimmed_start(s.drop_first())
    } else {
        s
    }
}

/// The text without its trailing white space.
pub open spec fn trimmed_end(s: Seq<char>) -> Seq<char>
    decreases s.len(),
{
    if s.len() > 0 && is_white_space(s.last()) {
        trimmed_end(s.drop_last())
    } else {
        s
    }
}

/// The text without its leading and trailing white space.
pub open spec fn trimmed(s: Seq<char>) -> Seq<char> {
    trimmed_end(trimmed_start(s))
}

/// Trimming the end leaves a prefix of the text.
pub proof fn lemma_trimmed_end_prefix(s: Seq<char>)
    ensures
        trimmed_end(s).len() <= s.len(),
        trimmed_end(s) == s.subrange(0, trimmed_end(s).len() as int),
        trimmed_end(s).len() == 0 || !is_white_space(trimmed_end(s).last()),
    decreases s.len(),
{
    if s.len() > 0 && is_white_space(s.last()) {
        lemma_trimmed_end_prefix(s.drop_last());
        assert(s.drop_last().subrange(0, trimmed_end(s).len() as int) =~= s.subrange(0, trimmed_end(s).len() as int));
    } else {
        assert(s.subrange(0, s.len() as int) =~= s);
    }
}

/// Trimming the start leaves no leading white space.
pub proof fn lemma_trimmed_start_clean(s: Seq<char>)
    ensures
        trimmed_start(s).len() == 0 || !is_white_space(trimmed_start(s)[0]),
    decreases s.len(),
{
    if s.len() > 0 && is_white_space(s[0]) {
        lemma_trimmed_start_clean(s.drop_first());
    }
}

/// Trimmed text is left as it is by trimming again.
pub proof fn lemma_trimmed_idempotent(s: Seq<char>)
    ensures
        trimmed(trimmed(s)) == trimmed(s),
{
    let a = trimmed_start(s);
    let t = trimmed_end(a);
    lemma_trimmed_start_clean(s);
    lemma_trimmed_end_prefix(a);
    if t.len() > 0 {
        assert(t[0] == a[0]);
    }
    assert(trimmed_start(t) == t);
    lemma_trimmed_end_prefix(t);
    assert(trimmed_end(t) == t);
}

/// Relies on `str::trim`: the string without its leading and trailing
/// characters of the White_Space property.
#[verifier::external_body]
pub(crate) fn trim_text(s: &str) -> (r: String)
    ensures
        r@ == trimmed(s@),
{
    s.trim().to_string()
}

/// What scraper finds in a document: `None` where one of the three selectors
/// does not parse; otherwise, for each element matching `block`, in the order
/// in which scraper's `select` visits them, the concatenated text of its first descendant matching `text` and
/// the inner markup of its first descendant matching `note`, each where present.
pub uninterp spec fn scraped_bookmarks(
    html: Seq<char>,
    block: Seq<char>,
    text: Seq<char>,
    note: Seq<char>,
) -> Option<Seq<(Option<Seq<char>>, Option<Seq<char>>)>>;

/// The mathematical form of an optional string.
pub open spec fn opt_view(o: Option<String>) -> Option<Seq<char>> {
    match o {
        Some(s) => Some(s@),
        None => None,
    }
}

/// The mathematical form of the raw bookmark fields.
pub open spec fn raw_view(v: Seq<(Option<String>, Option<String>)>) -> Seq<(Option<Seq<char>>, Option<Seq<char>>)> {
    v.map_values(|b: (Option<String>, Option<String>)| (opt_view(b.0), opt_view(b.1)))
}

/// The mathematical form of what `scrape_bookmarks` returns.
pub open spec fn scraped_view(r: Option<Vec<(Option<String>, Option<String>)>>) -> Option<Seq<(Option<Seq<char>>, Option<Seq<char>>)>> {
    match r {
        Some(v) => Some(raw_view(v@)),
        None => None,
    }
}

/// Relies on scraper: `Selector::parse` for the three selectors (its error
/// becomes `None`), `Html::parse_document`, `select` on the document and on
/// each bookmark, `ElementRef::text` and `ElementRef::inner_html`. The three
/// class selectors of this crate are plain CSS class selectors, which
/// `Selector::parse` accepts.
#[verifier::external_body]
fn scrape_bookmarks(html: &str, block: &str, text: &str, note: &str) -> (r: Option<Vec<(Option<String>, Option<String>)>>)
    ensures
        scraped_view(r) == scraped_bookmarks(html@, block@, text@, note@),
        block@ == BOOKMARK_SELECTOR@ && text@ == TEXT_SELECTOR@ && note@ == NOTE_SELECTOR@ ==> r is Some,
{
    let block = Selector::parse(block).ok()?;
    let text = Selector::parse(text).ok()?;
    let note = Selector::parse(note).ok()?;
    let document = Html::parse_document(html);
    Some(document.select(&block).map(|b| (
        b.select(&text).next().map(|t| t.text().collect::<String>()),
        b.select(&note).next().map(|n| n.inner_html()),
    )).collect())
}

/// The (word, translation) pairs of the bookmarks that have both parts, in
/// order, each trimmed; a bookmark without a word or without a note is left out.
pub open spec fn complete_pairs(raw: Seq<(Option<Seq<char>>, Option<Seq<char>>)>) -> Seq<(Seq<char>, Seq<char>)>
    decreases raw.len(),
{
    if raw.len() == 0 {
        Seq::empty()
    } else {
        let prev = complete_pairs(raw.drop_last());
        match raw.last() {
            (Some(t), Some(n)) => prev.push((trimmed(t), trimmed(n))),
            _ => prev,
        }
    }
}

/// The bookmark fields that scraper finds in a document with this crate's selectors.
pub open spec fn document_bookmarks(html: Seq<char>) -> Seq<(Option<Seq<char>>, Option<Seq<char>>)> {
    scraped_bookmarks(html, BOOKMARK_SELECTOR@, TEXT_SELECTOR@, NOTE_SELECTOR@)->Some_0
}

/// The entries that a document yields.
pub open spec fn document_entries(html: Seq<char>) -> Seq<(Seq<char>, Seq<char>, nat)> {
    aggregate(complete_pairs(document_bookmarks(html)))
}

/// Bookmark `j` has both parts, and trimmed they are `pair`.
pub open spec fn bookmark_gives(
    raw: Seq<(Option<Seq<char>>, Option<Seq<char>>)>,
    j: int,
    pair: (Seq<char>, Seq<char>),
) -> bool {
    &&& 0 <= j < raw.len()
    &&& raw[j].0 is Some
    &&& raw[j].1 is Some
    &&& trimmed(raw[j].0->Some_0) == pair.0
    &&& trimmed(raw[j].1->Some_0) == pair.1
}

/// Some bookmark with both parts gives `pair`.
pub open spec fn from_some_bookmark(raw: Seq<(Option<Seq<char>>, Option<Seq<char>>)>, pair: (Seq<char>, Seq<char>)) -> bool {
    exists|j: int| bookmark_gives(raw, j, pair)
}

/// Some bookmark with both parts carries the word `w` once trimmed.
pub open spec fn has_complete_word(raw: Seq<(Option<Seq<char>>, Option<Seq<char>>)>, w: Seq<char>) -> bool {
    exists|j: int|
        0 <= j < raw.len() && (#[trigger] raw[j]).0 is Some && raw[j].1 is Some && trimmed(raw[j].0->Some_0) == w
}

/// Each kept pair comes from a bookmark with both parts, and each such bookmark
/// gives a kept pair.
pub proof fn lemma_complete_pairs_origin(raw: Seq<(Option<Seq<char>>, Option<Seq<char>>)>)
    ensures
        forall|m: int| 0 <= m < complete_pairs(raw).len() ==> from_some_bookmark(raw, #[trigger] complete_pairs(raw)[m]),
        forall|j: int| 0 <= j < raw.len() && (#[trigger] raw[j]).0 is Some && raw[j].1 is Some
            ==> complete_pairs(raw).contains((trimmed(raw[j].0->Some_0), trimmed(raw[j].1->Some_0))),
    decreases raw.len(),
{
    if raw.len() > 0 {
        let dl = raw.drop_last();
        lemma_complete_pairs_origin(dl);
        let prev = complete_pairs(dl);
        let cur = complete_pairs(raw);
        let complete = raw.last().0 is Some && raw.last().1 is Some;
        if complete {
            assert(cur == prev.push((trimmed(raw.last().0->Some_0), trimmed(raw.last().1->Some_0))));
        } else {
            assert(cur == prev);
        }
        assert forall|m: int| 0 <= m < cur.len() implies from_some_bookmark(raw, #[trigger] cur[m]) by {
            if m < prev.len() {
                assert(cur[m] == prev[m]);
                let j = choose|j: int| bookmark_gives(dl, j, prev[m]);
                assert(raw[j] == dl[j]);
                assert(bookmark_gives(raw, j, cur[m]));
            } else {
                assert(raw[raw.len() - 1] == raw.last());
                assert(bookmark_gives(raw, raw.len() - 1, cur[m]));
            }
        }
        assert forall|j: int| 0 <= j < raw.len() && (#[trigger] raw[j]).0 is Some && raw[j].1 is Some
            implies cur.contains((trimmed(raw[j].0->Some_0), trimmed(raw[j].1->Some_0))) by {
            let p = (trimmed(raw[j].0->Some_0), trimmed(raw[j].1->Some_0));
            if j < dl.len() {
                assert(dl[j] == raw[j]);
                assert(prev.contains(p));
                let m = choose|m: int| 0 <= m < prev.len() && prev[m] == p;
                assert(cur[m] == p);
            } else {
                assert(cur[prev.len() as int] == p);
            }
        }
    }
}

/// A bookmark without a note adds nothing: a word has an entry exactly when
/// some bookmark with both a word and a note carries it.
pub proof fn lemma_incomplete_bookmarks_dropped(raw: Seq<(Option<Seq<char>>, Option<Seq<char>>)>, w: Seq<char>)
    ensures
        holds_word(aggregate(complete_pairs(raw)), w) <==> has_complete_word(raw, w),
{
    let pairs = complete_pairs(raw);
    lemma_aggregate_counts(pairs);
    lemma_count_positive(pairs, w);
    lemma_complete_pairs_origin(raw);
    if holds_word(aggregate(pairs), w) {
        let m = choose|m: int| 0 <= m < pairs.len() && (#[trigger] pairs[m]).0 == w;
        assert(from_some_bookmark(raw, pairs[m]));
        let j = choose|j: int| bookmark_gives(raw, j, pairs[m]);
        assert(raw[j].0 is Some);
    }
    if has_complete_word(raw, w) {
        let j = choose|j: int|
            0 <= j < raw.len() && (#[trigger] raw[j]).0 is Some && raw[j].1 is Some && trimmed(raw[j].0->Some_0) == w;
        let p = (trimmed(raw[j].0->Some_0), trimmed(raw[j].1->Some_0));
        assert(pairs.contains(p));
        let m = choose|m: int| 0 <= m < pairs.len() && pairs[m] == p;
        assert(pairs[m].0 == w);
    }
}

/// The fields of every card of a document's deck are a word and a note of one
/// of its bookmarks, unchanged but for trimming.
pub proof fn lemma_cards_recoverable(raw: Seq<(Option<Seq<char>>, Option<Seq<char>>)>, min_count: int, i: int)
    requires
        0 <= i < card_fields(kept(aggregate(complete_pairs(raw)), min_count)).len(),
    ensures
        from_some_bookmark(
            raw,
            (
                card_fields(kept(aggregate(complete_pairs(raw)), min_count))[i][0],
                card_fields(kept(aggregate(complete_pairs(raw)), min_count))[i][1],
            ),
        ),
{
    let pairs = complete_pairs(raw);
    let agg = aggregate(pairs);
    let sel = kept(agg, min_count);
    lemma_kept_exact(agg, min_count);
    assert(sel.contains(sel[i]));
    let k = choose|k: int| 0 <= k < agg.len() && agg[k] == sel[i];
    lemma_aggregate_counts(pairs);
    let w = agg[k].0;
    assert(holds_word(agg, w));
    lemma_first_translation_present(pairs, w);
    let m = choose|m: int| 0 <= m < pairs.len() && pairs[m] == (w, first_translation(pairs, w));
    lemma_complete_pairs_origin(raw);
    assert(from_some_bookmark(raw, pairs[m]));
    let j = choose|j: int| bookmark_gives(raw, j, pairs[m]);
    let card = card_fields(sel)[i];
    assert(card == seq![sel[i].0, trimmed(sel[i].1)]);
    lemma_trimmed_idempotent(raw[j].1->Some_0);
    assert(bookmark_gives(raw, j, (card[0], card[1])));
}

/// Bookmark `j` has both parts and no earlier bookmark with both parts carries
/// the same trimmed word.
pub open spec fn first_with_its_word(raw: Seq<(Option<Seq<char>>, Option<Seq<char>>)>, j: int) -> bool {
    &&& 0 <= j < raw.len()
    &&& raw[j].0 is Some
    &&& raw[j].1 is Some
    &&& forall|k: int|
        0 <= k < j && (#[trigger] raw[k]).0 is Some && raw[k].1 is Some ==> trimmed(raw[k].0->Some_0)
            != trimmed(raw[j].0->Some_0)
}

/// The translation kept for a word is the trimmed note of the first bookmark
/// with both parts that carries it.
pub proof fn lemma_first_bookmark_translation(raw: Seq<(Option<Seq<char>>, Option<Seq<char>>)>, j: int)
    requires
        first_with_its_word(raw, j),
    ensures
        count_of(complete_pairs(raw), trimmed(raw[j].0->Some_0)) > 0,
        first_translation(complete_pairs(raw), trimmed(raw[j].0->Some_0)) == trimmed(raw[j].1->Some_0),
    decreases raw.len(),
{
    let w = trimmed(raw[j].0->Some_0);
    let dl = raw.drop_last();
    let prev = complete_pairs(dl);
    let cur = complete_pairs(raw);
    let last_complete = raw.last().0 is Some && raw.last().1 is Some;
    if last_complete {
        assert(cur == prev.push((trimmed(raw.last().0->Some_0), trimmed(raw.last().1->Some_0))));
        assert(cur.drop_last() =~= prev);
    } else {
        assert(cur == prev);
    }
    if j == raw.len() - 1 {
        lemma_count_positive(prev, w);
        lemma_complete_pairs_origin(dl);
        if count_of(prev, w) > 0 {
            let m = choose|m: int| 0 <= m < prev.len() && (#[trigger] prev[m]).0 == w;
            assert(from_some_bookmark(dl, prev[m]));
            let k = choose|k: int| bookmark_gives(dl, k, prev[m]);
            assert(dl[k] == raw[k]);
            assert(false);
        }
    } else {
        assert(dl[j] == raw[j]);
        assert forall|k: int|
            0 <= k < j && (#[trigger] dl[k]).0 is Some && dl[k].1 is Some implies trimmed(dl[k].0->Some_0)
            != trimmed(dl[j].0->Some_0) by {
            assert(dl[k] == raw[k]);
        }
        lemma_first_bookmark_translation(dl, j);
    }
}

/// Round trip: for the first bookmark with both parts that carries a word, the
/// document has exactly one entry for the trimmed word, holding its trimmed
/// note unchanged.
pub proof fn lemma_document_round_trip(html: Seq<char>, j: int)
    requires
        first_with_its_word(document_bookmarks(html), j),
    ensures
        ({
            let raw = document_bookmarks(html);
            let w = trimmed(raw[j].0->Some_0);
            let entries = document_entries(html);
            &&& holds_word(entries, w)
            &&& entries[index_of_word(entries, w)].1 == trimmed(raw[j].1->Some_0)
            &&& forall|k: int| 0 <= k < entries.len() && (#[trigger] entries[k]).0 == w ==> k == index_of_word(entries, w)
        }),
{
    let raw = document_bookmarks(html);
    let pairs = complete_pairs(raw);
    let w = trimmed(raw[j].0->Some_0);
    lemma_first_bookmark_translation(raw, j);
    lemma_aggregate_counts(pairs);
    let entries = aggregate(pairs);
    assert(holds_word(entries, w));
}

/// Note `i` is the one note whose word is `w`, and its fields are `fields`.
pub open spec fn sole_note_for(notes: Seq<(ModelSummary, Seq<Seq<char>>)>, i: int, w: Seq<char>, fields: Seq<Seq<char>>) -> bool {
    &&& 0 <= i < notes.len()
    &&& notes[i].1 == fields
    &&& forall|k: int| 0 <= k < notes.len() && (#[trigger] notes[k]).1[0] == w ==> k == i
}

/// Round trip through the deck: where the entry of the first bookmark with
/// both parts that carries a word reaches `min_count`, the deck holds exactly
/// one note for the trimmed word, and its fields are the trimmed word and the
/// trimmed note.
pub proof fn lemma_deck_round_trip(html: Seq<char>, j: int, min_count: int, model_id: i64)
    requires
        first_with_its_word(document_bookmarks(html), j),
        ({
            let e = document_entries(html);
            e[index_of_word(e, trimmed(document_bookmarks(html)[j].0->Some_0))].2 >= min_count
        }),
    ensures
        ({
            let raw = document_bookmarks(html);
            let notes = deck_notes(kept(document_entries(html), min_count), model_id);
            let w = trimmed(raw[j].0->Some_0);
            exists|i: int| sole_note_for(notes, i, w, seq![w, trimmed(raw[j].1->Some_0)])
        }),
{
    let raw = document_bookmarks(html);
    let w = trimmed(raw[j].0->Some_0);
    let n = trimmed(raw[j].1->Some_0);
    let e = document_entries(html);
    lemma_document_round_trip(html, j);
    lemma_aggregate_counts(complete_pairs(raw));
    let k0 = index_of_word(e, w);
    let sel = kept(e, min_count);
    lemma_kept_exact(e, min_count);
    lemma_kept_unique(e, min_count);
    assert(e.contains(e[k0]));
    assert(sel.contains(e[k0]));
    let i = choose|i: int| 0 <= i < sel.len() && sel[i] == e[k0];
    let notes = deck_notes(sel, model_id);
    lemma_trimmed_idempotent(raw[j].1->Some_0);
    assert(notes[i].1 =~= seq![w, n]);
    assert forall|k: int| 0 <= k < notes.len() && (#[trigger] notes[k]).1[0] == w implies k == i by {
        assert(notes[k].1[0] == sel[k].0);
        if k != i {
            assert(sel[k].0 != sel[i].0);
        }
    }
    assert(sole_note_for(notes, i, w, seq![w, n]));
}

/// A bookmark without a note, inserted anywhere, leaves the kept pairs, and so
/// the entries, as they were.
pub proof fn lemma_noteless_bookmark_changes_nothing(
    raw: Seq<(Option<Seq<char>>, Option<Seq<char>>)>,
    pos: int,
    text: Option<Seq<char>>,
)
    requires
        0 <= pos <= raw.len(),
    ensures
        complete_pairs(raw.insert(pos, (text, None))) == complete_pairs(raw),
        aggregate(complete_pairs(raw.insert(pos, (text, None)))) == aggregate(complete_pairs(raw)),
    decreases raw.len(),
{
    let grown = raw.insert(pos, (text, None));
    if pos == raw.len() {
        assert(grown.drop_last() =~= raw);
    } else {
        lemma_noteless_bookmark_changes_nothing(raw.drop_last(), pos, text);
        assert(grown.drop_last() =~= raw.drop_last().insert(pos, (text, None)));
        assert(grown.last() == raw.last());
    }
}

/// Keeps the bookmarks that have both a word and a note, trimming both.
pub fn bookmark_pairs(raw: &Vec<(Option<String>, Option<String>)>) -> (r: Vec<(String, String)>)
    ensures
        pairs_view(r@) == complete_pairs(raw_view(raw@)),
{
    let ghost all = raw_view(raw@);
    let mut pairs: Vec<(String, String)> = Vec::new();
    let mut i: usize = 0;
    while i < raw.len()
        invariant
            i <= raw.len(),
            all == raw_view(raw@),
            pairs_view(pairs@) == complete_pairs(all.take(i as int)),
        decreases raw.len() - i,
    {
        proof {
            assert(all.take(i as int + 1).drop_last() == all.take(i as int));
        }
        match (&raw[i].0, &raw[i].1) {
            (Some(t), Some(n)) => {
                let word = trim_text(t.as_str());
                let translation = trim_text(n.as_str());
                pairs.push((word, translation));
                assert(pairs_view(pairs@) =~= complete_pairs(all.take(i as int + 1)));
            },
            _ => {
                assert(pairs_view(pairs@) =~= complete_pairs(all.take(i as int + 1)));
            },
        }
        i = i + 1;
    }
    assert(all.take(raw.len() as int) =~= all);
    pairs
}

/// Reads the bookmarks of an HTML document and merges them by word, one entry
/// per word. A malformed or empty document gives no entries, never an error.
pub fn parse_html(html: &str) -> (r: Vec<Entry>)
    ensures
        entries_view(r@) == document_entries(html@),
        words_unique(entries_view(r@)),
{
    let scraped = scrape_bookmarks(html, BOOKMARK_SELECTOR, TEXT_SELECTOR, NOTE_SELECTOR);
    let raw = match scraped {
        Some(raw) => raw,
        None => Vec::new(),
    };
    let pairs = bookmark_pairs(&raw);
    proof {
        lemma_aggregate_counts(pairs_view(pairs@));
    }
    aggregate_pairs(&pairs)
}

} // verus!
