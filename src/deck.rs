//! Choosing the entries that become cards and building the deck from them.

use vstd::prelude::*;
use genanki_rs::{Deck, Field, Model, Template};
use crate::aggregate::{aggregate, entries_view, holds_word, lemma_aggregate_counts, words_unique, Entry};
use crate::anki::{
    deck_content, deck_identity, model_css, model_fields, model_front_back, model_identity,
    model_templates, new_note, with_css, word_card_fields, word_card_templates, ModelSummary,
};
use crate::extract::{trim_text, trimmed};

verus! {

/// The card type's id: the same for every deck, so that decks share it.
pub const MODEL_ID: i64 = 1728045059;

/// The card type's name.
pub const MODEL_NAME: &'static str = "Pocket Book Notes Model";

/// The name of the template of the card type.
pub const TEMPLATE_NAME: &'static str = "PB Notes card";

/// The front of a card: the word.
pub const QUESTION_FORMAT: &'static str = "<div class=\"wordstyle\">{{Word}}</div>";

/// The back of a card: the front, a separator, then the translation.
pub const ANSWER_FORMAT: &'static str = "{{FrontSide}}<hr id=\"answer\">{{Translation}}";

/// The styling shared by all cards.
pub const CARD_CSS: &'static str = ".card {\n  font-family: arial;\n  font-size: 20px;\n  text-align: center;\n  color: black;\n  background-color: white;\n}\n\n.wordstyle {\n  font-size: 28px;\n  font-weight: bold;\n}\n";

/// What follows the book name in a deck's description.
pub const DESCRIPTION_SUFFIX: &'static str = ". Deck created from Pocket Book translation notes";

/// The entries whose count reaches `min_count`, in their order.
pub open spec fn kept(entries: Seq<(Seq<char>, Seq<char>, nat)>, min_count: int) -> Seq<(Seq<char>, Seq<char>, nat)> {
    entries.filter(|e: (Seq<char>, Seq<char>, nat)| e.2 >= min_count)
}

/// The field values of the card made from each entry: the word, then the
/// trimmed translation.
pub open spec fn card_fields(entries: Seq<(Seq<char>, Seq<char>, nat)>) -> Seq<Seq<Seq<char>>> {
    entries.map_values(|e: (Seq<char>, Seq<char>, nat)| seq![e.0, trimmed(e.1)])
}

/// The selection holds exactly the entries whose count reaches `min_count`.
pub proof fn lemma_kept_exact(entries: Seq<(Seq<char>, Seq<char>, nat)>, min_count: int)
    ensures
        forall|e: (Seq<char>, Seq<char>, nat)| #[trigger]
            kept(entries, min_count).contains(e) <==> (entries.contains(e) && e.2 >= min_count),
    decreases entries.len(),
{
    reveal(Seq::filter);
    if entries.len() > 0 {
        let dl = entries.drop_last();
        lemma_kept_exact(dl, min_count);
        let prev = kept(dl, min_count);
        let cur = kept(entries, min_count);
        let last = entries.last();
        assert forall|e: (Seq<char>, Seq<char>, nat)| #[trigger]
            cur.contains(e) <==> (entries.contains(e) && e.2 >= min_count) by {
            if cur.contains(e) {
                let i = choose|i: int| 0 <= i < cur.len() && cur[i] == e;
                if last.2 >= min_count && i == prev.len() {
                    assert(entries[entries.len() - 1] == e);
                } else {
                    assert(prev[i] == e);
                    assert(prev.contains(e));
                    let j = choose|j: int| 0 <= j < dl.len() && dl[j] == e;
                    assert(entries[j] == e);
                }
            }
            if entries.contains(e) && e.2 >= min_count {
                let j = choose|j: int| 0 <= j < entries.len() && entries[j] == e;
                if j < dl.len() {
                    assert(dl[j] == e);
                    assert(dl.contains(e));
                    assert(kept(dl, min_count).contains(e));
                    let i = choose|i: int| 0 <= i < prev.len() && prev[i] == e;
                    if last.2 >= min_count {
                        assert(cur == prev.push(last));
                    }
                    assert(cur[i] == e);
                } else {
                    assert(cur[prev.len() as int] == e);
                }
            }
        }
    }
}

/// Where every entry reaches `min_count`, the selection keeps them all.
pub proof fn lemma_kept_all(entries: Seq<(Seq<char>, Seq<char>, nat)>, min_count: int)
    requires
        forall|k: int| 0 <= k < entries.len() ==> (#[trigger] entries[k]).2 >= min_count,
    ensures
        kept(entries, min_count) == entries,
    decreases entries.len(),
{
    reveal(Seq::filter);
    if entries.len() > 0 {
        let dl = entries.drop_last();
        assert forall|k: int| 0 <= k < dl.len() implies (#[trigger] dl[k]).2 >= min_count by {
            assert(dl[k] == entries[k]);
        }
        lemma_kept_all(dl, min_count);
        assert(entries.last().2 >= min_count);
        assert(dl.push(entries.last()) =~= entries);
    }
}

/// A minimum count of one keeps every aggregated word.
pub proof fn lemma_min_count_one_keeps_all(pairs: Seq<(Seq<char>, Seq<char>)>)
    ensures
        kept(aggregate(pairs), 1) == aggregate(pairs),
{
    let agg = aggregate(pairs);
    lemma_aggregate_counts(pairs);
    assert forall|k: int| 0 <= k < agg.len() implies (#[trigger] agg[k]).2 >= 1 by {
        assert(holds_word(agg, agg[k].0));
    }
    lemma_kept_all(agg, 1);
}

/// The entries that reach `min_count`, in their order.
pub fn select_entries(entries: &Vec<Entry>, min_count: i32) -> (r: Vec<Entry>)
    ensures
        entries_view(r@) == kept(entries_view(entries@), min_count as int),
{
    let ghost all = entries_view(entries@);
    let mut chosen: Vec<Entry> = Vec::new();
    let mut i: usize = 0;
    while i < entries.len()
        invariant
            i <= entries.len(),
            all == entries_view(entries@),
            entries_view(chosen@) == kept(all.take(i as int), min_count as int),
        decreases entries.len() - i,
    {
        proof {
            assert(all.take(i as int + 1).drop_last() == all.take(i as int));
            reveal(Seq::filter);
        }
        let e = &entries[i];
        if e.count as i128 >= min_count as i128 {
            chosen.push(Entry { word: e.word.clone(), translation: e.translation.clone(), count: e.count });
        }
        assert(entries_view(chosen@) =~= kept(all.take(i as int + 1), min_count as int));
        i = i + 1;
    }
    assert(all.take(entries.len() as int) =~= all);
    chosen
}

/// The description of the deck made for a book.
pub fn deck_description(book_name: &str) -> (r: String)
    ensures
        r@ == book_name@ + DESCRIPTION_SUFFIX@,
{
    let mut d = String::from_str(book_name);
    d.append(DESCRIPTION_SUFFIX);
    d
}

/// The card type: fields Word and Translation, one front/back template and
/// the shared styling, under the id `model_id`.
pub fn card_model(model_id: i64) -> (r: Model)
    ensures
        model_identity(r) == (model_id, MODEL_NAME@),
        model_fields(r) == word_card_fields(),
        model_templates(r) == word_card_templates(),
        model_css(r) == CARD_CSS@,
        model_front_back(r),
{
    let template = Template::new(TEMPLATE_NAME).qfmt(QUESTION_FORMAT).afmt(ANSWER_FORMAT);
    let fields = vec![Field::new("Word"), Field::new("Translation")];
    let templates = vec![template];
    let model = Model::new(model_id, MODEL_NAME, fields, templates);
    assert(model_fields(model) =~= word_card_fields());
    assert(model_templates(model) =~= word_card_templates());
    with_css(model, CARD_CSS)
}

/// The word card model under the id `model_id`, as a note tells of it.
pub open spec fn word_card_summary(model_id: i64) -> ModelSummary {
    (model_id, word_card_fields(), word_card_templates())
}

/// The notes of a deck made with the word card model `model_id` from `entries`.
pub open spec fn deck_notes(entries: Seq<(Seq<char>, Seq<char>, nat)>, model_id: i64) -> Seq<(ModelSummary, Seq<Seq<char>>)> {
    card_fields(entries).map_values(|f: Seq<Seq<char>>| (word_card_summary(model_id), f))
}

/// Selecting entries keeps their words distinct.
pub proof fn lemma_kept_unique(entries: Seq<(Seq<char>, Seq<char>, nat)>, min_count: int)
    requires
        words_unique(entries),
    ensures
        words_unique(kept(entries, min_count)),
    decreases entries.len(),
{
    reveal(Seq::filter);
    if entries.len() > 0 {
        let dl = entries.drop_last();
        assert(words_unique(dl)) by {
            assert forall|i: int, j: int|
                0 <= i < dl.len() && 0 <= j < dl.len() && i != j implies (#[trigger] dl[i]).0
                != (#[trigger] dl[j]).0 by {
                assert(dl[i] == entries[i] && dl[j] == entries[j]);
            }
        }
        lemma_kept_unique(dl, min_count);
        lemma_kept_exact(dl, min_count);
        let prev = kept(dl, min_count);
        let last = entries.last();
        if last.2 >= min_count {
            let cur = prev.push(last);
            assert forall|i: int, j: int|
                0 <= i < cur.len() && 0 <= j < cur.len() && i != j implies (#[trigger] cur[i]).0
                != (#[trigger] cur[j]).0 by {
                if i == prev.len() || j == prev.len() {
                    let m = if i == prev.len() { j } else { i };
                    assert(prev.contains(prev[m]));
                    assert(dl.contains(prev[m]));
                    let k = choose|k: int| 0 <= k < dl.len() && dl[k] == prev[m];
                    assert(entries[k] == dl[k]);
                    assert(entries[entries.len() - 1] == last);
                } else {
                    assert(cur[i] == prev[i] && cur[j] == prev[j]);
                }
            }
            assert(kept(entries, min_count) == cur);
        }
    }
}

/// Builds the deck of a book: one note for each entry whose count reaches
/// `min_count`, in the entries' order, each made with the word card model of
/// id `model_id` and holding the word and the trimmed translation. Distinct words in
/// the entries give cards with distinct words.
pub fn create_deck(
    entries: &Vec<Entry>,
    book_name: &str,
    deck_id: i64,
    min_count: i32,
    model_id: i64,
) -> (r: Deck)
    requires
        words_unique(entries_view(entries@)),
    ensures
        deck_content(r) == deck_notes(kept(entries_view(entries@), min_count as int), model_id),
        deck_identity(r) == (deck_id, book_name@, book_name@ + DESCRIPTION_SUFFIX@),
        forall|i: int, j: int|
            0 <= i < deck_content(r).len() && 0 <= j < deck_content(r).len() && i != j
                ==> (#[trigger] deck_content(r)[i]).1[0] != (#[trigger] deck_content(r)[j]).1[0],
{
    let model = card_model(model_id);
    let description = deck_description(book_name);
    let mut deck = Deck::new(deck_id, book_name, description.as_str());
    let chosen = select_entries(entries, min_count);
    let ghost target = deck_notes(entries_view(chosen@), model_id);
    let mut i: usize = 0;
    while i < chosen.len()
        invariant
            i <= chosen.len(),
            target == deck_notes(entries_view(chosen@), model_id),
            deck_content(deck) == target.take(i as int),
            deck_identity(deck) == (deck_id, book_name@, description@),
            model_identity(model).0 == model_id,
            model_front_back(model),
            model_fields(model) == word_card_fields(),
            model_templates(model) == word_card_templates(),
        decreases chosen.len() - i,
    {
        let e = &chosen[i];
        let translation = trim_text(e.translation.as_str());
        let note = new_note(model.clone(), e.word.as_str(), translation.as_str());
        match note {
            Ok(note) => {
                deck.add_note(note);
                assert(deck_content(deck) =~= target.take(i as int + 1));
            },
            Err(_) => {},
        }
        i = i + 1;
    }
    assert(target.take(chosen.len() as int) =~= target);
    proof {
        let sel = kept(entries_view(entries@), min_count as int);
        lemma_kept_unique(entries_view(entries@), min_count as int);
        assert forall|i: int, j: int|
            0 <= i < target.len() && 0 <= j < target.len() && i != j implies (#[trigger] target[i]).1[0]
            != (#[trigger] target[j]).1[0] by {
            assert(target[i].1[0] == sel[i].0);
            assert(target[j].1[0] == sel[j].0);
        }
    }
    deck
}

} // verus!
