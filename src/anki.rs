//! The flashcard library's types and calls, as this crate relies on them.

use vstd::prelude::*;
use genanki_rs::{Deck, Field, Model, Note, Template};
use crate::deck::{ANSWER_FORMAT, QUESTION_FORMAT, TEMPLATE_NAME};

verus! {

#[verifier::external_type_specification]
#[verifier::external_body]
pub struct ExDeck(Deck);

#[verifier::external_type_specification]
#[verifier::external_body]
pub struct ExNote(Note);

#[verifier::external_type_specification]
#[verifier::external_body]
pub struct ExModel(Model);

#[verifier::external_type_specification]
#[verifier::external_body]
pub struct ExField(Field);

#[verifier::external_type_specification]
#[verifier::external_body]
pub struct ExTemplate(Template);

#[verifier::external_type_specification]
#[verifier::external_body]
pub struct ExAnkiError(genanki_rs::Error);

/// For each note of a deck, in the order they were added: its model and its
/// field values.
pub uninterp spec fn deck_content(d: Deck) -> Seq<(ModelSummary, Seq<Seq<char>>)>;

/// The id, name and description a deck was made with.
pub uninterp spec fn deck_identity(d: Deck) -> (i64, Seq<char>, Seq<char>);

/// A note's model and the note's field values.
pub uninterp spec fn note_content(n: Note) -> (ModelSummary, Seq<Seq<char>>);

/// The name a field was made with.
pub uninterp spec fn field_name(f: Field) -> Seq<char>;

/// A template's name, question layout and answer layout; a layout never set
/// reads as empty text, as genanki stores it in a model.
pub uninterp spec fn template_parts(t: Template) -> (Seq<char>, Seq<char>, Seq<char>);

/// A model's id and name.
pub uninterp spec fn model_identity(m: Model) -> (i64, Seq<char>);

/// The names of a model's fields, in order.
pub uninterp spec fn model_fields(m: Model) -> Seq<Seq<char>>;

/// The parts of a model's templates, in order.
pub uninterp spec fn model_templates(m: Model) -> Seq<(Seq<char>, Seq<char>, Seq<char>)>;

/// A model's styling.
pub uninterp spec fn model_css(m: Model) -> Seq<char>;

/// The model is of the front/back kind (not cloze).
pub uninterp spec fn model_front_back(m: Model) -> bool;

/// What a note's contract tells of its model: id, field names and templates.
pub type ModelSummary = (i64, Seq<Seq<char>>, Seq<(Seq<char>, Seq<char>, Seq<char>)>);

/// The id, field names and templates of a model.
pub open spec fn model_summary(m: Model) -> ModelSummary {
    (model_identity(m).0, model_fields(m), model_templates(m))
}

/// The field names of the word card model.
pub open spec fn word_card_fields() -> Seq<Seq<char>> {
    seq!["Word"@, "Translation"@]
}

/// The template of the word card model.
pub open spec fn word_card_templates() -> Seq<(Seq<char>, Seq<char>, Seq<char>)> {
    seq![(TEMPLATE_NAME@, QUESTION_FORMAT@, ANSWER_FORMAT@)]
}

/// Relies on `genanki_rs::Deck::new`: a deck with no notes that keeps its id,
/// name and description.
pub assume_specification[ Deck::new ](id: i64, name: &str, description: &str) -> (r: Deck)
    ensures
        deck_content(r) == Seq::<(ModelSummary, Seq<Seq<char>>)>::empty(),
        deck_identity(r) == (id, name@, description@),
;

/// Relies on `genanki_rs::Deck::add_note`: the note is appended to the deck's notes.
pub assume_specification[ Deck::add_note ](deck: &mut Deck, note: Note)
    ensures
        deck_content(*final(deck)) == deck_content(*old(deck)).push(note_content(note)),
        deck_identity(*final(deck)) == deck_identity(*old(deck)),
;

/// Relies on `genanki_rs::Model::new`: a front/back model with no styling that
/// keeps its id, name, field names and templates.
pub assume_specification[ Model::new ](
    id: i64,
    name: &str,
    fields: Vec<Field>,
    templates: Vec<Template>,
) -> (r: Model)
    ensures
        model_identity(r) == (id, name@),
        model_fields(r) == fields@.map_values(|f: Field| field_name(f)),
        model_templates(r) == templates@.map_values(|t: Template| template_parts(t)),
        model_css(r) == Seq::<char>::empty(),
        model_front_back(r),
;

/// Relies on `genanki_rs::Model`'s derived `Clone`: a copy in every part.
pub assume_specification[ <Model as Clone>::clone ](model: &Model) -> (r: Model)
    ensures
        model_identity(r) == model_identity(*model),
        model_fields(r) == model_fields(*model),
        model_templates(r) == model_templates(*model),
        model_css(r) == model_css(*model),
        model_front_back(r) == model_front_back(*model),
;

/// Relies on `genanki_rs::Field::new`: a field with the given name.
pub assume_specification[ Field::new ](name: &str) -> (r: Field)
    ensures
        field_name(r) == name@,
;

/// Relies on `genanki_rs::Template::new`: a template with the given name and
/// both layouts unset.
pub assume_specification[ Template::new ](name: &str) -> (r: Template)
    ensures
        template_parts(r) == (name@, Seq::<char>::empty(), Seq::<char>::empty()),
;

/// Relies on `genanki_rs::Template::qfmt`: sets the question layout.
pub assume_specification[ Template::qfmt ](template: Template, qfmt: &str) -> (r: Template)
    ensures
        template_parts(r) == (template_parts(template).0, qfmt@, template_parts(template).2),
;

/// Relies on `genanki_rs::Template::afmt`: sets the answer layout.
pub assume_specification[ Template::afmt ](template: Template, afmt: &str) -> (r: Template)
    ensures
        template_parts(r) == (template_parts(template).0, template_parts(template).1, afmt@),
;

/// Relies on `genanki_rs::Model::css`: sets the styling and keeps the rest.
#[verifier::external_body]
pub(crate) fn with_css(model: Model, css: &str) -> (r: Model)
    ensures
        model_css(r) == css@,
        model_identity(r) == model_identity(model),
        model_fields(r) == model_fields(model),
        model_templates(r) == model_templates(model),
        model_front_back(r) == model_front_back(model),
{
    model.css(css)
}

/// Relies on `genanki_rs::Note::new`. For the word card model (two fields,
/// Word and Translation, and one template whose question shows Word),
/// `Model::req` makes Word the one required field, so the note is made for any
/// two values and holds them unchanged, with its model.
#[verifier::external_body]
pub(crate) fn new_note(model: Model, word: &str, translation: &str) -> (r: Result<Note, genanki_rs::Error>)
    requires
        model_front_back(model),
        model_fields(model) == word_card_fields(),
        model_templates(model) == word_card_templates(),
    ensures
        r is Ok,
        r matches Ok(n) ==> note_content(n) == (model_summary(model), seq![word@, translation@]),
{
    Note::new(model, vec![word, translation])
}

} // verus!
