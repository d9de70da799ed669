use pb_notes::aggregate::{aggregate_pairs, has_unique_words, Entry};
use pb_notes::deck::{create_deck, deck_description, select_entries, MODEL_ID};
use pb_notes::error::PipelineError;
use pb_notes::extract::{bookmark_pairs, parse_html};
use pb_notes::paths::{deck_path, fallback_deck_id, get_report_path, parse_args, report_file_name};
use pb_notes::report::{decimal_text, report_content};

fn bookmark(text: &str, note: Option<&str>) -> String {
    let mut b = String::from("<div class=\"bookmark\"><div class=\"bm-text\">");
    b.push_str(text);
    b.push_str("</div>");
    if let Some(n) = note {
        b.push_str("<div class=\"bm-note\">");
        b.push_str(n);
        b.push_str("</div>");
    }
    b.push_str("</div>");
    b
}

fn document(blocks: &[String]) -> String {
    format!("<html><body>{}</body></html>", blocks.concat())
}

fn entry(word: &str, translation: &str, count: usize) -> Entry {
    Entry { word: word.to_string(), translation: translation.to_string(), count }
}

fn pair(w: &str, t: &str) -> (String, String) {
    (w.to_string(), t.to_string())
}

#[test]
fn duplicate_word_keeps_first_translation() {
    let html = document(&[bookmark("apple", Some("fruit")), bookmark("apple", Some("company"))]);
    let entries = parse_html(&html);
    assert_eq!(entries.len(), 1);
    assert_eq!(entries[0].word, "apple");
    assert_eq!(entries[0].translation, "fruit");
    assert_eq!(entries[0].count, 2);
    let chosen = select_entries(&entries, 2);
    assert_eq!(chosen.len(), 1);
    assert_eq!(chosen[0].word, "apple");
    let _deck = create_deck(&entries, "book", 7, 2, MODEL_ID);
}

#[test]
fn single_bookmark_below_minimum_is_left_out() {
    let html = document(&[bookmark("zephyr", Some("west wind"))]);
    let entries = parse_html(&html);
    assert_eq!(entries.len(), 1);
    assert_eq!(entries[0].word, "zephyr");
    assert_eq!(entries[0].count, 1);
    assert!(select_entries(&entries, 2).is_empty());
}

#[test]
fn count_equals_number_of_bookmarks_with_the_word() {
    let html = document(&[
        bookmark("  tide ", Some("a")),
        bookmark("moon", Some("b")),
        bookmark("tide", Some("c")),
        bookmark("tide\n", Some("d")),
    ]);
    let entries = parse_html(&html);
    assert_eq!(entries.len(), 2);
    assert_eq!(entries[0].word, "tide");
    assert_eq!(entries[0].count, 3);
    assert_eq!(entries[0].translation, "a");
    assert_eq!(entries[1].word, "moon");
    assert_eq!(entries[1].count, 1);
}

#[test]
fn bookmark_without_note_is_skipped() {
    let html = document(&[bookmark("lonely", None), bookmark("pair", Some("two"))]);
    let entries = parse_html(&html);
    assert_eq!(entries.len(), 1);
    assert_eq!(entries[0].word, "pair");
}

#[test]
fn note_markup_is_kept_and_text_is_joined() {
    let html = document(&[bookmark(" ap<b>pl</b>e ", Some("  <i>a fruit</i> "))]);
    let entries = parse_html(&html);
    assert_eq!(entries.len(), 1);
    assert_eq!(entries[0].word, "apple");
    assert_eq!(entries[0].translation, "<i>a fruit</i>");
}

#[test]
fn empty_and_malformed_documents_give_nothing() {
    assert!(parse_html("").is_empty());
    assert!(parse_html("<div class=\"bookmark\"><p>unclosed").is_empty());
}

#[test]
fn pairs_are_trimmed_and_incomplete_ones_dropped() {
    let raw = vec![
        (Some("  word ".to_string()), Some("\tnote\n".to_string())),
        (None, Some("x".to_string())),
        (Some("y".to_string()), None),
    ];
    let pairs = bookmark_pairs(&raw);
    assert_eq!(pairs, vec![pair("word", "note")]);
}

#[test]
fn aggregation_counts_and_orders_by_first_sight() {
    let pairs = vec![pair("b", "1"), pair("a", "2"), pair("b", "3"), pair("b", "4")];
    let entries = aggregate_pairs(&pairs);
    assert_eq!(entries.len(), 2);
    assert_eq!((entries[0].word.as_str(), entries[0].translation.as_str(), entries[0].count), ("b", "1", 3));
    assert_eq!((entries[1].word.as_str(), entries[1].translation.as_str(), entries[1].count), ("a", "2", 1));
    assert!(aggregate_pairs(&vec![]).is_empty());
}

#[test]
fn selection_keeps_exactly_counts_at_or_above_minimum() {
    let entries = vec![entry("a", "x", 1), entry("b", "y", 3), entry("c", "z", 2)];
    let words = |k: i32| -> Vec<String> { select_entries(&entries, k).into_iter().map(|e| e.word).collect() };
    assert_eq!(words(1), vec!["a", "b", "c"]);
    assert_eq!(words(2), vec!["b", "c"]);
    assert_eq!(words(3), vec!["b"]);
    assert!(words(4).is_empty());
    assert_eq!(words(0), vec!["a", "b", "c"]);
    assert_eq!(words(-5), vec!["a", "b", "c"]);
}

#[test]
fn deck_is_built_from_entries() {
    let entries = vec![entry("a", "x", 1), entry("b", "<b>y</b>", 2)];
    assert!(has_unique_words(&entries));
    let _deck = create_deck(&entries, "Book", 42, 1, MODEL_ID);
    let _empty = create_deck(&vec![], "Book", 42, 1, MODEL_ID);
}

#[test]
fn description_names_the_book() {
    assert_eq!(deck_description("Dune"), "Dune. Deck created from Pocket Book translation notes");
}

#[test]
fn arguments_resolve_book_name_and_deck_id() {
    let (path, book, id, min) = parse_args("notes/My Book.html", Some(5), 3, 99).unwrap();
    assert_eq!(path, "notes/My Book.html");
    assert_eq!(book, "My Book");
    assert_eq!(id, 5);
    assert_eq!(min, 3);
    let (_, _, id, _) = parse_args("a.html", None, 1, 1_700_000_000_123_456_789).unwrap();
    assert_eq!(id, 1_700_000_000_123_456_789);
}

#[test]
fn path_without_file_stem_is_invalid_input() {
    assert_eq!(parse_args("", None, 1, 1), Err(PipelineError::InvalidInput));
    assert_eq!(parse_args("/", Some(1), 1, 1), Err(PipelineError::InvalidInput));
}

#[test]
fn successive_clock_readings_give_distinct_ids() {
    let first = parse_args("a.html", None, 1, 1_700_000_000_000_000_000).unwrap().2;
    let second = parse_args("a.html", None, 1, 1_700_000_000_000_000_001).unwrap().2;
    assert_ne!(first, second);
    assert_eq!(fallback_deck_id(u128::MAX), i64::MAX);
    assert_eq!(fallback_deck_id(0), 0);
}

#[test]
fn report_path_sits_beside_the_input() {
    assert_eq!(get_report_path("dir/book.html", "book"), Ok("dir/book_report.txt".to_string()));
    assert_eq!(get_report_path("book.html", "book"), Ok("book_report.txt".to_string()));
    assert_eq!(get_report_path("/", "x"), Err(PipelineError::InvalidInput));
    assert_eq!(report_file_name("Dune"), "Dune_report.txt");
}

#[test]
fn deck_path_replaces_extension() {
    assert_eq!(deck_path("dir/book.html"), "dir/book.apkg");
    assert_eq!(deck_path("book"), "book.apkg");
}

#[test]
fn report_lists_the_run() {
    let text = report_content("Dune", 12, MODEL_ID, "dir/Dune.html", -3);
    assert_eq!(
        text,
        "Book name: Dune\nDeck id: 12\nModel id: 1728045059\nSource file: dir/Dune.html\nMinimum word count: -3\n"
    );
}

#[test]
fn repeated_words_are_detected() {
    assert!(has_unique_words(&vec![entry("a", "x", 1), entry("b", "y", 1)]));
    assert!(!has_unique_words(&vec![entry("a", "x", 1), entry("b", "y", 1), entry("a", "z", 2)]));
    assert!(has_unique_words(&vec![]));
    let html = document(&[bookmark("a", Some("1")), bookmark("a", Some("2")), bookmark("b", Some("3"))]);
    assert!(has_unique_words(&parse_html(&html)));
}

#[test]
fn unicode_white_space_is_trimmed() {
    let raw = vec![(
        Some("\u{a0}\u{3000}word\u{2009}".to_string()),
        Some("\u{85}<b>note</b>\u{202f}\r\n".to_string()),
    )];
    assert_eq!(bookmark_pairs(&raw), vec![pair("word", "<b>note</b>")]);
}

#[test]
fn integers_are_written_in_decimal() {
    assert_eq!(decimal_text(0), "0");
    assert_eq!(decimal_text(7), "7");
    assert_eq!(decimal_text(-40), "-40");
    assert_eq!(decimal_text(1728045059), "1728045059");
    assert_eq!(decimal_text(i64::MAX), "9223372036854775807");
    assert_eq!(decimal_text(i64::MIN), "-9223372036854775808");
}
