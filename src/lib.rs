//! Turns the bookmarks and translation notes exported by an e-reader into a
//! flashcard deck: extraction, aggregation by word, filtering by how often a
//! word was marked, and the deck and report that describe the result.

pub mod aggregate;
pub mod error;
pub mod extract;
pub mod anki;
pub mod deck;
pub mod paths;
pub mod report;
