//! Resolving the invocation: the input file, the book it names, the deck id,
//! and the files written beside the input.

use vstd::prelude::*;
use std::path::Path;
use crate::error::PipelineError;

verus! {

/// What `Path::file_stem` gives for a path, as text.
pub uninterp spec fn path_stem(p: Seq<char>) -> Option<Seq<char>>;

/// What `Path::parent` gives for a path, as text.
pub uninterp spec fn path_parent(p: Seq<char>) -> Option<Seq<char>>;

/// What `Path::join` gives for a directory and a name, as text.
pub uninterp spec fn path_joined(dir: Seq<char>, name: Seq<char>) -> Seq<char>;

/// What `Path::with_extension` gives for a path and an extension, as text.
pub uninterp spec fn path_with_extension(p: Seq<char>, ext: Seq<char>) -> Seq<char>;

/// Relies on `Path::file_stem`: the file name without its extension, if the
/// path names a file.
#[verifier::external_body]
fn file_stem_of(path: &str) -> (r: Option<String>)
    ensures
        r matches Some(s) ==> path_stem(path@) == Some(s@),
        r is None ==> path_stem(path@) is None,
{
    Path::new(path).file_stem().map(|s| s.to_string_lossy().into_owned())
}

/// Relies on `Path::parent`: the path without its last component, if it has one.
#[verifier::external_body]
fn parent_of(path: &str) -> (r: Option<String>)
    ensures
        r matches Some(s) ==> path_parent(path@) == Some(s@),
        r is None ==> path_parent(path@) is None,
{
    Path::new(path).parent().map(|p| p.to_string_lossy().into_owned())
}

/// Relies on `Path::join`: `name` adjoined to `dir`.
#[verifier::external_body]
fn join_path(dir: &str, name: &str) -> (r: String)
    ensures
        r@ == path_joined(dir@, name@),
{
    Path::new(dir).join(name).to_string_lossy().into_owned()
}

/// The text holds no path separator.
pub open spec fn no_separator(s: Seq<char>) -> bool {
    forall|i: int| 0 <= i < s.len() ==> s[i] != '/' && s[i] != '\\'
}

/// Relies on `Path::with_extension`: the path with its extension replaced. An
/// extension that holds a separator is refused by recent std, so none is passed.
#[verifier::external_body]
fn replace_extension(path: &str, ext: &str) -> (r: String)
    requires
        no_separator(ext@),
    ensures
        r@ == path_with_extension(path@, ext@),
{
    Path::new(path).with_extension(ext).to_string_lossy().into_owned()
}

/// The extension of the deck package.
pub const PACKAGE_EXTENSION: &'static str = "apkg";

/// What follows the book name in the report's file name.
pub const REPORT_SUFFIX: &'static str = "_report.txt";

/// The deck id taken from a clock reading in nanoseconds: the reading itself,
/// held at the largest `i64` beyond it.
pub open spec fn id_from_clock(nanos: nat) -> i64 {
    if nanos <= i64::MAX {
        nanos as i64
    } else {
        i64::MAX
    }
}

/// The deck id of a run: the one given, else the one taken from the clock.
pub open spec fn resolved_deck_id(given: Option<i64>, now_nanos: nat) -> i64 {
    match given {
        Some(id) => id,
        None => id_from_clock(now_nanos),
    }
}

/// Clock readings that differ, within the range of `i64`, give different deck
/// ids, so runs at different instants get different decks.
pub proof fn lemma_clock_ids_distinct(a: nat, b: nat)
    requires
        a != b,
        a <= i64::MAX,
        b <= i64::MAX,
    ensures
        id_from_clock(a) != id_from_clock(b),
{
}

/// The deck id for a run that was given none, from the time in nanoseconds
/// since the Unix epoch.
pub fn fallback_deck_id(now_nanos: u128) -> (r: i64)
    ensures
        r == id_from_clock(now_nanos as nat),
{
    if now_nanos <= i64::MAX as u128 {
        now_nanos as i64
    } else {
        i64::MAX
    }
}

/// Resolves the invocation: the input path as given (callers that read the
/// file system pass it made absolute), the book name (the
/// path's file stem), the deck id (the one given, else one from `now_nanos`)
/// and the minimum count. Fails with `InvalidInput` where the path has no
/// file stem.
pub fn parse_args(file: &str, deck_id: Option<i64>, min_count: i32, now_nanos: u128) -> (r: Result<(String, String, i64, i32), PipelineError>)
    ensures
        match path_stem(file@) {
            Some(stem) => r is Ok && {
                let (f, b, id, m) = r->Ok_0;
                &&& f@ == file@
                &&& b@ == stem
                &&& id == resolved_deck_id(deck_id, now_nanos as nat)
                &&& m == min_count
            },
            None => r == Err::<(String, String, i64, i32), PipelineError>(PipelineError::InvalidInput),
        },
{
    let id = match deck_id {
        Some(n) => n,
        None => fallback_deck_id(now_nanos),
    };
    match file_stem_of(file) {
        Some(book_name) => Ok((String::from_str(file), book_name, id, min_count)),
        None => Err(PipelineError::InvalidInput),
    }
}

/// The name of a book's report file.
pub fn report_file_name(book_name: &str) -> (r: String)
    ensures
        r@ == book_name@ + REPORT_SUFFIX@,
{
    let mut name = String::from_str(book_name);
    name.append(REPORT_SUFFIX);
    name
}

/// The report's path: `<book_name>_report.txt` in the directory of the input.
/// Fails with `InvalidInput` where the input path has no parent.
pub fn get_report_path(filepath: &str, book_name: &str) -> (r: Result<String, PipelineError>)
    ensures
        match path_parent(filepath@) {
            Some(dir) => r is Ok && r->Ok_0@ == path_joined(dir, book_name@ + REPORT_SUFFIX@),
            None => r == Err::<String, PipelineError>(PipelineError::InvalidInput),
        },
{
    match parent_of(filepath) {
        Some(dir) => {
            let name = report_file_name(book_name);
            Ok(join_path(dir.as_str(), name.as_str()))
        },
        None => Err(PipelineError::InvalidInput),
    }
}

/// The deck package's path: the input path with the package extension.
pub fn deck_path(filepath: &str) -> (r: String)
    ensures
        r@ == path_with_extension(filepath@, PACKAGE_EXTENSION@),
{
    proof {
        reveal_strlit("apkg");
    }
    replace_extension(filepath, PACKAGE_EXTENSION)
}

} // verus!
