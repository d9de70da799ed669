//! The plain-text summary of a run.

use vstd::prelude::*;

verus! {

/// The character of a decimal digit.
pub open spec fn digit_char(d: nat) -> char {
    if d == 0 { '0' } else if d == 1 { '1' } else if d == 2 { '2' } else if d == 3 { '3' }
    else if d == 4 { '4' } else if d == 5 { '5' } else if d == 6 { '6' } else if d == 7 { '7' }
    else if d == 8 { '8' } else { '9' }
}

/// The decimal digits of a natural number, most significant first, without
/// leading zeros.
pub open spec fn digits(n: nat) -> Seq<char>
    decreases n,
{
    if n < 10 {
        seq![digit_char(n)]
    } else {
        digits(n / 10).push(digit_char(n % 10))
    }
}

/// The decimal form of an integer, with a leading `-` when negative.
pub open spec fn decimal(n: int) -> Seq<char> {
    if n < 0 {
        seq!['-'] + digits((-n) as nat)
    } else {
        digits(n as nat)
    }
}

/// The one-character text of a decimal digit.
fn digit_text(d: u64) -> (r: &'static str)
    requires
        d < 10,
    ensures
        r@ == seq![digit_char(d as nat)],
{
    proof {
        reveal_strlit("0");
        reveal_strlit("1");
        reveal_strlit("2");
        reveal_strlit("3");
        reveal_strlit("4");
        reveal_strlit("5");
        reveal_strlit("6");
        reveal_strlit("7");
        reveal_strlit("8");
        reveal_strlit("9");
    }
    if d == 0 { "0" } else if d == 1 { "1" } else if d == 2 { "2" } else if d == 3 { "3" }
    else if d == 4 { "4" } else if d == 5 { "5" } else if d == 6 { "6" } else if d == 7 { "7" }
    else if d == 8 { "8" } else { "9" }
}

/// Appends the decimal digits of `n` to `out`.
fn push_digits(n: u64, out: &mut String)
    ensures
        final(out)@ == old(out)@ + digits(n as nat),
    decreases n,
{
    if n >= 10 {
        push_digits(n / 10, out);
    }
    out.append(digit_text(n % 10));
    assert(out@ =~= old(out)@ + digits(n as nat));
}

/// The decimal form of `n`.
pub fn decimal_text(n: i64) -> (r: String)
    ensures
        r@ == decimal(n as int),
{
    let mut text = String::new();
    if n < 0 {
        text.append("-");
        proof {
            reveal_strlit("-");
        }
        let magnitude: u64 = (0i128 - n as i128) as u64;
        push_digits(magnitude, &mut text);
    } else {
        push_digits(n as u64, &mut text);
    }
    assert(text@ =~= decimal(n as int));
    text
}

/// The report of a run, line by line: book name, deck id, model id, source
/// path and minimum count.
pub open spec fn report_text(book_name: Seq<char>, deck_id: i64, model_id: i64, filepath: Seq<char>, min_count: i32) -> Seq<char> {
    "Book name: "@ + book_name + "\nDeck id: "@ + decimal(deck_id as int) + "\nModel id: "@
        + decimal(model_id as int) + "\nSource file: "@ + filepath + "\nMinimum word count: "@
        + decimal(min_count as int) + "\n"@
}

/// Writes the report of a run.
pub fn report_content(book_name: &str, deck_id: i64, model_id: i64, filepath: &str, min_count: i32) -> (r: String)
    ensures
        r@ == report_text(book_name@, deck_id, model_id, filepath@, min_count),
{
    let mut text = String::from_str("Book name: ");
    text.append(book_name);
    text.append("\nDeck id: ");
    text.append(decimal_text(deck_id).as_str());
    text.append("\nModel id: ");
    text.append(decimal_text(model_id).as_str());
    text.append("\nSource file: ");
    text.append(filepath);
    text.append("\nMinimum word count: ");
    text.append(decimal_text(min_count as i64).as_str());
    text.append("\n");
    text
}

} // verus!
