use vstd::prelude::*;
use vstd::string::StringExecFns;
use crate::command::{decimal, is_digit, number};

verus! {

/// The character that writes a digit.
pub open spec fn digit_char(digit: nat) -> char {
    if digit == 0 {
        '0'
    } else if digit == 1 {
        '1'
    } else if digit == 2 {
        '2'
    } else if digit == 3 {
        '3'
    } else if digit == 4 {
        '4'
    } else if digit == 5 {
        '5'
    } else if digit == 6 {
        '6'
    } else if digit == 7 {
        '7'
    } else if digit == 8 {
        '8'
    } else {
        '9'
    }
}

/// A number written in decimal digits, without leading zeros.
pub open spec fn digits_of(n: nat) -> Seq<char>
    decreases n,
{
    if n < 10 {
        seq![digit_char(n)]
    } else {
        digits_of(n / 10).push(digit_char(n % 10))
    }
}

/// Texts put one after the other with a separator between each two.
pub open spec fn joined_text(parts: Seq<Seq<char>>, separator: Seq<char>) -> Seq<char>
    decreases parts.len(),
{
    if parts.len() == 0 {
        Seq::empty()
    } else if parts.len() == 1 {
        parts[0]
    } else {
        joined_text(parts.drop_last(), separator) + separator + parts.last()
    }
}

/// A text repeated a number of times.
pub open spec fn repeated(text: Seq<char>, times: nat) -> Seq<char>
    decreases times,
{
    if times == 0 {
        Seq::empty()
    } else {
        repeated(text, (times - 1) as nat) + text
    }
}

/// The texts of a list as the contracts see them.
pub open spec fn text_views(parts: Seq<String>) -> Seq<Seq<char>> {
    Seq::new(parts.len(), |i: int| parts[i]@)
}

/// The text that writes a digit.
pub fn digit_text(digit: usize) -> (text: &'static str)
    requires
        digit < 10,
    ensures
        text@ == seq![digit_char(digit as nat)],
{
    proof {
        reveal_strlit("0");
        reveal_strlit("1");
        reveal_strlit("2");
        reveal_strlit("3");
        reveal_strlit("4");
        reveal_strlit("5");
        reveal_strlit("6");
        reveal_strlit("7");
        reveal_strlit("8");
        reveal_strlit("9");
    }
    let text = match digit {
        0 => "0",
        1 => "1",
        2 => "2",
        3 => "3",
        4 => "4",
        5 => "5",
        6 => "6",
        7 => "7",
        8 => "8",
        _ => "9",
    };
    assert(text@ =~= seq![digit_char(digit as nat)]);
    text
}

/// Writes a number in decimal digits.
pub fn decimal_text(n: usize) -> (text: String)
    ensures
        text@ == digits_of(n as nat),
    decreases n,
{
    if n < 10 {
        String::from_str(digit_text(n))
    } else {
        let front = decimal_text(n / 10);
        let text = front.concat(digit_text(n % 10));
        assert(text@ =~= digits_of(n as nat));
        text
    }
}

/// A text repeated a number of times.
pub fn repeat_text(text: &str, times: usize) -> (out: String)
    ensures
        out@ == repeated(text@, times as nat),
{
    let mut out = String::from_str("");
    proof {
        reveal_strlit("");
    }
    assert(out@ =~= repeated(text@, 0));
    let mut i: usize = 0;
    while i < times
        invariant
            i <= times,
            out@ == repeated(text@, i as nat),
        decreases times - i,
    {
        out = out.concat(text);
        i += 1;
    }
    out
}

/// Calls `itertools::Itertools::join` on the texts of the list: the result is
/// the texts one after the other, with the separator between each two, and
/// the empty text for an empty list. `join` reserves room for as many
/// separators as there are texts; with a separator of at most three
/// characters that is less than the list itself takes up, so the reservation
/// cannot fail.
#[verifier::external_body]
pub(crate) fn join_texts(parts: &Vec<String>, separator: &str) -> (out: String)
    requires
        separator@.len() <= 3,
    ensures
        out@ == joined_text(text_views(parts@), separator@),
{
    itertools::Itertools::join(&mut parts.iter(), separator)
}

/// What is written in decimal digits is read as the number that was written.
pub proof fn lemma_digits_are_read_back(n: nat)
    ensures
        digits_of(n).len() > 0,
        forall|i: int| 0 <= i < digits_of(n).len() ==> is_digit(#[trigger] digits_of(n)[i]),
        decimal(digits_of(n)) == Some(n),
        number(digits_of(n)) == Some(n),
    decreases n,
{
    if n >= 10 {
        lemma_digits_are_read_back(n / 10);
        assert(digits_of(n).drop_last() =~= digits_of(n / 10));
    }
    assert(is_digit(digits_of(n)[0]));
}

} // verus!
