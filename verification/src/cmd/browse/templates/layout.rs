use vstd::prelude::*;

use crate::cmd::browse::entries::EntryKey;
use crate::text::append_chars;
use crate::text::chars_of;
use crate::text::decimal;
use crate::text::decimal_chars;
use crate::text::string_from_chars;

verus! {

/// Which deck and card, if any, are currently selected.
pub struct Selection<'a> {
    pub deck: Option<&'a str>,
    pub entry: Option<EntryKey>,
}

/// A count followed by the singular or plural form of a word.
pub open spec fn pluralized(n: usize, word: Seq<char>) -> Seq<char> {
    if n == 1 {
        decimal(n as nat) + seq![' '] + word
    } else {
        decimal(n as nat) + seq![' '] + word + seq!['s']
    }
}

/// A count followed by the singular or plural form of a word, e.g. "1 card",
/// "3 cards".
pub fn pluralize(n: usize, word: &str) -> (r: String)
    ensures
        r@ == pluralized(n, word@),
{
    let mut out = decimal_chars(n as u64);
    out.push(' ');
    let w = chars_of(word);
    append_chars(&mut out, w.as_slice());
    if n != 1 {
        out.push('s');
    }
    string_from_chars(out.as_slice())
}

/// `char::is_alphabetic`: whether `c` is alphabetic in Unicode. The
/// contract names the result.
pub uninterp spec fn alphabetic(c: char) -> bool;

/// `char::to_uppercase`: the first character of the uppercase mapping of
/// `c` (`None` only if the mapping is empty). The contract names the result.
pub uninterp spec fn uppercase_first(c: char) -> Option<char>;

/// `char::is_alphabetic`.
#[verifier::external_body]
pub(crate) fn is_alphabetic(c: char) -> (r: bool)
    ensures
        r == alphabetic(c),
{
    c.is_alphabetic()
}

/// `char::to_uppercase`, first character.
#[verifier::external_body]
pub(crate) fn to_uppercase_first(c: char) -> (r: Option<char>)
    ensures
        r == uppercase_first(c),
{
    c.to_uppercase().next()
}

/// The letter a deck is grouped under.
pub open spec fn first_letter_of(name: Seq<char>) -> char {
    if name.len() > 0 && alphabetic(name[0]) {
        match uppercase_first(name[0]) {
            Some(u) => u,
            None => name[0],
        }
    } else {
        '#'
    }
}

/// The letter a deck is grouped under: the uppercased first letter of its
/// name, or '#' for names not starting with a letter.
pub fn first_letter(name: &str) -> (r: char)
    ensures
        r == first_letter_of(name@),
{
    let n = chars_of(name);
    if n.len() > 0 && is_alphabetic(n[0]) {
        match to_uppercase_first(n[0]) {
            Some(u) => u,
            None => n[0],
        }
    } else {
        '#'
    }
}

} // verus!
