//! The recognition of unit strings.

use crate::text::{chars_of, trim_bounds, text_between, trimmed};
use vstd::prelude::*;

verus! {

/// Whether the regular expression `pattern` can be compiled and, if so,
/// whether it finds a match anywhere in `text`.
pub uninterp spec fn pattern_match(pattern: Seq<char>, text: Seq<char>) -> Option<bool>;

/// Compiles `pattern` with `regex::Regex::new` and asks `is_match` whether
/// there is a match anywhere in `text`. `None` stands for a pattern that
/// does not compile. Nothing more is claimed than that the answer is the
/// one of the regular expression engine for these two texts.
#[verifier::external_body]
fn matches_pattern(pattern: &str, text: &str) -> (r: Option<bool>)
    ensures
        r == pattern_match(pattern@, text@),
{
    match regex::Regex::new(pattern) {
        Ok(re) => Some(re.is_match(text)),
        Err(_) => None,
    }
}

/// The pattern of a unit string: a number, with an optional minus sign, an
/// optional fraction and an optional exponent, then whitespace, then at
/// least one letter or one of `/`, `°`, `µ`.
pub open spec fn unit_pattern() -> Seq<char> {
    "^-?\\d+(\\.\\d+)?([eE][+-]?\\d+)?\\s+[a-zA-Z/°µ]+"@
}

/// Whether a text counts as a unit string, given what the search for the
/// pattern in it has answered: the text is not empty and the pattern was
/// found.
pub open spec fn unit_verdict(text: Seq<char>, found: Option<bool>) -> bool {
    text.len() > 0 && found == Some(true)
}

/// Whether a text counts as a unit string, given what the search for the
/// pattern in it has answered.
pub fn unit_string_verdict(text: &str, found: Option<bool>) -> (r: bool)
    ensures
        r == unit_verdict(text@, found),
{
    if text.unicode_len() == 0 {
        return false;
    }
    match found {
        Some(b) => b,
        None => false,
    }
}

/// Whether a text looks like a quantity with a unit: without the
/// whitespace around it, it is not empty and the pattern of unit strings
/// is found in it.
pub open spec fn is_unit_string(s: Seq<char>) -> bool {
    unit_verdict(trimmed(s), pattern_match(unit_pattern(), trimmed(s)))
}

/// Whether `s` looks like a quantity with a unit, such as `100 bar` or
/// `-20 C`. Whitespace around the text does not count.
pub fn looks_like_unit_string(s: &str) -> (r: bool)
    ensures
        r == is_unit_string(s@),
{
    let chars = chars_of(s);
    let (from, to) = trim_bounds(&chars, 0, chars.len());
    assert(chars@.subrange(0, chars.len() as int) =~= chars@);
    let text = text_between(&chars, from, to);
    if text.as_str().unicode_len() == 0 {
        return false;
    }
    let found = matches_pattern("^-?\\d+(\\.\\d+)?([eE][+-]?\\d+)?\\s+[a-zA-Z/°µ]+", text.as_str());
    unit_string_verdict(text.as_str(), found)
}

} // verus!
