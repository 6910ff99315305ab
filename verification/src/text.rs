//! Character classification, case folding and HTML escaping.
//!
//! The Unicode character tables live outside this crate; what they say about
//! a single character is taken on trust from the standard library and named
//! by the uninterpreted functions below. Everything built on top of them is
//! verified against those names.

use vstd::prelude::*;

verus! {

/// Whether a character is Unicode-alphanumeric.
pub uninterp spec fn unicode_alphanumeric(c: char) -> bool;

/// Whether a character is Unicode whitespace.
pub uninterp spec fn unicode_whitespace(c: char) -> bool;

/// The Unicode lowercase mapping of one character, one or more characters.
pub uninterp spec fn lower_chars(c: char) -> Seq<char>;

/// Relies on char::is_alphanumeric: whether the character is in the Unicode
/// categories letter or number; a property of the character alone.
pub assume_specification[ char::is_alphanumeric ](c: char) -> (r: bool)
    ensures
        r == unicode_alphanumeric(c),
;

/// Relies on char::is_whitespace: whether the character has the Unicode
/// White_Space property; a property of the character alone.
pub assume_specification[ char::is_whitespace ](c: char) -> (r: bool)
    ensures
        r == unicode_whitespace(c),
;

/// Relies on char::to_lowercase: the Unicode lowercase mapping of the
/// character, yielding one or more characters and depending on the
/// character alone.
#[verifier::external_body]
pub(crate) fn to_lower(c: char) -> (r: String)
    ensures
        r@ == lower_chars(c),
        r@.len() >= 1,
{
    c.to_lowercase().collect()
}

/// How one character is HTML-escaped: the five characters significant to
/// HTML become decimal character references, every other character stays.
pub open spec fn escape_char(c: char) -> Seq<char> {
    if c == '"' {
        "&#34;"@
    } else if c == '&' {
        "&#38;"@
    } else if c == '\'' {
        "&#39;"@
    } else if c == '<' {
        "&#60;"@
    } else if c == '>' {
        "&#62;"@
    } else {
        seq![c]
    }
}

/// A text HTML-escaped character by character.
pub open spec fn html_escaped(s: Seq<char>) -> Seq<char>
    decreases s.len(),
{
    if s.len() == 0 {
        Seq::empty()
    } else {
        escape_char(s[0]) + html_escaped(s.drop_first())
    }
}

/// Relies on askama_escape::escape_html: replaces `"`, `&`, `'`, `<` and `>`
/// by their decimal character references and passes every other character
/// through unchanged. Writing into a String cannot fail.
#[verifier::external_body]
pub(crate) fn escape_html_text(s: &str) -> (r: String)
    ensures
        r@ == html_escaped(s@),
{
    let mut out = String::new();
    askama_escape::escape_html(&mut out, s).unwrap();
    out
}

} // verus!
