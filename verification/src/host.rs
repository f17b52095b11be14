//! The host tokenizer, reached through trusted wrappers.
//!
//! Embedded expressions are passed through opaquely: the library never looks
//! inside them, it only asks the host tokenizer whether a text re-tokenizes,
//! and whether an identifier-shaped name is accepted as an identifier.

use vstd::prelude::*;

verus! {

/// Whether this text re-tokenizes into a valid token sequence. The outcome is
/// a function of the text alone.
pub uninterp spec fn lexes(s: Seq<char>) -> bool;

/// Whether this text is accepted as a lone identifier token; in particular a
/// reserved keyword is not. The outcome is a function of the text alone.
pub uninterp spec fn accepted_ident(s: Seq<char>) -> bool;

/// Relies on `str::parse::<proc_macro2::TokenStream>`: whether the text lexes
/// depends on the text alone. Of a failure's diagnostic text nothing is
/// promised beyond its presence.
#[verifier::external_body]
pub(crate) fn try_tokenize(s: &str) -> (r: Option<String>)
    ensures
        r is None <==> lexes(s@),
{
    match s.parse::<proc_macro2::TokenStream>() {
        Ok(_) => None,
        Err(e) => Some(format!("{:?}", e)),
    }
}

/// Relies on `syn::parse_str::<proc_macro2::Ident>`: whether a text is one
/// acceptable identifier depends on the text alone (reserved keywords and a
/// lone underscore are refused).
#[verifier::external_body]
pub(crate) fn parse_ident_ok(s: &str) -> (r: bool)
    ensures
        r == accepted_ident(s@),
{
    syn::parse_str::<proc_macro2::Ident>(s).is_ok()
}

/// Relies on `String::push` of std: appends one character to the string.
#[verifier::external_body]
pub(crate) fn push_char(s: &mut String, c: char)
    ensures
        final(s)@ == old(s)@.push(c),
{
    s.push(c)
}

} // verus!
