//! Word normalization: queries are trimmed and lowercased before they are
//! compared against dictionary keys.
use vstd::prelude::*;

verus! {

/// What lowercasing a text yields; a function of the characters alone.
pub uninterp spec fn lower_of(s: Seq<char>) -> Seq<char>;

/// What trimming a text yields; a function of the characters alone.
pub uninterp spec fn trimmed_of(s: Seq<char>) -> Seq<char>;

/// Relies on str::to_lowercase: the Unicode lowercase of the text, a
/// function of its characters alone; an empty text stays empty.
#[verifier::external_body]
pub fn lowercase(s: &str) -> (r: String)
    ensures
        r@ == lower_of(s@),
        s@.len() == 0 ==> r@.len() == 0,
{
    s.to_lowercase()
}

/// Relies on str::trim: the text with leading and trailing whitespace
/// removed, a function of its characters alone; an empty text stays empty.
#[verifier::external_body]
pub fn trim_text(s: &str) -> (r: String)
    ensures
        r@ == trimmed_of(s@),
        s@.len() == 0 ==> r@.len() == 0,
{
    s.trim().to_owned()
}

/// Normalizes a query the way the lookup store expects its keys: trimmed,
/// then lowercased.
pub fn normalize_word(w: &str) -> (r: String)
    ensures
        r@ == lower_of(trimmed_of(w@)),
{
    let t = trim_text(w);
    lowercase(t.as_str())
}

} // verus!
