//! Unicode case folding and the format-character table, reached through
//! trusted declarations: what these return is named, not restated.
use vstd::prelude::*;

verus! {

/// The uppercase form of a character sequence, as `str::to_uppercase` computes it.
pub uninterp spec fn upper_of(s: Seq<char>) -> Seq<char>;

/// The lowercase form of a character sequence, as `str::to_lowercase` computes it.
pub uninterp spec fn lower_of(s: Seq<char>) -> Seq<char>;

/// Membership in the Unicode "Other, Format" (Cf) category.
pub uninterp spec fn format_char(c: char) -> bool;

/// Relies on `str::to_uppercase`: the result depends on the characters alone,
/// and the empty string stays empty.
#[verifier::external_body]
pub fn to_upper(s: &str) -> (r: String)
    ensures
        r@ == upper_of(s@),
        s@.len() == 0 ==> r@.len() == 0,
{
    s.to_uppercase()
}

/// Relies on `str::to_lowercase`: the result depends on the characters alone,
/// and the empty string stays empty.
#[verifier::external_body]
pub fn to_lower(s: &str) -> (r: String)
    ensures
        r@ == lower_of(s@),
        s@.len() == 0 ==> r@.len() == 0,
{
    s.to_lowercase()
}

/// Relies on `unicode_categories::UnicodeCategories::is_other_format`:
/// a table lookup deciding whether `c` lies in the Cf category.
#[verifier::external_body]
pub fn char_is_format(c: char) -> (r: bool)
    ensures
        r == format_char(c),
{
    unicode_categories::UnicodeCategories::is_other_format(c)
}

pub fn upper_chars(v: &Vec<char>) -> (r: Vec<char>)
    ensures
        r@ == upper_of(v@),
        v@.len() == 0 ==> r@.len() == 0,
{
    let s = crate::text::chars_to_string(v);
    let u = to_upper(s.as_str());
    crate::text::str_to_chars(u.as_str())
}

pub fn lower_chars(v: &Vec<char>) -> (r: Vec<char>)
    ensures
        r@ == lower_of(v@),
        v@.len() == 0 ==> r@.len() == 0,
{
    let s = crate::text::chars_to_string(v);
    let u = to_lower(s.as_str());
    crate::text::str_to_chars(u.as_str())
}

} // verus!
