//! Case folding, which the standard library computes.
use vstd::prelude::*;

verus! {

/// The lowercase form of `text`: the characters of the string that
/// `str::to_lowercase` returns for a string with the characters `text`.
/// No definition is given here: the mapping is the one of the Unicode
/// tables that the standard library carries.
pub uninterp spec fn lowercase(text: Seq<char>) -> Seq<char>;

/// Calls `str::to_lowercase`. Its contract is believed, not proved. It
/// claims that the characters of the result depend on the characters of
/// `text` alone, so that equal texts always fold to equal texts, and gives
/// that result the name `lowercase`.
#[verifier::external_body]
pub(crate) fn to_lowercase(text: &str) -> (folded: String)
    ensures
        folded@ == lowercase(text@),
{
    text.to_lowercase()
}

} // verus!
