//! The case-folded projection that comparisons are made over.

use vstd::prelude::*;

verus! {

/// The case-folded projection of a sequence of characters: every character
/// mapped to its lowercase form. The projection is used only for comparison
/// and hashing; the original spelling of a key is always preserved.
pub uninterp spec fn fold_of(s: Seq<char>) -> Seq<char>;

/// Relies on str::to_lowercase: the returned string is the lowercase
/// equivalent of the input, a function of the input characters alone.
#[verifier::external_body]
pub(crate) fn to_folded(s: &str) -> (r: String)
    ensures
        r@ == fold_of(s@),
{
    s.to_lowercase()
}

} // verus!
