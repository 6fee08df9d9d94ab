//! The upper-case and the lower-case form of a text.

use vstd::prelude::*;

verus! {

/// The upper-case form of `text` by Unicode's mapping.
pub uninterp spec fn uppercased(text: Seq<char>) -> Seq<char>;

/// The lower-case form of `text` by Unicode's mapping.
pub uninterp spec fn lowercased(text: Seq<char>) -> Seq<char>;

/// `str::to_uppercase` of std: the same text gives the same result.
pub assume_specification[ str::to_uppercase ](text: &str) -> (out: String)
    ensures
        out@ == uppercased(text@),
;

/// `str::to_lowercase` of std: the same text gives the same result.
pub assume_specification[ str::to_lowercase ](text: &str) -> (out: String)
    ensures
        out@ == lowercased(text@),
;

} // verus!
