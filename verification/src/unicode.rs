//! Grapheme segmentation and display width, from the `unicode-segmentation`
//! and `unicode-width` crates.
use vstd::prelude::*;
use unicode_segmentation::UnicodeSegmentation;
use unicode_width::UnicodeWidthStr;

verus! {

/// The extended grapheme clusters `unicode-segmentation` splits a string with
/// these characters into.
pub uninterp spec fn spec_graphemes(s: Seq<char>) -> Seq<Seq<char>>;

/// The terminal display width `unicode-width` gives a string with these
/// characters.
pub uninterp spec fn spec_width(s: Seq<char>) -> nat;

/// The concatenation of `parts`.
pub open spec fn concat(parts: Seq<Seq<char>>) -> Seq<char>
    decreases parts.len(),
{
    if parts.len() == 0 {
        Seq::empty()
    } else {
        concat(parts.drop_last()) + parts.last()
    }
}

/// `UnicodeSegmentation::graphemes(s, true)`, each cluster as a `String`.
/// Claims, as the crate documents, that the clusters are non-empty and
/// that together, in order, they make up `s`.
#[verifier::external_body]
pub(crate) fn graphemes(s: &str) -> (r: Vec<String>)
    ensures
        r@.len() == spec_graphemes(s@).len(),
        forall|k: int| 0 <= k < r@.len() ==> (#[trigger] r@[k])@ == spec_graphemes(s@)[k],
        concat(r@.map_values(|g: String| g@)) == s@,
        forall|k: int| 0 <= k < r@.len() ==> (#[trigger] r@[k])@.len() > 0,
{
    s.graphemes(true).map(|g| g.to_string()).collect()
}

/// `UnicodeWidthStr::width(s)`: the number of terminal columns `s` takes.
#[verifier::external_body]
pub(crate) fn width(s: &str) -> (r: usize)
    ensures
        r == spec_width(s@),
{
    UnicodeWidthStr::width(s)
}

} // verus!
