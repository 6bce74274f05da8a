//! The markdown-to-HTML conversion, done by an outside converter and treated
//! as a pure function of the body text.

use vstd::prelude::*;

verus! {

/// The HTML that the markdown converter produces for a body: with fixed
/// default options it is a function of the text alone.
pub uninterp spec fn markdown_of(s: Seq<char>) -> Seq<char>;

/// Relies on comrak::markdown_to_html with default options: a pure
/// conversion whose result depends on the markdown text alone.
#[verifier::external_body]
pub(crate) fn markdown_to_html(body: &str) -> (r: String)
    ensures
        r@ == markdown_of(body@),
{
    comrak::markdown_to_html(body, &comrak::Options::default())
}

} // verus!
