//! Registration of the rewriting step with a host document pipeline: a
//! stable identifier, and a predicate over the name of an output-rendering
//! target — every target is supported but the single named one.

use vstd::prelude::*;
use crate::text::str_eq;

verus! {

/// Identifier under which the rewriting step registers with the host
/// pipeline.
pub fn preprocessor_name() -> (r: String)
    ensures
        r@ == "mdbook-emojicodes"@,
{
    "mdbook-emojicodes".to_owned()
}

/// Whether the rewriting step supports an output-rendering target: every
/// target is supported except the one named `not-supported`.
pub fn supports_renderer(renderer: &str) -> (r: bool)
    ensures
        r == (renderer@ != "not-supported"@),
{
    !str_eq(renderer, "not-supported")
}

} // verus!
