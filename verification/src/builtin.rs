//! The built-in symbol table: a read-only mapping from shortcode names to
//! rendered emoji, supplied by the `emojis` crate.

use vstd::prelude::*;

verus! {

/// What the built-in table maps a shortcode name to: the rendered emoji,
/// or nothing when the name is not in the table. The table is a fixed
/// compiled-in map, so the result depends on the name alone.
pub uninterp spec fn builtin_emoji(name: Seq<char>) -> Option<Seq<char>>;

/// Relies on `emojis::get_by_shortcode`: a lookup in the crate's fixed
/// compiled-in table from gemoji shortcode names to emoji entries, whose
/// result depends on the name alone; `Emoji::as_str` renders the entry
/// found as its string form.
#[verifier::external_body]
pub(crate) fn lookup_builtin(name: &str) -> (r: Option<String>)
    ensures
        builtin_emoji(name@) == (match r {
            Some(s) => Some(s@),
            None => None::<Seq<char>>,
        }),
{
    match emojis::get_by_shortcode(name) {
        Some(e) => Some(e.as_str().to_string()),
        None => None,
    }
}

} // verus!
