//! The custom-symbol registry: an ordered list of user-supplied symbol
//! names, each standing for one graphic resource. Lookup resolves a name
//! to a fixed-template embed fragment referencing that resource.

use vstd::prelude::*;
use crate::text::str_eq;

verus! {

/// Opening part of the embed fragment generated for a custom symbol.
pub open spec fn fragment_prefix() -> Seq<char> {
    "<object style=\"height:2.5rem; width:2.5rem;position:relative;top:0.5em;\" data=\"custom_emojis/"@
}

/// Closing part of the embed fragment generated for a custom symbol.
pub open spec fn fragment_suffix() -> Seq<char> {
    ".svg\" type=\"image/svg+xml\"></object>"@
}

/// The full embed fragment generated for the custom symbol `name`.
pub open spec fn custom_fragment(name: Seq<char>) -> Seq<char> {
    fragment_prefix() + name + fragment_suffix()
}

/// Whether the registry holds `name`, by exact string equality.
pub open spec fn registry_has(reg: Seq<Seq<char>>, name: Seq<char>) -> bool {
    exists|k: int| 0 <= k < reg.len() && reg[k] == name
}

/// Resolves `content` against the custom registry `buf`: the embed
/// fragment for the name when some entry matches it exactly, nothing
/// otherwise.
pub fn get_custom_emoji(content: &str, buf: &Vec<String>) -> (r: Option<String>)
    ensures
        (match r {
            Some(s) => registry_has(buf.deep_view(), content@) && s@ == custom_fragment(content@),
            None => !registry_has(buf.deep_view(), content@),
        }),
{
    let mut k: usize = 0;
    let mut found = false;
    while k < buf.len() && !found
        invariant
            k <= buf.len(),
            found ==> k < buf.len() && buf.deep_view()[k as int] == content@,
            !found ==> forall|l: int| 0 <= l < k ==> buf.deep_view()[l] != content@,
        decreases buf.len() - k + (if found { 0int } else { 1int }),
    {
        if str_eq(buf[k].as_str(), content) {
            assert(buf.deep_view()[k as int] == buf@[k as int]@);
            found = true;
        } else {
            assert(buf.deep_view()[k as int] == buf@[k as int]@);
            k = k + 1;
        }
    }
    if found {
        let mut s =
            "<object style=\"height:2.5rem; width:2.5rem;position:relative;top:0.5em;\" data=\"custom_emojis/".to_owned();
        s.append(content);
        s.append(".svg\" type=\"image/svg+xml\"></object>");
        Some(s)
    } else {
        assert(!registry_has(buf.deep_view(), content@));
        None
    }
}

/// The symbol name carried by a graphic resource file: the file name with
/// the `.svg` extension stripped, or nothing when the name does not end
/// in that extension.
pub fn symbol_name_of_filename(file_name: &str) -> (r: Option<String>)
    ensures
        (match r {
            Some(s) => file_name@.len() >= 4 && file_name@.skip(file_name@.len() - 4) == ".svg"@
                && s@ == file_name@.take(file_name@.len() - 4),
            None => !(file_name@.len() >= 4 && file_name@.skip(file_name@.len() - 4) == ".svg"@),
        }),
{
    let n = file_name.unicode_len();
    if n < 4 {
        return None;
    }
    let suffix = file_name.substring_char(n - 4, n);
    assert(suffix@ =~= file_name@.skip(file_name@.len() - 4));
    if str_eq(suffix, ".svg") {
        let stem = file_name.substring_char(0, n - 4);
        assert(stem@ =~= file_name@.take(file_name@.len() - 4));
        Some(stem.to_owned())
    } else {
        None
    }
}

} // verus!
