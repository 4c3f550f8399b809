//! The line rewriter: scans one line for `:name:` shortcode tokens, resolves
//! each against the built-in table first and the custom registry second, and
//! replaces every occurrence of each resolved token within the line. A token
//! already substituted earlier on the same line is not resolved again.

use vstd::prelude::*;
use crate::builtin::{builtin_emoji, lookup_builtin};
use crate::registry::{custom_fragment, get_custom_emoji, registry_has};
use crate::text::{find_from, lemma_find_from, find_char_from, replace_all, replace_all_exec};

verus! {

/// The shortcode tokens of `s` at or after position `p`, in order: each is
/// the shortest run `:...:` between an opening colon and the next colon,
/// with scanning resuming after each token's closing colon.
pub open spec fn tokens_from(s: Seq<char>, p: int) -> Seq<Seq<char>>
    decreases s.len() - p
    when 0 <= p <= s.len()
    via tokens_from_decreases
{
    let i = find_from(s, ':', p);
    if i >= s.len() {
        Seq::empty()
    } else {
        let j = find_from(s, ':', i + 1);
        if j >= s.len() {
            Seq::empty()
        } else {
            seq![s.subrange(i, j + 1)] + tokens_from(s, j + 1)
        }
    }
}

#[via_fn]
proof fn tokens_from_decreases(s: Seq<char>, p: int) {
    lemma_find_from(s, ':', p);
    let i = find_from(s, ':', p);
    if i < s.len() {
        lemma_find_from(s, ':', i + 1);
    }
}

/// The name inside a token: the characters between its two colons.
pub open spec fn inner_name(tok: Seq<char>) -> Seq<char> {
    tok.subrange(1, tok.len() - 1)
}

/// What a shortcode name resolves to: the built-in table is consulted
/// first, then the custom registry; an unknown name resolves to nothing.
pub open spec fn resolve_spec(name: Seq<char>, reg: Seq<Seq<char>>) -> Option<Seq<char>> {
    if builtin_emoji(name) is Some {
        builtin_emoji(name)
    } else if registry_has(reg, name) {
        Some(custom_fragment(name))
    } else {
        None
    }
}

/// Folds the token list over the line content: each token not yet known
/// that resolves has every occurrence of it replaced and is marked known;
/// every other token leaves the content as it is.
pub open spec fn rewrite_tokens(
    content: Seq<char>,
    toks: Seq<Seq<char>>,
    known: Seq<Seq<char>>,
    reg: Seq<Seq<char>>,
) -> Seq<char>
    decreases toks.len(),
{
    if toks.len() == 0 {
        content
    } else {
        let tok = toks[0];
        if known.contains(tok) {
            rewrite_tokens(content, toks.drop_first(), known, reg)
        } else {
            match resolve_spec(inner_name(tok), reg) {
                Some(rep) => rewrite_tokens(
                    replace_all(content, tok, rep),
                    toks.drop_first(),
                    known.push(tok),
                    reg,
                ),
                None => rewrite_tokens(content, toks.drop_first(), known, reg),
            }
        }
    }
}

/// The line rewriter's whole effect on one line.
pub open spec fn process_line_spec(line: Seq<char>, reg: Seq<Seq<char>>) -> Seq<char> {
    rewrite_tokens(line, tokens_from(line, 0), Seq::empty(), reg)
}

/// Resolves one shortcode name: built-in lookup first, custom second.
fn resolve_shortcode(name: &str, custom_emojis: &Vec<String>) -> (r: Option<String>)
    ensures
        resolve_spec(name@, custom_emojis.deep_view()) == (match r {
            Some(s) => Some(s@),
            None => None::<Seq<char>>,
        }),
{
    match lookup_builtin(name) {
        Some(s) => Some(s),
        None => get_custom_emoji(name, custom_emojis),
    }
}

/// True exactly when some entry of `v` holds the characters of `s`.
fn vec_contains_string(v: &Vec<String>, s: &String) -> (r: bool)
    ensures
        r == v.deep_view().contains(s@),
{
    let mut k: usize = 0;
    while k < v.len()
        invariant
            k <= v.len(),
            forall|l: int| 0 <= l < k ==> v.deep_view()[l] != s@,
        ensures
            k <= v.len(),
            forall|l: int| 0 <= l < k ==> v.deep_view()[l] != s@,
            k < v.len() ==> v.deep_view()[k as int] == s@,
        decreases v.len() - k,
    {
        assert(v.deep_view()[k as int] == v@[k as int]@);
        if v[k].eq(s) {
            break;
        }
        k = k + 1;
    }
    if k < v.len() {
        assert(v.deep_view().contains(s@));
        true
    } else {
        assert(!v.deep_view().contains(s@));
        false
    }
}

/// Rewrites one line: every occurrence of each resolvable shortcode token
/// is replaced by what the token's name resolves to; unknown tokens pass
/// through verbatim.
pub fn process_line(segment: &str, custom_emojis: &Vec<String>) -> (r: String)
    ensures
        r@ == process_line_spec(segment@, custom_emojis.deep_view()),
{
    let ghost reg = custom_emojis.deep_view();
    let n = segment.unicode_len();
    let mut content = segment.to_owned();
    let mut known: Vec<String> = Vec::new();
    let mut p: usize = 0;
    let mut done = false;
    proof {
        assert(known.deep_view() =~= Seq::<Seq<char>>::empty());
    }
    while !done
        invariant
            p <= n,
            n == segment@.len(),
            reg == custom_emojis.deep_view(),
            process_line_spec(segment@, reg) == rewrite_tokens(
                content@,
                tokens_from(segment@, p as int),
                known.deep_view(),
                reg,
            ),
            done ==> tokens_from(segment@, p as int) =~= Seq::<Seq<char>>::empty(),
        decreases n - p + (if done { 0int } else { 1int }),
    {
        let i = find_char_from(segment, ':', p);
        proof {
            lemma_find_from(segment@, ':', p as int);
        }
        if i >= n {
            done = true;
        } else {
            let j = find_char_from(segment, ':', i + 1);
            proof {
                lemma_find_from(segment@, ':', i as int + 1);
            }
            if j >= n {
                done = true;
            } else {
                let tok_str = segment.substring_char(i, j + 1);
                let ghost toks = tokens_from(segment@, p as int);
                proof {
                    assert(toks =~= seq![segment@.subrange(i as int, j as int + 1)]
                        + tokens_from(segment@, j as int + 1));
                    assert(toks[0] == tok_str@);
                    assert(toks.drop_first() =~= tokens_from(segment@, j as int + 1));
                }
                let tok = tok_str.to_owned();
                if !vec_contains_string(&known, &tok) {
                    let name = segment.substring_char(i + 1, j);
                    proof {
                        assert(name@ =~= inner_name(tok_str@));
                    }
                    match resolve_shortcode(name, custom_emojis) {
                        Some(rep) => {
                            let new_content = replace_all_exec(
                                content.as_str(),
                                tok_str,
                                rep.as_str(),
                            );
                            content = new_content;
                            let ghost old_dv = known.deep_view();
                            known.push(tok);
                            proof {
                                assert(known.deep_view() =~= old_dv.push(tok_str@));
                            }
                        },
                        None => {},
                    }
                }
                p = j + 1;
            }
        }
    }
    content
}

} // verus!
