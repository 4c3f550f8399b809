//! The fence-aware document rewriter: splits the document into lines,
//! tracks fenced code regions delimited by runs of three or more backticks,
//! rewrites each line outside a fence, and reassembles the document with
//! trailing whitespace trimmed.

use vstd::prelude::*;
use crate::line::{process_line, process_line_spec};
use crate::text::{
    find_from, lemma_find_from, find_char_from, leading_run, count_leading, trim_end_spec,
    trim_end_exec,
};

verus! {

/// The fence length a line carries: its leading run of backticks when that
/// run is at least three characters long, zero otherwise.
pub open spec fn fence_len(line: Seq<char>) -> int {
    if leading_run(line, '`', 0) >= 3 {
        leading_run(line, '`', 0)
    } else {
        0
    }
}

/// The fence state after a line whose fence length is `n`: a fence line
/// opens a block when none is open, closes it when its length matches the
/// open block's exactly, and is plain content otherwise.
pub open spec fn fence_transition(fence: int, n: int) -> int {
    if n == 0 {
        fence
    } else if fence == 0 {
        n
    } else if n == fence {
        0
    } else {
        fence
    }
}

/// `l` with one trailing carriage return removed, as splitting on line
/// endings strips it.
pub open spec fn strip_cr(l: Seq<char>) -> Seq<char> {
    if l.len() > 0 && l[l.len() - 1] == '\r' {
        l.drop_last()
    } else {
        l
    }
}

/// The lines of `s` from position `p` on, split at newline characters,
/// each with a trailing carriage return stripped; a final line ending is
/// optional and produces no empty last line.
pub open spec fn lines_from(s: Seq<char>, p: int) -> Seq<Seq<char>>
    decreases s.len() - p
    when 0 <= p <= s.len()
    via lines_from_decreases
{
    if p >= s.len() {
        Seq::empty()
    } else {
        let i = find_from(s, '\n', p);
        if i >= s.len() {
            seq![s.subrange(p, s.len() as int)]
        } else {
            seq![strip_cr(s.subrange(p, i))] + lines_from(s, i + 1)
        }
    }
}

#[via_fn]
proof fn lines_from_decreases(s: Seq<char>, p: int) {
    if 0 <= p < s.len() {
        lemma_find_from(s, '\n', p);
    }
}

/// The lines of the whole document.
pub open spec fn doc_lines(s: Seq<char>) -> Seq<Seq<char>> {
    lines_from(s, 0)
}

/// Rewrites the lines in order, threading the fence state: a line is
/// passed to the line rewriter exactly when the state after its own
/// transition is outside every fence; each line is followed by a newline.
pub open spec fn rewrite_lines(
    lines: Seq<Seq<char>>,
    fence: int,
    reg: Seq<Seq<char>>,
) -> Seq<char>
    decreases lines.len(),
{
    if lines.len() == 0 {
        Seq::empty()
    } else {
        let nf = fence_transition(fence, fence_len(lines[0]));
        let body = if nf == 0 {
            process_line_spec(lines[0], reg)
        } else {
            lines[0]
        };
        body + seq!['\n'] + rewrite_lines(lines.drop_first(), nf, reg)
    }
}

/// The document rewriter's whole effect: rewrite every line outside a
/// fence, rejoin with newlines, and trim trailing whitespace.
pub open spec fn process_doc_spec(doc: Seq<char>, reg: Seq<Seq<char>>) -> Seq<char> {
    trim_end_spec(rewrite_lines(doc_lines(doc), 0, reg))
}

/// Splits a document into its lines.
fn split_lines(s: &str) -> (v: Vec<String>)
    ensures
        v.deep_view() == doc_lines(s@),
{
    let n = s.unicode_len();
    let mut v: Vec<String> = Vec::new();
    let mut p: usize = 0;
    proof {
        assert(v.deep_view() =~= Seq::<Seq<char>>::empty());
        assert(doc_lines(s@) =~= v.deep_view() + lines_from(s@, 0));
    }
    while p < n
        invariant
            p <= n,
            n == s@.len(),
            doc_lines(s@) == v.deep_view() + lines_from(s@, p as int),
        decreases n - p,
    {
        let i = find_char_from(s, '\n', p);
        proof {
            lemma_find_from(s@, '\n', p as int);
        }
        let ghost old_dv = v.deep_view();
        if i >= n {
            let line = s.substring_char(p, n);
            v.push(line.to_owned());
            proof {
                assert(v.deep_view() =~= old_dv.push(line@));
                assert(lines_from(s@, p as int) =~= seq![s@.subrange(p as int, n as int)]);
                assert(lines_from(s@, n as int) =~= Seq::<Seq<char>>::empty());
                assert(doc_lines(s@) =~= v.deep_view() + lines_from(s@, n as int));
            }
            p = n;
        } else {
            let has_cr = i > p && s.get_char(i - 1) == '\r';
            let line = if has_cr {
                s.substring_char(p, i - 1)
            } else {
                s.substring_char(p, i)
            };
            proof {
                let full = s@.subrange(p as int, i as int);
                if i > p && s@[i as int - 1] == '\r' {
                    assert(full.len() > 0 && full[full.len() - 1] == '\r');
                    assert(line@ =~= full.drop_last());
                } else {
                    assert(line@ =~= strip_cr(full));
                }
                assert(line@ == strip_cr(full));
            }
            v.push(line.to_owned());
            proof {
                assert(v.deep_view() =~= old_dv.push(line@));
                assert(lines_from(s@, p as int) =~= seq![strip_cr(s@.subrange(p as int, i as int))]
                    + lines_from(s@, i as int + 1));
                assert(doc_lines(s@) =~= v.deep_view() + lines_from(s@, i as int + 1));
            }
            p = i + 1;
        }
    }
    proof {
        assert(lines_from(s@, p as int) =~= Seq::<Seq<char>>::empty());
        assert(doc_lines(s@) =~= v.deep_view());
    }
    v
}

/// Rewrites a whole document section: every line outside a fenced code
/// block has its resolvable shortcode tokens replaced, lines inside a
/// fence pass through verbatim, and the reassembled text is trimmed of
/// trailing whitespace.
pub fn replace_emoji_shortcode(content: &str, custom_emojis: &Vec<String>) -> (r: String)
    ensures
        r@ == process_doc_spec(content@, custom_emojis.deep_view()),
{
    let ghost reg = custom_emojis.deep_view();
    let lines = split_lines(content);
    let ghost dv = lines.deep_view();
    let mut result = String::new();
    let mut fence: usize = 0;
    let mut k: usize = 0;
    proof {
        assert(dv.skip(0) =~= dv);
        assert(Seq::<char>::empty() + rewrite_lines(dv, 0, reg) =~= rewrite_lines(dv, 0, reg));
    }
    while k < lines.len()
        invariant
            k <= lines.len(),
            dv == lines.deep_view(),
            dv == doc_lines(content@),
            reg == custom_emojis.deep_view(),
            rewrite_lines(dv, 0, reg) == result@ + rewrite_lines(
                dv.skip(k as int),
                fence as int,
                reg,
            ),
        decreases lines.len() - k,
    {
        proof {
            assert(dv.skip(k as int)[0] == dv[k as int]);
            assert(dv[k as int] == lines@[k as int]@);
            assert(dv.skip(k as int).drop_first() =~= dv.skip(k as int + 1));
        }
        let t = count_leading(lines[k].as_str(), '`');
        let n_ticks: usize = if t >= 3 {
            t
        } else {
            0
        };
        assert(n_ticks as int == fence_len(dv[k as int]));
        if n_ticks != 0 {
            if fence == 0 {
                fence = n_ticks;
            } else if n_ticks == fence {
                fence = 0;
            }
        }
        if fence == 0 {
            let rewritten = process_line(lines[k].as_str(), custom_emojis);
            result.append(rewritten.as_str());
        } else {
            result.append(lines[k].as_str());
        }
        result.append("\n");
        proof {
            reveal_strlit("\n");
            assert("\n"@ =~= seq!['\n']);
        }
        k = k + 1;
    }
    proof {
        assert(dv.skip(lines@.len() as int) =~= Seq::<Seq<char>>::empty());
        assert(result@ + Seq::<char>::empty() =~= result@);
    }
    trim_end_exec(result.as_str())
}

} // verus!
