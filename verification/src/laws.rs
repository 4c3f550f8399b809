//! Laws of the rewriter, stated and proved over the spec functions that the
//! executable functions' contracts use.

use vstd::prelude::*;
use crate::builtin::builtin_emoji;
use crate::line::{tokens_from, inner_name, resolve_spec, rewrite_tokens, process_line_spec};
use crate::document::{
    fence_len, fence_transition, lines_from, doc_lines, rewrite_lines, process_doc_spec, strip_cr,
};
use crate::text::{find_from, lemma_find_from, is_ws_char, trim_end_spec};

verus! {

/// A name present in the built-in table resolves to its built-in form,
/// whatever the custom registry holds: the built-in table is consulted
/// first.
pub proof fn lemma_builtin_precedence(name: Seq<char>, reg: Seq<Seq<char>>)
    requires
        builtin_emoji(name) is Some,
    ensures
        resolve_spec(name, reg) == builtin_emoji(name),
{
}

/// No token of `line` resolves in either table.
pub open spec fn line_tokens_unresolvable(line: Seq<char>, reg: Seq<Seq<char>>) -> bool {
    forall|k: int|
        0 <= k < tokens_from(line, 0).len() ==> resolve_spec(
            inner_name(#[trigger] tokens_from(line, 0)[k]),
            reg,
        ) is None
}

proof fn lemma_rewrite_tokens_unresolved(
    content: Seq<char>,
    toks: Seq<Seq<char>>,
    known: Seq<Seq<char>>,
    reg: Seq<Seq<char>>,
)
    requires
        forall|k: int|
            0 <= k < toks.len() ==> resolve_spec(inner_name(#[trigger] toks[k]), reg) is None,
    ensures
        rewrite_tokens(content, toks, known, reg) == content,
    decreases toks.len(),
{
    if toks.len() > 0 {
        assert(resolve_spec(inner_name(toks[0]), reg) is None);
        assert(forall|k: int|
            0 <= k < toks.drop_first().len() ==> #[trigger] toks.drop_first()[k] == toks[k + 1]);
        lemma_rewrite_tokens_unresolved(content, toks.drop_first(), known, reg);
    }
}

/// A line none of whose tokens resolves in either table is returned by the
/// line rewriter exactly as it came, so each of its unknown `:name:`
/// substrings passes through verbatim.
pub proof fn lemma_unresolvable_tokens_pass_through(line: Seq<char>, reg: Seq<Seq<char>>)
    requires
        line_tokens_unresolvable(line, reg),
    ensures
        process_line_spec(line, reg) == line,
{
    lemma_rewrite_tokens_unresolved(line, tokens_from(line, 0), Seq::empty(), reg);
}

/// A line without any colon character holds no token at all, and the line
/// rewriter returns it unchanged.
pub proof fn lemma_no_colons_line_unchanged(line: Seq<char>, reg: Seq<Seq<char>>)
    requires
        forall|k: int| 0 <= k < line.len() ==> line[k] != ':',
    ensures
        tokens_from(line, 0) == Seq::<Seq<char>>::empty(),
        process_line_spec(line, reg) == line,
{
    lemma_find_from(line, ':', 0);
    assert(find_from(line, ':', 0) == line.len());
    assert(tokens_from(line, 0) =~= Seq::<Seq<char>>::empty());
}

/// The concatenation of the lines, each followed by one newline.
spec fn join_nl(lines: Seq<Seq<char>>) -> Seq<char>
    decreases lines.len(),
{
    if lines.len() == 0 {
        Seq::empty()
    } else {
        lines[0] + seq!['\n'] + join_nl(lines.drop_first())
    }
}

proof fn lemma_rewrite_lines_unresolved(lines: Seq<Seq<char>>, fence: int, reg: Seq<Seq<char>>)
    requires
        forall|l: int| 0 <= l < lines.len() ==> line_tokens_unresolvable(#[trigger] lines[l], reg),
    ensures
        rewrite_lines(lines, fence, reg) == join_nl(lines),
    decreases lines.len(),
{
    if lines.len() > 0 {
        lemma_unresolvable_tokens_pass_through(lines[0], reg);
        let nf = fence_transition(fence, fence_len(lines[0]));
        assert(forall|l: int|
            0 <= l < lines.drop_first().len() ==> #[trigger] lines.drop_first()[l] == lines[l
                + 1]);
        lemma_rewrite_lines_unresolved(lines.drop_first(), nf, reg);
    }
}

proof fn lemma_join_lines_reassembles(doc: Seq<char>, p: int)
    requires
        0 <= p <= doc.len(),
        forall|k: int| 0 <= k < doc.len() ==> doc[k] != '\r',
    ensures
        p == doc.len() ==> join_nl(lines_from(doc, p)) == Seq::<char>::empty(),
        p < doc.len() && doc[doc.len() - 1] == '\n' ==> join_nl(lines_from(doc, p)) == doc.skip(p),
        p < doc.len() && doc[doc.len() - 1] != '\n' ==> join_nl(lines_from(doc, p)) == doc.skip(p)
            + seq!['\n'],
    decreases doc.len() - p,
{
    if p < doc.len() {
        lemma_find_from(doc, '\n', p);
        let i = find_from(doc, '\n', p);
        if i >= doc.len() {
            assert(lines_from(doc, p) =~= seq![doc.subrange(p, doc.len() as int)]);
            let l = lines_from(doc, p);
            assert(l[0] == doc.subrange(p, doc.len() as int));
            assert(l.drop_first() =~= Seq::<Seq<char>>::empty());
            assert(join_nl(l.drop_first()) == Seq::<char>::empty());
            assert(join_nl(l) =~= doc.subrange(p, doc.len() as int) + seq!['\n']);
            assert(doc[doc.len() - 1] != '\n');
            assert(doc.subrange(p, doc.len() as int) =~= doc.skip(p));
        } else {
            let head = doc.subrange(p, i);
            assert(head.len() == 0 || head[head.len() - 1] != '\r');
            assert(strip_cr(head) == head);
            assert(lines_from(doc, p) =~= seq![head] + lines_from(doc, i + 1));
            assert(lines_from(doc, p).drop_first() =~= lines_from(doc, i + 1));
            assert(lines_from(doc, p)[0] == head);
            lemma_join_lines_reassembles(doc, i + 1);
            if i + 1 == doc.len() {
                assert(doc[doc.len() - 1] == '\n');
                assert(join_nl(lines_from(doc, p)) =~= head + seq!['\n']);
                assert(head + seq!['\n'] =~= doc.skip(p));
            } else {
                if doc[doc.len() - 1] == '\n' {
                    assert(join_nl(lines_from(doc, p)) =~= head + seq!['\n'] + doc.skip(i + 1));
                    assert(head + seq!['\n'] + doc.skip(i + 1) =~= doc.skip(p));
                } else {
                    assert(join_nl(lines_from(doc, p)) =~= head + seq!['\n'] + (doc.skip(i + 1)
                        + seq!['\n']));
                    assert(head + seq!['\n'] + (doc.skip(i + 1) + seq!['\n']) =~= doc.skip(p)
                        + seq!['\n']);
                }
            }
        }
    }
}

/// A document no token of which resolves in either table — and, so that
/// the line splitting and rejoining is itself the identity, without
/// carriage returns and not ending in whitespace — is returned by the
/// document rewriter exactly as it came: its unknown `:name:` substrings
/// pass through verbatim.
pub proof fn lemma_unresolvable_doc_unchanged(doc: Seq<char>, reg: Seq<Seq<char>>)
    requires
        forall|l: int|
            0 <= l < doc_lines(doc).len() ==> line_tokens_unresolvable(
                #[trigger] doc_lines(doc)[l],
                reg,
            ),
        forall|k: int| 0 <= k < doc.len() ==> doc[k] != '\r',
        doc.len() > 0 ==> !is_ws_char(doc[doc.len() - 1]),
    ensures
        process_doc_spec(doc, reg) == doc,
{
    lemma_rewrite_lines_unresolved(doc_lines(doc), 0, reg);
    lemma_join_lines_reassembles(doc, 0);
    if doc.len() == 0 {
        assert(lines_from(doc, 0) =~= Seq::<Seq<char>>::empty());
        assert(trim_end_spec(Seq::<char>::empty()) == Seq::<char>::empty());
    } else {
        assert(doc[doc.len() - 1] != '\n');
        let joined = doc + seq!['\n'];
        assert(join_nl(doc_lines(doc)) =~= doc.skip(0) + seq!['\n']);
        assert(doc.skip(0) + seq!['\n'] =~= joined);
        assert(joined[joined.len() - 1] == '\n');
        assert(is_ws_char('\n'));
        assert(joined.drop_last() =~= doc);
        assert(trim_end_spec(joined) == trim_end_spec(doc));
        assert(trim_end_spec(doc) == doc);
    }
}

/// A document without any colon or carriage-return character, and not
/// ending in whitespace, is returned by the document rewriter exactly as
/// it came.
pub proof fn lemma_doc_without_colons_unchanged(doc: Seq<char>, reg: Seq<Seq<char>>)
    requires
        forall|k: int| 0 <= k < doc.len() ==> doc[k] != ':' && doc[k] != '\r',
        doc.len() > 0 ==> !is_ws_char(doc[doc.len() - 1]),
    ensures
        process_doc_spec(doc, reg) == doc,
{
    lemma_lines_have_doc_chars(doc, 0);
    assert forall|l: int| 0 <= l < doc_lines(doc).len() implies line_tokens_unresolvable(
        #[trigger] doc_lines(doc)[l],
        reg,
    ) by {
        lemma_no_colons_line_unchanged(doc_lines(doc)[l], reg);
    }
    lemma_unresolvable_doc_unchanged(doc, reg);
}

/// Every character of every line of a document is a character of the
/// document, so a document without colons has only colon-free lines.
proof fn lemma_lines_have_doc_chars(doc: Seq<char>, p: int)
    requires
        0 <= p <= doc.len(),
        forall|k: int| 0 <= k < doc.len() ==> doc[k] != ':',
    ensures
        forall|k: int, c: int|
            0 <= k < lines_from(doc, p).len() && 0 <= c < lines_from(doc, p)[k].len()
                ==> #[trigger] lines_from(doc, p)[k][c] != ':',
    decreases doc.len() - p,
{
    if p < doc.len() {
        lemma_find_from(doc, '\n', p);
        let i = find_from(doc, '\n', p);
        if i < doc.len() {
            lemma_lines_have_doc_chars(doc, i + 1);
            assert(lines_from(doc, p) =~= seq![strip_cr(doc.subrange(p, i))] + lines_from(
                doc,
                i + 1,
            ));
        }
    }
}

/// A fence line whose length differs from the open block's leaves the
/// block open: only an exact length match closes it.
pub proof fn lemma_fence_mismatch_keeps_state(fence: int, n: int)
    requires
        fence > 0,
        n > 0,
        n != fence,
    ensures
        fence_transition(fence, n) == fence,
{
}

} // verus!
