//! Character-level scanning helpers shared by the line and document
//! rewriters: finding a character, comparing strings, replacing every
//! occurrence of a substring, counting a leading run, and trimming
//! trailing whitespace.

use vstd::prelude::*;

verus! {

/// Index of the first occurrence of `c` in `s` at or after `p`,
/// or `s.len()` if there is none.
pub open spec fn find_from(s: Seq<char>, c: char, p: int) -> int
    decreases s.len() - p
    when 0 <= p <= s.len()
{
    if p >= s.len() {
        s.len() as int
    } else if s[p] == c {
        p
    } else {
        find_from(s, c, p + 1)
    }
}

pub proof fn lemma_find_from(s: Seq<char>, c: char, p: int)
    requires
        0 <= p <= s.len(),
    ensures
        p <= find_from(s, c, p) <= s.len(),
        find_from(s, c, p) < s.len() ==> s[find_from(s, c, p)] == c,
        forall|k: int| p <= k < find_from(s, c, p) ==> s[k] != c,
    decreases s.len() - p,
{
    if p < s.len() && s[p] != c {
        lemma_find_from(s, c, p + 1);
    }
}

pub fn find_char_from(s: &str, c: char, from: usize) -> (r: usize)
    requires
        from <= s@.len(),
    ensures
        r == find_from(s@, c, from as int),
{
    let n = s.unicode_len();
    let mut i = from;
    while i < n
        invariant
            from <= i <= n,
            n == s@.len(),
            find_from(s@, c, from as int) == find_from(s@, c, i as int),
        ensures
            i <= n,
            find_from(s@, c, from as int) == find_from(s@, c, i as int),
            i < n ==> s@[i as int] == c,
            i == n ==> find_from(s@, c, from as int) == n,
        decreases n - i,
    {
        if s.get_char(i) == c {
            break;
        }
        i = i + 1;
    }
    if i < n {
        assert(find_from(s@, c, i as int) == i as int);
    } else {
        assert(find_from(s@, c, i as int) == n as int);
    }
    i
}

/// True exactly when the two strings hold the same characters.
pub fn str_eq(a: &str, b: &str) -> (r: bool)
    ensures
        r == (a@ == b@),
{
    let na = a.unicode_len();
    let nb = b.unicode_len();
    if na != nb {
        assert(a@ != b@);
        return false;
    }
    let mut k: usize = 0;
    while k < na
        invariant
            k <= na,
            na == a@.len(),
            na == b@.len(),
            forall|l: int| 0 <= l < k ==> a@[l] == b@[l],
        ensures
            k <= na,
            forall|l: int| 0 <= l < k ==> a@[l] == b@[l],
            k < na ==> a@[k as int] != b@[k as int],
        decreases na - k,
    {
        if a.get_char(k) != b.get_char(k) {
            break;
        }
        k = k + 1;
    }
    if k < na {
        assert(a@ != b@);
        false
    } else {
        assert(a@ =~= b@);
        true
    }
}

/// `s` with every occurrence of `pat` replaced by `rep`, scanning left to
/// right over non-overlapping occurrences.
pub open spec fn replace_all(s: Seq<char>, pat: Seq<char>, rep: Seq<char>) -> Seq<char>
    decreases s.len(),
{
    if s.len() == 0 {
        s
    } else if 0 < pat.len() <= s.len() && s.subrange(0, pat.len() as int) == pat {
        rep + replace_all(s.skip(pat.len() as int), pat, rep)
    } else {
        s.subrange(0, 1) + replace_all(s.skip(1), pat, rep)
    }
}

/// True exactly when `pat` occurs in `s` starting at index `i`.
fn match_at(s: &str, pat: &str, i: usize) -> (r: bool)
    requires
        i + pat@.len() <= s@.len(),
    ensures
        r == (s@.subrange(i as int, i as int + pat@.len() as int) == pat@),
{
    let sn = s.unicode_len();
    let m = pat.unicode_len();
    let mut k: usize = 0;
    while k < m
        invariant
            k <= m,
            m == pat@.len(),
            sn == s@.len(),
            i + m <= sn,
            forall|l: int| 0 <= l < k ==> s@[i + l] == pat@[l],
        ensures
            k <= m,
            forall|l: int| 0 <= l < k ==> s@[i + l] == pat@[l],
            k < m ==> s@[i + k] != pat@[k as int],
        decreases m - k,
    {
        if s.get_char(i + k) != pat.get_char(k) {
            break;
        }
        k = k + 1;
    }
    if k < m {
        assert(s@.subrange(i as int, i as int + pat@.len() as int) != pat@) by {
            assert(s@.subrange(i as int, i as int + pat@.len() as int)[k as int] != pat@[k as int]);
        }
        false
    } else {
        assert(s@.subrange(i as int, i as int + pat@.len() as int) =~= pat@);
        true
    }
}

pub fn replace_all_exec(s: &str, pat: &str, rep: &str) -> (r: String)
    requires
        pat@.len() > 0,
    ensures
        r@ == replace_all(s@, pat@, rep@),
{
    let n = s.unicode_len();
    let m = pat.unicode_len();
    let mut out = String::new();
    let mut i: usize = 0;
    proof {
        assert(s@.skip(0) =~= s@);
        assert(Seq::<char>::empty() + replace_all(s@, pat@, rep@) =~= replace_all(
            s@,
            pat@,
            rep@,
        ));
    }
    while i < n
        invariant
            i <= n,
            n == s@.len(),
            m == pat@.len(),
            m > 0,
            replace_all(s@, pat@, rep@) == out@ + replace_all(s@.skip(i as int), pat@, rep@),
        decreases n - i,
    {
        if m <= n - i && match_at(s, pat, i) {
            proof {
                assert(s@.skip(i as int).subrange(0, m as int) =~= s@.subrange(
                    i as int,
                    i as int + m as int,
                ));
                assert(s@.skip(i as int).skip(m as int) =~= s@.skip(i as int + m as int));
            }
            out.append(rep);
            i = i + m;
        } else {
            proof {
                if m <= n - i {
                    assert(s@.skip(i as int).subrange(0, m as int) =~= s@.subrange(
                        i as int,
                        i as int + m as int,
                    ));
                } else {
                    assert(s@.skip(i as int).len() < m);
                }
                assert(s@.skip(i as int).subrange(0, 1) =~= s@.subrange(i as int, i as int + 1));
                assert(s@.skip(i as int).skip(1) =~= s@.skip(i as int + 1));
            }
            out.append(s.substring_char(i, i + 1));
            i = i + 1;
        }
    }
    assert(s@.skip(n as int) =~= Seq::<char>::empty());
    assert(out@ =~= out@ + s@.skip(n as int));
    out
}

/// Length of the run of `c` at the start of position `p` in `s`.
pub open spec fn leading_run(s: Seq<char>, c: char, p: int) -> int
    decreases s.len() - p
    when 0 <= p <= s.len()
{
    if p < s.len() && s[p] == c {
        1 + leading_run(s, c, p + 1)
    } else {
        0
    }
}

pub fn count_leading(s: &str, c: char) -> (r: usize)
    ensures
        r == leading_run(s@, c, 0),
{
    let n = s.unicode_len();
    let mut i: usize = 0;
    while i < n
        invariant
            i <= n,
            n == s@.len(),
            leading_run(s@, c, 0) == i + leading_run(s@, c, i as int),
        ensures
            i <= n,
            leading_run(s@, c, 0) == i + leading_run(s@, c, i as int),
            i < n ==> s@[i as int] != c,
        decreases n - i,
    {
        if s.get_char(i) != c {
            break;
        }
        i = i + 1;
    }
    assert(leading_run(s@, c, i as int) == 0);
    i
}

/// The White_Space characters, as Rust's `char::is_whitespace` counts them.
pub open spec fn is_ws_char(c: char) -> bool {
    ||| c == ' '
    ||| c == '\t'
    ||| c == '\n'
    ||| c == '\u{000B}'
    ||| c == '\u{000C}'
    ||| c == '\r'
    ||| c == '\u{0085}'
    ||| c == '\u{00A0}'
    ||| c == '\u{1680}'
    ||| c == '\u{2000}'
    ||| c == '\u{2001}'
    ||| c == '\u{2002}'
    ||| c == '\u{2003}'
    ||| c == '\u{2004}'
    ||| c == '\u{2005}'
    ||| c == '\u{2006}'
    ||| c == '\u{2007}'
    ||| c == '\u{2008}'
    ||| c == '\u{2009}'
    ||| c == '\u{200A}'
    ||| c == '\u{2028}'
    ||| c == '\u{2029}'
    ||| c == '\u{202F}'
    ||| c == '\u{205F}'
    ||| c == '\u{3000}'
}

pub fn is_ws(c: char) -> (r: bool)
    ensures
        r == is_ws_char(c),
{
    c == ' ' || c == '\t' || c == '\n' || c == '\u{000B}' || c == '\u{000C}' || c == '\r'
        || c == '\u{0085}' || c == '\u{00A0}' || c == '\u{1680}' || c == '\u{2000}'
        || c == '\u{2001}' || c == '\u{2002}' || c == '\u{2003}' || c == '\u{2004}'
        || c == '\u{2005}' || c == '\u{2006}' || c == '\u{2007}' || c == '\u{2008}'
        || c == '\u{2009}' || c == '\u{200A}' || c == '\u{2028}' || c == '\u{2029}'
        || c == '\u{202F}' || c == '\u{205F}' || c == '\u{3000}'
}

/// `s` with every trailing whitespace character removed.
pub open spec fn trim_end_spec(s: Seq<char>) -> Seq<char>
    decreases s.len(),
{
    if s.len() > 0 && is_ws_char(s[s.len() - 1]) {
        trim_end_spec(s.drop_last())
    } else {
        s
    }
}

pub fn trim_end_exec(s: &str) -> (r: String)
    ensures
        r@ == trim_end_spec(s@),
{
    let n = s.unicode_len();
    let mut k = n;
    let mut done = false;
    proof {
        assert(s@.take(n as int) =~= s@);
    }
    while !done
        invariant
            k <= n,
            n == s@.len(),
            trim_end_spec(s@) == trim_end_spec(s@.take(k as int)),
            done ==> trim_end_spec(s@.take(k as int)) == s@.take(k as int),
        decreases k + (if done { 0int } else { 1int }),
    {
        if k == 0 {
            assert(s@.take(0) =~= Seq::<char>::empty());
            done = true;
        } else {
            let c = s.get_char(k - 1);
            assert(s@.take(k as int)[k - 1] == c);
            if is_ws(c) {
                proof {
                    assert(s@.take(k as int).drop_last() =~= s@.take(k - 1));
                }
                k = k - 1;
            } else {
                done = true;
            }
        }
    }
    let r = s.substring_char(0, k);
    assert(r@ =~= s@.take(k as int));
    r.to_owned()
}

} // verus!
