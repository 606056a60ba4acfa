//! Verified helpers over `&str` and its `Seq<char>` view: character classes,
//! string equality, line splitting, whitespace tokenization and substring
//! search. The spec functions here are the textual model that the parser's
//! contracts are stated over.

use vstd::prelude::*;
use vstd::string::*;

verus! {

/// The white-space characters, as `char::is_whitespace` classifies them;
/// token boundaries are defined by this class.
pub open spec fn is_ws_char(c: char) -> bool {
    c == ' ' || c == '\t' || c == '\n' || c == '\r' || c == '\u{b}' || c == '\u{c}'
        || c == '\u{85}' || c == '\u{a0}' || c == '\u{1680}' || c == '\u{2000}'
        || c == '\u{2001}' || c == '\u{2002}' || c == '\u{2003}' || c == '\u{2004}'
        || c == '\u{2005}' || c == '\u{2006}' || c == '\u{2007}' || c == '\u{2008}'
        || c == '\u{2009}' || c == '\u{200a}' || c == '\u{2028}' || c == '\u{2029}'
        || c == '\u{202f}' || c == '\u{205f}' || c == '\u{3000}'
}

/// Runtime check for [`is_ws_char`].
pub fn is_whitespace_char(c: char) -> (r: bool)
    ensures
        r == is_ws_char(c),
{
    c == ' ' || c == '\t' || c == '\n' || c == '\r' || c == '\u{b}' || c == '\u{c}'
        || c == '\u{85}' || c == '\u{a0}' || c == '\u{1680}' || c == '\u{2000}'
        || c == '\u{2001}' || c == '\u{2002}' || c == '\u{2003}' || c == '\u{2004}'
        || c == '\u{2005}' || c == '\u{2006}' || c == '\u{2007}' || c == '\u{2008}'
        || c == '\u{2009}' || c == '\u{200a}' || c == '\u{2028}' || c == '\u{2029}'
        || c == '\u{202f}' || c == '\u{205f}' || c == '\u{3000}'
}

/// The views of a sequence of strings.
pub open spec fn str_views(v: Seq<String>) -> Seq<Seq<char>> {
    v.map_values(|s: String| s@)
}

/// Character-wise string equality, decided without any assumption on the
/// strings' contents.
pub fn str_eq(a: &str, b: &str) -> (r: bool)
    ensures
        r == (a@ == b@),
{
    let la = a.unicode_len();
    let lb = b.unicode_len();
    if la != lb {
        proof {
            assert(a@ != b@) by {
                if a@ == b@ {
                    assert(a@.len() == b@.len());
                }
            }
        }
        return false;
    }
    let mut i: usize = 0;
    while i < la
        invariant
            la == a@.len(),
            la == b@.len(),
            0 <= i <= la,
            forall|k: int| 0 <= k < i ==> a@[k] == b@[k],
        decreases la - i,
    {
        if a.get_char(i) != b.get_char(i) {
            return false;
        }
        i = i + 1;
    }
    proof {
        assert(a@ =~= b@);
    }
    true
}

/// Whether a vector of strings holds one whose characters are `s`.
pub fn contains_str(v: &Vec<String>, s: &str) -> (r: bool)
    ensures
        r == str_views(v@).contains(s@),
{
    let mut i: usize = 0;
    while i < v.len()
        invariant
            0 <= i <= v@.len(),
            forall|k: int| 0 <= k < i ==> str_views(v@)[k] != s@,
        decreases v@.len() - i,
    {
        if str_eq(v[i].as_str(), s) {
            proof {
                assert(str_views(v@)[i as int] == s@);
            }
            return true;
        }
        i = i + 1;
    }
    proof {
        assert(!str_views(v@).contains(s@)) by {
            if str_views(v@).contains(s@) {
                let k = choose|k: int|
                    0 <= k < str_views(v@).len() && str_views(v@)[k] == s@;
                assert(str_views(v@)[k] != s@);
            }
        }
    }
    false
}

// ---------------------------------------------------------------------------
// Lines.
// ---------------------------------------------------------------------------

/// A line with a trailing carriage return removed, as line splitting on
/// `"\r\n"` endings demands.
pub open spec fn strip_cr(l: Seq<char>) -> Seq<char> {
    if l.len() > 0 && l.last() == '\r' {
        l.drop_last()
    } else {
        l
    }
}

/// The lines of `s`, split at `'\n'` or `"\r\n"` endings, the final ending
/// optional: the same division `str::lines` makes. `cur` carries the
/// characters of the line read so far.
pub open spec fn spec_lines_acc(s: Seq<char>, cur: Seq<char>) -> Seq<Seq<char>>
    decreases s.len(),
{
    if s.len() == 0 {
        if cur.len() == 0 {
            Seq::empty()
        } else {
            seq![cur]
        }
    } else if s[0] == '\n' {
        seq![strip_cr(cur)] + spec_lines_acc(s.drop_first(), Seq::empty())
    } else {
        spec_lines_acc(s.drop_first(), cur.push(s[0]))
    }
}

/// The lines of a text block.
pub open spec fn spec_lines(s: Seq<char>) -> Seq<Seq<char>> {
    spec_lines_acc(s, Seq::empty())
}

/// Splits a text block into its lines.
pub fn split_lines(text: &str) -> (r: Vec<String>)
    ensures
        str_views(r@) == spec_lines(text@),
{
    let n = text.unicode_len();
    let mut lines: Vec<String> = Vec::new();
    let mut i: usize = 0;
    let mut start: usize = 0;
    proof {
        assert(text@.skip(0) =~= text@);
        assert(text@.subrange(0, 0) =~= Seq::<char>::empty());
        assert(str_views(lines@) + spec_lines_acc(text@, Seq::empty()) =~= spec_lines_acc(
            text@,
            Seq::empty(),
        ));
    }
    while i < n
        invariant
            n == text@.len(),
            0 <= start <= i <= n,
            spec_lines(text@) == str_views(lines@) + spec_lines_acc(
                text@.skip(i as int),
                text@.subrange(start as int, i as int),
            ),
        decreases n - i,
    {
        let ghost rem = text@.skip(i as int);
        let ghost cur = text@.subrange(start as int, i as int);
        proof {
            assert(rem[0] == text@[i as int]);
            assert(rem.drop_first() =~= text@.skip(i as int + 1));
        }
        let c = text.get_char(i);
        if c == '\n' {
            let end = if i > start && text.get_char(i - 1) == '\r' {
                i - 1
            } else {
                i
            };
            proof {
                assert(strip_cr(cur) =~= text@.subrange(start as int, end as int));
            }
            let line = String::from_str(text.substring_char(start, end));
            let ghost old_lines = lines@;
            lines.push(line);
            proof {
                assert(str_views(lines@) =~= str_views(old_lines) + seq![line@]);
                assert(text@.subrange(i as int + 1, i as int + 1) =~= Seq::<char>::empty());
                assert(spec_lines_acc(rem, cur) == seq![strip_cr(cur)] + spec_lines_acc(
                    text@.skip(i as int + 1),
                    Seq::empty(),
                ));
                assert(str_views(lines@) + spec_lines_acc(
                    text@.skip(i as int + 1),
                    Seq::<char>::empty(),
                ) =~= str_views(old_lines) + spec_lines_acc(rem, cur));
            }
            i = i + 1;
            start = i;
        } else {
            proof {
                assert(cur.push(text@[i as int]) =~= text@.subrange(start as int, i as int + 1));
            }
            i = i + 1;
        }
    }
    proof {
        assert(text@.skip(n as int) =~= Seq::<char>::empty());
    }
    if start < n {
        let line = String::from_str(text.substring_char(start, n));
        let ghost old_lines = lines@;
        lines.push(line);
        proof {
            assert(str_views(lines@) =~= str_views(old_lines) + seq![line@]);
            assert(str_views(lines@) =~= spec_lines(text@));
        }
    } else {
        proof {
            assert(text@.subrange(start as int, n as int) =~= Seq::<char>::empty());
            assert(str_views(lines@) =~= spec_lines(text@));
        }
    }
    lines
}

// ---------------------------------------------------------------------------
// Tokens.
// ---------------------------------------------------------------------------

/// The maximal runs of non-white-space characters of `s`, in order. `cur`
/// carries the characters of the token read so far.
pub open spec fn spec_tokens_acc(s: Seq<char>, cur: Seq<char>) -> Seq<Seq<char>>
    decreases s.len(),
{
    if s.len() == 0 {
        if cur.len() == 0 {
            Seq::empty()
        } else {
            seq![cur]
        }
    } else if is_ws_char(s[0]) {
        if cur.len() == 0 {
            spec_tokens_acc(s.drop_first(), Seq::empty())
        } else {
            seq![cur] + spec_tokens_acc(s.drop_first(), Seq::empty())
        }
    } else {
        spec_tokens_acc(s.drop_first(), cur.push(s[0]))
    }
}

/// The white-space-separated tokens of `s`.
pub open spec fn spec_tokens(s: Seq<char>) -> Seq<Seq<char>> {
    spec_tokens_acc(s, Seq::empty())
}

/// Reading white-space-free characters only extends the token being read:
/// tokenizing `t + rest` from a partial token `cur` is tokenizing `rest`
/// from the partial token `cur + t`.
pub proof fn lemma_tokens_nonws_prefix(t: Seq<char>, rest: Seq<char>, cur: Seq<char>)
    requires
        forall|i: int| 0 <= i < t.len() ==> !is_ws_char(#[trigger] t[i]),
    ensures
        spec_tokens_acc(t + rest, cur) == spec_tokens_acc(rest, cur + t),
    decreases t.len(),
{
    if t.len() == 0 {
        assert(t + rest =~= rest);
        assert(cur + t =~= cur);
    } else {
        let s = t + rest;
        assert(s[0] == t[0]);
        assert(!is_ws_char(s[0]));
        assert(s.drop_first() =~= t.drop_first() + rest);
        assert forall|i: int|
            0 <= i < t.drop_first().len() implies !is_ws_char(#[trigger] t.drop_first()[i]) by {
            assert(t.drop_first()[i] == t[i + 1]);
        }
        lemma_tokens_nonws_prefix(t.drop_first(), rest, cur.push(t[0]));
        assert(cur.push(t[0]) + t.drop_first() =~= cur + t);
    }
}

/// Splits a string into its white-space-separated tokens.
pub fn tokenize(s: &str) -> (r: Vec<String>)
    ensures
        str_views(r@) == spec_tokens(s@),
{
    let n = s.unicode_len();
    let mut toks: Vec<String> = Vec::new();
    let mut i: usize = 0;
    let mut start: usize = 0;
    proof {
        assert(s@.skip(0) =~= s@);
        assert(s@.subrange(0, 0) =~= Seq::<char>::empty());
        assert(str_views(toks@) + spec_tokens_acc(s@, Seq::empty()) =~= spec_tokens_acc(
            s@,
            Seq::empty(),
        ));
    }
    while i < n
        invariant
            n == s@.len(),
            0 <= start <= i <= n,
            spec_tokens(s@) == str_views(toks@) + spec_tokens_acc(
                s@.skip(i as int),
                s@.subrange(start as int, i as int),
            ),
        decreases n - i,
    {
        let ghost rem = s@.skip(i as int);
        let ghost cur = s@.subrange(start as int, i as int);
        proof {
            assert(rem[0] == s@[i as int]);
            assert(rem.drop_first() =~= s@.skip(i as int + 1));
        }
        let c = s.get_char(i);
        if is_whitespace_char(c) {
            if start < i {
                let tok = String::from_str(s.substring_char(start, i));
                let ghost old_toks = toks@;
                toks.push(tok);
                proof {
                    assert(str_views(toks@) =~= str_views(old_toks) + seq![tok@]);
                    assert(str_views(toks@) + spec_tokens_acc(
                        s@.skip(i as int + 1),
                        Seq::<char>::empty(),
                    ) =~= str_views(old_toks) + spec_tokens_acc(rem, cur));
                }
            }
            proof {
                assert(s@.subrange(i as int + 1, i as int + 1) =~= Seq::<char>::empty());
            }
            i = i + 1;
            start = i;
        } else {
            proof {
                assert(cur.push(s@[i as int]) =~= s@.subrange(start as int, i as int + 1));
            }
            i = i + 1;
        }
    }
    proof {
        assert(s@.skip(n as int) =~= Seq::<char>::empty());
    }
    if start < n {
        let tok = String::from_str(s.substring_char(start, n));
        let ghost old_toks = toks@;
        toks.push(tok);
        proof {
            assert(str_views(toks@) =~= str_views(old_toks) + seq![tok@]);
            assert(str_views(toks@) =~= spec_tokens(s@));
        }
    } else {
        proof {
            assert(s@.subrange(start as int, n as int) =~= Seq::<char>::empty());
            assert(str_views(toks@) =~= spec_tokens(s@));
        }
    }
    toks
}

// ---------------------------------------------------------------------------
// First `=` of a token.
// ---------------------------------------------------------------------------

/// Index of the first `'='` in `t`, or `t.len()` if there is none.
pub open spec fn eq_idx(t: Seq<char>) -> int
    decreases t.len(),
{
    if t.len() == 0 {
        0
    } else if t[0] == '=' {
        0
    } else {
        1 + eq_idx(t.drop_first())
    }
}

/// The first `'='`-free prefix of `t` of length `m`, closed by `'='` or the
/// end of `t`, puts the first `'='` at `m`.
pub proof fn lemma_eq_idx_at(t: Seq<char>, m: int)
    requires
        0 <= m <= t.len(),
        forall|k: int| 0 <= k < m ==> t[k] != '=',
        m < t.len() ==> t[m] == '=',
    ensures
        eq_idx(t) == m,
    decreases m,
{
    if m == 0 {
    } else {
        assert(t[0] != '=');
        assert(forall|k: int| 0 <= k < m - 1 ==> t.drop_first()[k] == t[k + 1]);
        lemma_eq_idx_at(t.drop_first(), m - 1);
    }
}

/// Finds the first `'='` in `t`, returning `t`'s length if there is none.
pub fn find_eq(t: &str) -> (r: usize)
    ensures
        r as int == eq_idx(t@),
        0 <= r <= t@.len(),
{
    let n = t.unicode_len();
    let mut i: usize = 0;
    while i < n
        invariant
            n == t@.len(),
            0 <= i <= n,
            forall|k: int| 0 <= k < i ==> t@[k] != '=',
        decreases n - i,
    {
        if t.get_char(i) == '=' {
            proof {
                lemma_eq_idx_at(t@, i as int);
            }
            return i;
        }
        i = i + 1;
    }
    proof {
        lemma_eq_idx_at(t@, n as int);
    }
    n
}

// ---------------------------------------------------------------------------
// Substring search.
// ---------------------------------------------------------------------------

/// Index of the first occurrence of `pat` in `line` at or after `from`, or
/// `-1` if there is none.
pub open spec fn spec_find(line: Seq<char>, pat: Seq<char>, from: int) -> int
    decreases line.len() - from,
{
    if from < 0 || from + pat.len() > line.len() {
        -1
    } else if pat.len() == 0 {
        from
    } else if line.subrange(from, from + pat.len()) == pat {
        from
    } else {
        spec_find(line, pat, from + 1)
    }
}

/// Finds the first occurrence of `pat` in `line`.
pub fn find_substr(line: &str, pat: &str) -> (r: Option<usize>)
    ensures
        match r {
            Option::Some(i) => spec_find(line@, pat@, 0) == i as int && i + pat@.len()
                <= line@.len(),
            Option::None => spec_find(line@, pat@, 0) == -1,
        },
{
    let n = line.unicode_len();
    let m = pat.unicode_len();
    if m == 0 {
        return Option::Some(0);
    }
    if m > n {
        return Option::None;
    }
    let mut i: usize = 0;
    while i <= n - m
        invariant
            n == line@.len(),
            m == pat@.len(),
            1 <= m <= n,
            0 <= i <= n - m + 1,
            spec_find(line@, pat@, 0) == spec_find(line@, pat@, i as int),
        decreases n - i,
    {
        let piece = line.substring_char(i, i + m);
        if str_eq(piece, pat) {
            proof {
                assert(line@.subrange(i as int, i as int + pat@.len()) == pat@);
                assert(spec_find(line@, pat@, i as int) == i as int);
            }
            return Option::Some(i);
        }
        proof {
            assert(spec_find(line@, pat@, i as int) == spec_find(line@, pat@, i as int + 1));
        }
        i = i + 1;
    }
    proof {
        assert(spec_find(line@, pat@, i as int) == -1);
    }
    Option::None
}

} // verus!
