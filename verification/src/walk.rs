//! Tree walk primitives: offset-to-token lookup, line counting, and document
//! dimensions, all stated against the token stream's text model.

use vstd::prelude::*;

use crate::tree::{
    count_newlines, lemma_count_newlines_nonneg, lemma_text_up_to_len_mono, text_up_to,
    tok_newlines, SyntaxTree, Token,
};

verus! {

/// The concatenation of the texts of the tokens from `i` on.
pub open spec fn text_from(toks: Seq<Token>, i: int) -> Seq<char>
    decreases toks.len() - i,
{
    if i < 0 || i >= toks.len() {
        Seq::empty()
    } else {
        toks[i].text@ + text_from(toks, i + 1)
    }
}

/// Prefix and suffix of the token text partition the whole text.
pub proof fn lemma_text_split(toks: Seq<Token>, i: int)
    requires
        0 <= i <= toks.len(),
    ensures
        text_up_to(toks, toks.len() as int) =~= text_up_to(toks, i) + text_from(toks, i),
    decreases toks.len() - i,
{
    if i == toks.len() {
        assert(text_up_to(toks, i) + text_from(toks, i) =~= text_up_to(toks, i));
    } else {
        lemma_text_split(toks, i + 1);
        assert(text_up_to(toks, i + 1) =~= text_up_to(toks, i) + toks[i].text@);
        assert(text_up_to(toks, i) + (toks[i].text@ + text_from(toks, i + 1)) =~= (text_up_to(
            toks,
            i,
        ) + toks[i].text@) + text_from(toks, i + 1));
    }
}

/// Newline counting distributes over concatenation.
pub proof fn lemma_count_newlines_concat(a: Seq<char>, b: Seq<char>)
    ensures
        count_newlines(a + b) == count_newlines(a) + count_newlines(b),
    decreases b.len(),
{
    if b.len() == 0 {
        assert(a + b =~= a);
    } else {
        lemma_count_newlines_concat(a, b.drop_last());
        assert((a + b).drop_last() =~= a + b.drop_last());
        assert((a + b).last() == b.last());
    }
}

/// The line containing a character offset: whitespace newlines accumulated up
/// to (not including) the token whose range contains the offset.
pub open spec fn line_at_spec(toks: Seq<Token>, offset: int) -> int
    decreases toks.len(),
{
    if toks.len() == 0 {
        0
    } else if offset < toks[0].text@.len() {
        0
    } else {
        tok_newlines(toks[0]) + line_at_spec(toks.drop_first(), offset - toks[0].text@.len())
    }
}

pub proof fn lemma_line_at_nonneg(toks: Seq<Token>, offset: int)
    ensures
        0 <= line_at_spec(toks, offset),
    decreases toks.len(),
{
    if toks.len() > 0 && offset >= toks[0].text@.len() {
        lemma_line_at_nonneg(toks.drop_first(), offset - toks[0].text@.len());
        lemma_count_newlines_nonneg(toks[0].text@);
    }
}

/// The line index of an offset never decreases as the offset grows.
pub proof fn lemma_line_at_monotonic(toks: Seq<Token>, o1: int, o2: int)
    requires
        o1 <= o2,
    ensures
        line_at_spec(toks, o1) <= line_at_spec(toks, o2),
    decreases toks.len(),
{
    if toks.len() > 0 {
        if o1 < toks[0].text@.len() {
            lemma_line_at_nonneg(toks, o2);
            lemma_count_newlines_nonneg(toks[0].text@);
            if o2 >= toks[0].text@.len() {
                lemma_line_at_nonneg(toks.drop_first(), o2 - toks[0].text@.len());
            }
        } else {
            lemma_line_at_monotonic(
                toks.drop_first(),
                o1 - toks[0].text@.len(),
                o2 - toks[0].text@.len(),
            );
        }
    }
}

/// Sum of per-token whitespace newlines over the whole stream.
pub open spec fn total_ws_newlines(toks: Seq<Token>) -> int {
    crate::tree::line_of(toks, toks.len() as int)
}

/// Past the end of the text, `line_at_spec` has accumulated every whitespace
/// newline in the stream.
pub proof fn lemma_line_at_end(toks: Seq<Token>, offset: int)
    requires
        offset >= text_up_to(toks, toks.len() as int).len(),
    ensures
        line_at_spec(toks, offset) == total_ws_newlines(toks),
    decreases toks.len(),
{
    if toks.len() > 0 {
        lemma_line_at_end_shift(toks, offset);
    }
}

proof fn lemma_line_at_end_shift(toks: Seq<Token>, offset: int)
    requires
        toks.len() > 0,
        offset >= text_up_to(toks, toks.len() as int).len(),
    ensures
        line_at_spec(toks, offset) == total_ws_newlines(toks),
    decreases toks.len(),
{
    let rest = toks.drop_first();
    lemma_text_split(toks, 1);
    assert(text_up_to(toks, 0) =~= Seq::<char>::empty());
    assert(text_up_to(toks, 1) =~= toks[0].text@);
    lemma_text_from_is_full(toks);
    assert(offset >= toks[0].text@.len() + text_up_to(rest, rest.len() as int).len());
    assert(line_at_spec(toks, offset) == tok_newlines(toks[0]) + line_at_spec(
        rest,
        offset - toks[0].text@.len(),
    ));
    if rest.len() > 0 {
        lemma_line_at_end_shift(rest, offset - toks[0].text@.len());
    } else {
        assert(line_at_spec(rest, offset - toks[0].text@.len()) == 0);
        assert(crate::tree::line_of(rest, 0) == 0);
    }
    lemma_line_of_drop_first(toks, toks.len() as int);
}

/// `text_from` after the first token equals the full text of the remainder.
proof fn lemma_text_from_is_full(toks: Seq<Token>)
    requires
        toks.len() > 0,
    ensures
        text_from(toks, 1) =~= text_up_to(toks.drop_first(), toks.len() - 1),
    decreases toks.len(),
{
    let rest = toks.drop_first();
    lemma_text_split_rest(toks, 1);
}

proof fn lemma_text_split_rest(toks: Seq<Token>, i: int)
    requires
        1 <= i <= toks.len(),
    ensures
        text_from(toks, i) =~= text_from(toks.drop_first(), i - 1),
        text_from(toks.drop_first(), 0) =~= text_up_to(toks.drop_first(), toks.len() - 1),
    decreases toks.len() - i,
{
    let rest = toks.drop_first();
    if i < toks.len() {
        lemma_text_split_rest(toks, i + 1);
        assert(toks[i] == rest[i - 1]);
    }
    lemma_text_split(rest, 0);
    assert(text_up_to(rest, 0) + text_from(rest, 0) =~= text_from(rest, 0));
}

/// Summing whitespace newlines from the front: dropping the first token.
proof fn lemma_line_of_drop_first(toks: Seq<Token>, j: int)
    requires
        1 <= j <= toks.len(),
    ensures
        crate::tree::line_of(toks, j) == tok_newlines(toks[0]) + crate::tree::line_of(
            toks.drop_first(),
            j - 1,
        ),
    decreases j,
{
    if j > 1 {
        lemma_line_of_drop_first(toks, j - 1);
        assert(toks[j - 1] == toks.drop_first()[j - 2]);
    } else {
        assert(crate::tree::line_of(toks, 0) == 0);
        assert(crate::tree::line_of(toks.drop_first(), 0) == 0);
    }
}

/// Whitespace newlines never exceed the text length they came from.
pub proof fn lemma_line_of_le_len(toks: Seq<Token>, j: int)
    requires
        0 <= j <= toks.len(),
    ensures
        0 <= crate::tree::line_of(toks, j) <= text_up_to(toks, j).len(),
    decreases j,
{
    if j > 0 {
        lemma_line_of_le_len(toks, j - 1);
        lemma_count_newlines_nonneg(toks[j - 1].text@);
    }
}


/// Dropping the stream's first token shifts text prefixes by its text.
proof fn lemma_text_up_to_drop_first(toks: Seq<Token>, j: int)
    requires
        1 <= j <= toks.len(),
    ensures
        text_up_to(toks, j) =~= toks[0].text@ + text_up_to(toks.drop_first(), j - 1),
    decreases j,
{
    if j == 1 {
        assert(text_up_to(toks, 0) =~= Seq::<char>::empty());
        assert(text_up_to(toks.drop_first(), 0) =~= Seq::<char>::empty());
    } else {
        lemma_text_up_to_drop_first(toks, j - 1);
        assert(toks[j - 1] == toks.drop_first()[j - 2]);
    }
}

/// The two line notions agree: the line index of a token's first character
/// equals the whitespace-newline count of the tokens before it.
pub proof fn lemma_line_at_token_start(toks: Seq<Token>, j: int)
    requires
        0 <= j < toks.len(),
        forall|k: int| 0 <= k <= j ==> (#[trigger] toks[k]).text@.len() >= 1,
    ensures
        line_at_spec(toks, text_up_to(toks, j).len() as int) == crate::tree::line_of(toks, j),
    decreases j,
{
    if j == 0 {
        assert(text_up_to(toks, 0) =~= Seq::<char>::empty());
    } else {
        let rest = toks.drop_first();
        lemma_text_up_to_drop_first(toks, j);
        assert(text_up_to(toks, j).len() >= toks[0].text@.len());
        assert forall|k: int| 0 <= k <= j - 1 implies (#[trigger] rest[k]).text@.len() >= 1 by {
            assert(rest[k] == toks[k + 1]);
        }
        lemma_line_at_token_start(rest, j - 1);
        lemma_line_of_drop_first(toks, j);
    }
}

/// Counts the newline characters in a token text.
pub fn count_newlines_in(text: &Vec<char>) -> (r: usize)
    ensures
        r == count_newlines(text@),
{
    let mut cnt: usize = 0;
    for j in 0..text.len()
        invariant
            cnt == count_newlines(text@.take(j as int)),
            cnt <= j,
    {
        proof {
            assert(text@.take(j + 1).drop_last() =~= text@.take(j as int));
            assert(text@.take(j + 1).last() == text@[j as int]);
            lemma_count_newlines_nonneg(text@.take(j as int));
        }
        if text[j] == '\n' {
            cnt = cnt + 1;
        }
    }
    proof {
        assert(text@.take(text@.len() as int) =~= text@);
    }
    cnt
}

impl SyntaxTree {
    /// The line (0-indexed) containing the given character offset: whitespace
    /// newlines are accumulated until the token whose range contains the
    /// offset is reached. Offset 0 is always on line 0.
    pub fn line_at_cursor(&self, offset: usize) -> (r: usize)
        requires
            self.wf(),
        ensures
            r == line_at_spec(self.tokens@, offset as int),
            offset == 0 ==> r == 0,
    {
        let ghost toks = self.tokens@;
        let mut acc: usize = 0;
        let mut consumed: usize = 0;
        let n = self.tokens.len();
        let mut i: usize = 0;
        proof {
            lemma_line_of_le_len(toks, 0);
            assert(toks.skip(0) =~= toks);
            assert(text_up_to(toks, 0) =~= Seq::<char>::empty());
        }
        while i < n
            invariant
                self.wf(),
                toks == self.tokens@,
                n == toks.len(),
                0 <= i <= n,
                consumed == text_up_to(toks, i as int).len(),
                consumed <= offset,
                acc == crate::tree::line_of(toks, i as int),
                line_at_spec(toks, offset as int) == acc + line_at_spec(
                    toks.skip(i as int),
                    offset - consumed,
                ),
            decreases n - i,
        {
            let t = &self.tokens[i];
            let tlen = t.text.len();
            proof {
                assert(toks.skip(i as int)[0] == toks[i as int]);
                assert(text_up_to(toks, i + 1) =~= text_up_to(toks, i as int) + toks[i as int].text@);
                lemma_text_up_to_len_mono(toks, i + 1, n as int);
            }
            if offset < consumed + tlen {
                proof {
                    assert(line_at_spec(toks.skip(i as int), offset - consumed) == 0);
                }
                return acc;
            }
            let nl = count_newlines_in(&t.text);
            proof {
                lemma_line_of_le_len(toks, i + 1);
                lemma_text_up_to_len_mono(toks, i + 1, n as int);
                lemma_count_newlines_nonneg(t.text@);
                assert(toks.skip(i as int).drop_first() =~= toks.skip(i + 1));
            }
            if matches!(t.kind, crate::tree::TokenKind::Whitespace) {
                acc = acc + nl;
            }
            consumed = consumed + tlen;
            i = i + 1;
        }
        proof {
            assert(toks.skip(n as int) =~= Seq::<Token>::empty());
        }
        acc
    }

    /// The token whose character range contains the offset; on a boundary the
    /// later token wins, and only an offset at or past the end of the text
    /// (or an empty tree) yields `None`.
    pub fn token_at_cursor(&self, offset: usize) -> (r: Option<usize>)
        requires
            self.wf(),
        ensures
            match r {
                Some(j) => {
                    &&& j < self.tokens@.len()
                    &&& text_up_to(self.tokens@, j as int).len() <= offset
                    &&& offset < text_up_to(self.tokens@, j as int).len()
                        + self.tokens@[j as int].text@.len()
                },
                None => offset >= self.full_text().len(),
            },
            offset < self.full_text().len() ==> r is Some,
    {
        let ghost toks = self.tokens@;
        let mut consumed: usize = 0;
        let n = self.tokens.len();
        let mut i: usize = 0;
        while i < n
            invariant
                self.wf(),
                toks == self.tokens@,
                n == toks.len(),
                0 <= i <= n,
                consumed == text_up_to(toks, i as int).len(),
                consumed <= offset,
            decreases n - i,
        {
            let tlen = self.tokens[i].text.len();
            proof {
                assert(text_up_to(toks, i + 1) =~= text_up_to(toks, i as int) + toks[i as int].text@);
                lemma_text_up_to_len_mono(toks, i + 1, n as int);
            }
            if offset < consumed + tlen {
                return Some(i);
            }
            consumed = consumed + tlen;
            i = i + 1;
        }
        None
    }
}

/// Running maximum of newline-delimited segment widths: `cur` is the width of
/// the segment being scanned, `best` the widest finished segment.
pub open spec fn mw_rec(s: Seq<char>, cur: int, best: int) -> int
    decreases s.len(),
{
    if s.len() == 0 {
        if cur > best {
            cur
        } else {
            best
        }
    } else if s[0] == '\n' {
        mw_rec(
            s.drop_first(),
            0,
            if cur > best {
                cur
            } else {
                best
            },
        )
    } else {
        mw_rec(s.drop_first(), cur + 1, best)
    }
}

/// The widest newline-delimited segment of `s`.
pub open spec fn max_width_spec(s: Seq<char>) -> int {
    mw_rec(s, 0, 0)
}

impl SyntaxTree {
    /// Scans the whole token stream once and reports the number of display
    /// lines (newlines plus one) and the widest line, in characters.
    pub fn node_dimensions(&self) -> (r: (usize, usize))
        requires
            self.wf(),
        ensures
            r.0 == count_newlines(self.full_text()) + 1,
            r.1 == max_width_spec(self.full_text()),
    {
        let ghost toks = self.tokens@;
        let ghost full = self.full_text();
        let mut newlines: usize = 0;
        let mut cur: usize = 0;
        let mut best: usize = 0;
        let mut consumed: usize = 0;
        let n = self.tokens.len();
        let mut i: usize = 0;
        proof {
            lemma_text_split(toks, 0);
            assert(text_up_to(toks, 0) + text_from(toks, 0) =~= text_from(toks, 0));
        }
        while i < n
            invariant
                self.wf(),
                toks == self.tokens@,
                full == self.full_text(),
                n == toks.len(),
                0 <= i <= n,
                consumed == text_up_to(toks, i as int).len(),
                newlines == count_newlines(full.take(consumed as int)),
                newlines <= consumed,
                cur <= consumed,
                best <= consumed,
                mw_rec(full, 0, 0) == mw_rec(text_from(toks, i as int), cur as int, best as int),
            decreases n - i,
        {
            let t = &self.tokens[i];
            let tlen = t.text.len();
            proof {
                assert(text_up_to(toks, i + 1) =~= text_up_to(toks, i as int) + toks[i as int].text@);
                lemma_text_up_to_len_mono(toks, i + 1, n as int);
                lemma_text_split(toks, i as int);
                assert(t.text@.skip(0) =~= t.text@);
                assert(text_from(toks, i as int) =~= t.text@ + text_from(toks, i + 1));
            }
            let mut j: usize = 0;
            while j < tlen
                invariant
                    self.wf(),
                    toks == self.tokens@,
                    full == self.full_text(),
                    n == toks.len(),
                    0 <= i < n,
                    t == self.tokens@[i as int],
                    tlen == t.text@.len(),
                    0 <= j <= tlen,
                    consumed == text_up_to(toks, i as int).len() + j,
                    consumed + (tlen - j) <= full.len(),
                    newlines == count_newlines(full.take(consumed as int)),
                    newlines <= consumed,
                    cur <= consumed,
                    best <= consumed,
                    mw_rec(full, 0, 0) == mw_rec(
                        t.text@.skip(j as int) + text_from(toks, i + 1),
                        cur as int,
                        best as int,
                    ),
                decreases tlen - j,
            {
                let c = t.text[j];
                let ghost s = t.text@.skip(j as int) + text_from(toks, i + 1);
                proof {
                    assert(s[0] == t.text@[j as int]);
                    assert(s.drop_first() =~= t.text@.skip(j + 1) + text_from(toks, i + 1));
                    lemma_text_split(toks, i as int);
                    assert(text_from(toks, i as int) =~= t.text@ + text_from(toks, i + 1));
                    assert(full =~= text_up_to(toks, i as int) + t.text@ + text_from(toks, i + 1));
                    assert(full[consumed as int] == t.text@[j as int]);
                    assert(full.take(consumed + 1).drop_last() =~= full.take(consumed as int));
                    assert(full.take(consumed + 1).last() == full[consumed as int]);
                }
                if c == '\n' {
                    newlines = newlines + 1;
                    if cur > best {
                        best = cur;
                    }
                    cur = 0;
                } else {
                    cur = cur + 1;
                }
                consumed = consumed + 1;
                j = j + 1;
            }
            proof {
                assert(t.text@.skip(tlen as int) =~= Seq::<char>::empty());
                assert(t.text@.skip(tlen as int) + text_from(toks, i + 1) =~= text_from(
                    toks,
                    i + 1,
                ));
            }
            i = i + 1;
        }
        proof {
            assert(text_from(toks, n as int) =~= Seq::<char>::empty());
            assert(full.take(consumed as int) =~= full);
            lemma_count_newlines_nonneg(full);
        }
        let width = if cur > best {
            cur
        } else {
            best
        };
        (newlines + 1, width)
    }
}


/// The characters after the last newline of `s` (all of `s` when it has no
/// newline).
pub open spec fn suffix_after_nl(s: Seq<char>) -> Seq<char>
    decreases s.len(),
{
    if s.len() == 0 {
        Seq::empty()
    } else if s.last() == '\n' {
        Seq::empty()
    } else {
        suffix_after_nl(s.drop_last()).push(s.last())
    }
}

/// The running segment maximum never exceeds its inputs plus the text length.
pub proof fn lemma_mw_rec_le(s: Seq<char>, cur: int, best: int)
    requires
        0 <= cur,
        0 <= best,
    ensures
        mw_rec(s, cur, best) <= (if cur > best {
            cur
        } else {
            best
        }) + s.len(),
    decreases s.len(),
{
    if s.len() > 0 {
        if s[0] == '\n' {
            lemma_mw_rec_le(
                s.drop_first(),
                0,
                if cur > best {
                    cur
                } else {
                    best
                },
            );
        } else {
            lemma_mw_rec_le(s.drop_first(), cur + 1, best);
        }
    }
}

impl SyntaxTree {
    /// Where a token sits on screen: the lines it spans, the columns its
    /// widest segment spans, and the indentation of its line (the text after
    /// the last newline of the nearest preceding line-breaking whitespace
    /// token).
    pub fn token_position(&self, token: usize) -> (r: ((usize, usize), (usize, usize), String))
        requires
            self.wf(),
            token < self.tokens@.len(),
        ensures
            ({
                let toks = self.tokens@;
                let start = text_up_to(toks, token as int).len() as int;
                &&& r.0.0 == crate::tree::line_of(toks, token as int)
                &&& r.0.1 == crate::tree::line_of(toks, token as int) + count_newlines(
                    toks[token as int].text@,
                )
                &&& r.1.0 == suffix_after_nl(self.full_text().take(start)).len()
                &&& r.1.1 == r.1.0 + max_width_spec(toks[token as int].text@)
                &&& r.2@ == (if crate::nav::nl_stop(toks, token - 1) == -1 {
                    Seq::<char>::empty()
                } else {
                    suffix_after_nl(toks[crate::nav::nl_stop(toks, token - 1)].text@)
                })
            }),
    {
        let ghost toks = self.tokens@;
        let ghost full = self.full_text();
        let mut line: usize = 0;
        let mut col: usize = 0;
        let mut consumed: usize = 0;
        let mut last_break: Option<usize> = None;
        let mut i: usize = 0;
        proof {
            lemma_text_split(toks, 0);
            assert(full.take(0) =~= Seq::<char>::empty());
        }
        while i < token
            invariant
                self.wf(),
                toks == self.tokens@,
                full == self.full_text(),
                token < toks.len(),
                0 <= i <= token,
                consumed == text_up_to(toks, i as int).len(),
                line == crate::tree::line_of(toks, i as int),
                col == suffix_after_nl(full.take(consumed as int)).len(),
                col <= consumed,
                match last_break {
                    Some(j) => crate::nav::nl_stop(toks, i - 1) == j && j < toks.len(),
                    None => crate::nav::nl_stop(toks, i - 1) == -1,
                },
            decreases token - i,
        {
            let t = &self.tokens[i];
            let tlen = t.text.len();
            let ghost t0 = *t;
            proof {
                assert(text_up_to(toks, i + 1) =~= text_up_to(toks, i as int) + toks[i as int].text@);
                lemma_text_up_to_len_mono(toks, i + 1, toks.len() as int);
                lemma_line_of_le_len(toks, i + 1);
                assert(crate::tree::line_of(toks, i + 1) == crate::tree::line_of(toks, i as int)
                    + tok_newlines(toks[i as int]));
            }
            let nl = crate::nav::tok_newlines_of(t);
            let mut j: usize = 0;
            while j < tlen
                invariant
                    self.wf(),
                    toks == self.tokens@,
                    full == self.full_text(),
                    0 <= i < token < toks.len(),
                    t == self.tokens@[i as int],
                    t0 == self.tokens@[i as int],
                    tlen == t.text@.len(),
                    0 <= j <= tlen,
                    consumed == text_up_to(toks, i as int).len() + j,
                    consumed + (tlen - j) <= full.len(),
                    col == suffix_after_nl(full.take(consumed as int)).len(),
                    col <= consumed,
                decreases tlen - j,
            {
                let c = t.text[j];
                proof {
                    lemma_text_split(toks, i as int);
                    assert(full =~= text_up_to(toks, i as int) + text_from(toks, i as int));
                    assert(text_from(toks, i as int) =~= t0.text@ + text_from(toks, i + 1));
                    assert(full[consumed as int] == t0.text@[j as int]);
                    assert(full.take(consumed + 1).drop_last() =~= full.take(consumed as int));
                    assert(full.take(consumed + 1).last() == full[consumed as int]);
                }
                if c == '\n' {
                    col = 0;
                } else {
                    col = col + 1;
                }
                consumed = consumed + 1;
                j = j + 1;
            }
            proof {
                assert(text_up_to(toks, i + 1).len() == text_up_to(toks, i as int).len()
                    + t0.text@.len());
            }
            if nl > 0 {
                last_break = Some(i);
            }
            line = line + nl;
            i = i + 1;
        }
        // the token's own contribution
        let t = &self.tokens[token];
        let own_newlines = count_newlines_in(&t.text);
        let seg = widest_segment(&t.text);
        proof {
            assert(text_up_to(toks, token + 1) =~= text_up_to(toks, token as int)
                + toks[token as int].text@);
            lemma_text_up_to_len_mono(toks, token + 1, toks.len() as int);
            lemma_line_of_le_len(toks, token as int);
            lemma_count_newlines_nonneg(t.text@);
            lemma_mw_rec_le(t.text@, 0, 0);
        }
        let indent: Vec<char> = match last_break {
            Some(j) => indent_tail(&self.tokens[j].text),
            None => Vec::new(),
        };
        (
            (line, line + own_newlines),
            (col, col + seg),
            crate::tree::chars_to_string(&indent),
        )
    }
}

/// The widest newline-delimited segment of one text.
pub fn widest_segment(text: &Vec<char>) -> (r: usize)
    ensures
        r == max_width_spec(text@),
        r <= text@.len(),
{
    let n = text.len();
    let mut cur: usize = 0;
    let mut best: usize = 0;
    let mut j: usize = 0;
    proof {
        assert(text@.skip(0) =~= text@);
    }
    while j < n
        invariant
            n == text@.len(),
            0 <= j <= n,
            cur <= j,
            best <= j,
            mw_rec(text@, 0, 0) == mw_rec(text@.skip(j as int), cur as int, best as int),
        decreases n - j,
    {
        proof {
            assert(text@.skip(j as int)[0] == text@[j as int]);
            assert(text@.skip(j as int).drop_first() =~= text@.skip(j + 1));
        }
        if text[j] == '\n' {
            if cur > best {
                best = cur;
            }
            cur = 0;
        } else {
            cur = cur + 1;
        }
        j = j + 1;
    }
    proof {
        assert(text@.skip(n as int) =~= Seq::<char>::empty());
    }
    if cur > best {
        cur
    } else {
        best
    }
}

/// The characters after the last newline of one text.
pub fn indent_tail(text: &Vec<char>) -> (r: Vec<char>)
    ensures
        r@ == suffix_after_nl(text@),
{
    let mut out: Vec<char> = Vec::new();
    let n = text.len();
    let mut j: usize = 0;
    proof {
        assert(text@.take(0) =~= Seq::<char>::empty());
    }
    while j < n
        invariant
            n == text@.len(),
            0 <= j <= n,
            out@ == suffix_after_nl(text@.take(j as int)),
        decreases n - j,
    {
        proof {
            assert(text@.take(j + 1).drop_last() =~= text@.take(j as int));
            assert(text@.take(j + 1).last() == text@[j as int]);
        }
        if text[j] == '\n' {
            out = Vec::new();
        } else {
            out.push(text[j]);
        }
        j = j + 1;
    }
    proof {
        assert(text@.take(n as int) =~= text@);
    }
    out
}

/// Everything `node_dimensions` and `line_at_cursor` agree on: when newlines
/// occur only inside whitespace tokens, the line count is the line index of
/// the end-of-text offset plus one.
pub open spec fn newlines_only_in_whitespace(toks: Seq<Token>) -> bool {
    forall|i: int|
        0 <= i < toks.len() && !((#[trigger] toks[i]).kind is Whitespace) ==> count_newlines(
            toks[i].text@,
        ) == 0
}

/// Line counting consistency: the dimension scan's line count equals the line
/// index just past the end of the document, plus one.
pub proof fn lemma_dimensions_consistency(tree: SyntaxTree)
    requires
        newlines_only_in_whitespace(tree.tokens@),
    ensures
        count_newlines(tree.full_text()) + 1 == line_at_spec(
            tree.tokens@,
            tree.full_text().len() as int,
        ) + 1,
{
    lemma_line_at_end(tree.tokens@, tree.full_text().len() as int);
    lemma_total_newlines(tree.tokens@, tree.tokens@.len() as int);
}

/// Under the same hypothesis, total newlines in the text equal the whitespace
/// newline sum.
proof fn lemma_total_newlines(toks: Seq<Token>, j: int)
    requires
        0 <= j <= toks.len(),
        newlines_only_in_whitespace(toks),
    ensures
        count_newlines(text_up_to(toks, j)) == crate::tree::line_of(toks, j),
    decreases j,
{
    if j > 0 {
        lemma_total_newlines(toks, j - 1);
        lemma_count_newlines_concat(text_up_to(toks, j - 1), toks[j - 1].text@);
    }
}

} // verus!
