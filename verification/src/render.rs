//! The line renderer: one forward walk over the token stream produces styled
//! display lines.
//!
//! Each token contributes one styled run: bold/key coloring when its nearest
//! non-Flow ancestor node is a block-map key, reverse-video when the cursor
//! offset falls inside the token. Token text is split on newlines; every
//! newline finalizes the line being assembled. Adjacent runs with equal
//! styling merge into one span, and no span is ever empty, so re-flattening
//! the spans reproduces the document text exactly.

use vstd::prelude::*;

use crate::tree::{count_newlines, text_up_to, Node, NodeKind, SyntaxTree, Token};
use crate::walk::lemma_text_split;

verus! {

/// A styled run of text on one display line. `key` requests the key style
/// (bold, key color); `active` requests reverse-video highlighting.
pub struct Span {
    pub text: Vec<char>,
    pub key: bool,
    pub active: bool,
}

/// One display line: an ordered sequence of styled spans.
pub struct RenderLine {
    pub spans: Vec<Span>,
}

/// The characters of the first `i` spans, concatenated.
pub open spec fn spans_text(ss: Seq<Span>, i: int) -> Seq<char>
    decreases i,
{
    if i <= 0 {
        Seq::empty()
    } else {
        spans_text(ss, i - 1) + ss[i - 1].text@
    }
}

/// The text of a whole line.
pub open spec fn line_text(l: RenderLine) -> Seq<char> {
    spans_text(l.spans@, l.spans@.len() as int)
}

/// The text of the first `i` lines, each followed by the newline that ended it.
pub open spec fn done_text(ls: Seq<RenderLine>, i: int) -> Seq<char>
    decreases i,
{
    if i <= 0 {
        Seq::empty()
    } else {
        done_text(ls, i - 1) + line_text(ls[i - 1]) + seq!['\n']
    }
}

/// Re-flattening a non-empty rendering: all lines joined by newlines.
pub open spec fn rendered_text(ls: Seq<RenderLine>) -> Seq<char>
    recommends
        ls.len() >= 1,
{
    done_text(ls, ls.len() - 1) + line_text(ls[ls.len() - 1])
}

/// Every character of a span, tagged with the span's styling.
pub open spec fn tag_all(s: Span) -> Seq<(char, bool, bool)> {
    Seq::new(s.text@.len(), |i: int| (s.text@[i], s.key, s.active))
}

/// The styled characters of the first `i` spans.
pub open spec fn spans_styled(ss: Seq<Span>, i: int) -> Seq<(char, bool, bool)>
    decreases i,
{
    if i <= 0 {
        Seq::empty()
    } else {
        spans_styled(ss, i - 1) + tag_all(ss[i - 1])
    }
}

/// The styled characters of the first `i` lines (line breaks carry no style
/// and are dropped).
pub open spec fn lines_styled(ls: Seq<RenderLine>, i: int) -> Seq<(char, bool, bool)>
    decreases i,
{
    if i <= 0 {
        Seq::empty()
    } else {
        lines_styled(ls, i - 1) + spans_styled(ls[i - 1].spans@, ls[i - 1].spans@.len() as int)
    }
}

/// A text with every non-newline character tagged with one styling.
pub open spec fn styled_of(s: Seq<char>, key: bool, active: bool) -> Seq<(char, bool, bool)>
    decreases s.len(),
{
    if s.len() == 0 {
        Seq::empty()
    } else if s.last() == '\n' {
        styled_of(s.drop_last(), key, active)
    } else {
        styled_of(s.drop_last(), key, active).push((s.last(), key, active))
    }
}

/// The nearest ancestor of node `i` that is not a Flow wrapper; `-1` when the
/// chain leaves the arena.
pub open spec fn non_flow_ancestor(nodes: Seq<Node>, i: int) -> int
    decreases i,
{
    if !(0 <= i < nodes.len()) {
        -1
    } else if !(nodes[i].kind is Flow) {
        i
    } else {
        match nodes[i].parent {
            Some(p) => if p < i {
                non_flow_ancestor(nodes, p as int)
            } else {
                -1
            },
            None => -1,
        }
    }
}

/// Whether token `j` renders in the key style: its styling ancestor is a
/// block-map key.
pub open spec fn key_flag_of(tree: SyntaxTree, j: int) -> bool {
    match tree.tokens@[j].parent {
        None => false,
        Some(pi) => {
            let a = non_flow_ancestor(tree.nodes@, pi as int);
            &&& 0 <= a < tree.nodes@.len()
            &&& tree.nodes@[a].kind is BlockMapKey
        },
    }
}

/// Whether token `j` is active: the cursor offset lies inside its range.
pub open spec fn active_of(tree: SyntaxTree, cursor: int, j: int) -> bool {
    let start = text_up_to(tree.tokens@, j).len() as int;
    start <= cursor < start + tree.tokens@[j].text@.len()
}

/// The styled characters of the first `i` tokens: each token's non-newline
/// characters under that token's styling.
pub open spec fn model_styled(tree: SyntaxTree, cursor: int, i: int) -> Seq<(char, bool, bool)>
    decreases i,
{
    if i <= 0 {
        Seq::empty()
    } else {
        model_styled(tree, cursor, i - 1) + styled_of(
            tree.tokens@[i - 1].text@,
            key_flag_of(tree, i - 1),
            active_of(tree, cursor, i - 1),
        )
    }
}

/// The widest of the first `i` lines, in characters.
pub open spec fn lines_max(ls: Seq<RenderLine>, i: int) -> int
    decreases i,
{
    if i <= 0 {
        0
    } else {
        let w = line_text(ls[i - 1]).len() as int;
        let m = lines_max(ls, i - 1);
        if w > m {
            w
        } else {
            m
        }
    }
}

/// Canonical span lists: no span is empty, and no two adjacent spans share
/// the same styling (they would have been merged).
pub open spec fn canonical_spans(ss: Seq<Span>) -> bool {
    forall|si: int|
        0 <= si < ss.len() ==> (#[trigger] ss[si]).text@.len() >= 1 && (si > 0 ==> (ss[si].key
            != ss[si - 1].key || ss[si].active != ss[si - 1].active))
}

/// Every line of a rendering is canonical.
pub open spec fn canonical_lines(ls: Seq<RenderLine>) -> bool {
    forall|li: int| 0 <= li < ls.len() ==> canonical_spans((#[trigger] ls[li]).spans@)
}

/// Line-prefix functions only read the lines before `i`.
proof fn lemma_lines_prefix(ls1: Seq<RenderLine>, ls2: Seq<RenderLine>, i: int)
    requires
        forall|k: int| 0 <= k < i ==> ls1[k] == ls2[k],
    ensures
        done_text(ls1, i) == done_text(ls2, i),
        lines_styled(ls1, i) == lines_styled(ls2, i),
        lines_max(ls1, i) == lines_max(ls2, i),
    decreases i,
{
    if i > 0 {
        lemma_lines_prefix(ls1, ls2, i - 1);
    }
}

/// Span-prefix functions only read the spans before `i`.
proof fn lemma_spans_prefix(ss1: Seq<Span>, ss2: Seq<Span>, i: int)
    requires
        forall|k: int| 0 <= k < i ==> ss1[k] == ss2[k],
    ensures
        spans_text(ss1, i) == spans_text(ss2, i),
        spans_styled(ss1, i) == spans_styled(ss2, i),
    decreases i,
{
    if i > 0 {
        lemma_spans_prefix(ss1, ss2, i - 1);
    }
}

impl SyntaxTree {
    /// The styling ancestor check for one token: walks from the token's
    /// parent past Flow wrappers and reports whether a block-map key owns it.
    fn styling_key(&self, j: usize) -> (r: bool)
        requires
            self.wf(),
            j < self.tokens@.len(),
        ensures
            r == key_flag_of(*self, j as int),
    {
        let ghost nodes = self.nodes@;
        match self.tokens[j].parent {
            None => false,
            Some(pi) => {
                let mut a: usize = pi;
                loop
                    invariant_except_break
                        non_flow_ancestor(nodes, pi as int) == non_flow_ancestor(nodes, a as int),
                    invariant
                        self.wf(),
                        nodes == self.nodes@,
                        a < nodes.len(),
                        j < self.tokens@.len(),
                        self.tokens@[j as int].parent == Some(pi),
                    ensures
                        ({
                            let res = non_flow_ancestor(nodes, pi as int);
                            (0 <= res < nodes.len() && nodes[res].kind is BlockMapKey)
                                == (a < nodes.len() && nodes[a as int].kind is BlockMapKey)
                        }),
                    decreases a,
                {
                    if !matches!(self.nodes[a].kind, NodeKind::Flow) {
                        break;
                    }
                    match self.nodes[a].parent {
                        Some(p) => {
                            a = p;
                        },
                        None => {
                            proof {
                                assert(non_flow_ancestor(nodes, a as int) == -1);
                            }
                            return false;
                        },
                    }
                }
                matches!(self.nodes[a].kind, NodeKind::BlockMapKey)
            },
        }
    }

    /// Walks the whole tree once and produces the styled display lines and
    /// the widest line's character width. Re-flattening the lines (spans
    /// concatenated, lines joined by newlines) reproduces the document text
    /// exactly; each non-newline character carries the styling of the token
    /// it came from; the line count is the document's newline count plus one.
    #[verifier::rlimit(100)]
    pub fn tree_to_lines(&self, cursor: usize) -> (r: (Vec<RenderLine>, usize))
        requires
            self.wf(),
        ensures
            r.0@.len() == count_newlines(self.full_text()) + 1,
            rendered_text(r.0@) == self.full_text(),
            lines_styled(r.0@, r.0@.len() as int) == model_styled(
                *self,
                cursor as int,
                self.tokens@.len() as int,
            ),
            canonical_lines(r.0@),
            r.1 == lines_max(r.0@, r.0@.len() as int),
    {
        let ghost toks = self.tokens@;
        let ghost full = self.full_text();
        let mut done: Vec<RenderLine> = Vec::new();
        let mut cur: Vec<Span> = Vec::new();
        let mut cur_width: usize = 0;
        let mut maxw: usize = 0;
        let mut consumed: usize = 0;
        let n = self.tokens.len();
        let mut i: usize = 0;
        proof {
            assert(done_text(done@, 0) + spans_text(cur@, 0) =~= full.take(0));
            assert(lines_styled(done@, 0) + spans_styled(cur@, 0) =~= model_styled(
                *self,
                cursor as int,
                0,
            ));
        }
        while i < n
            invariant
                self.wf(),
                toks == self.tokens@,
                full == self.full_text(),
                n == toks.len(),
                0 <= i <= n,
                consumed == text_up_to(toks, i as int).len(),
                done@.len() == count_newlines(full.take(consumed as int)),
                done_text(done@, done@.len() as int) + spans_text(cur@, cur@.len() as int)
                    == full.take(consumed as int),
                lines_styled(done@, done@.len() as int) + spans_styled(cur@, cur@.len() as int)
                    == model_styled(*self, cursor as int, i as int),
                cur_width == spans_text(cur@, cur@.len() as int).len(),
                cur_width <= consumed,
                maxw == lines_max(done@, done@.len() as int),
                maxw <= consumed,
                canonical_lines(done@),
                canonical_spans(cur@),
            decreases n - i,
        {
            let key = self.styling_key(i);
            let t = &self.tokens[i];
            let tlen = t.text.len();
            proof {
                assert(text_up_to(toks, i + 1) =~= text_up_to(toks, i as int) + toks[i as int].text@);
                crate::tree::lemma_text_up_to_len_mono(toks, i + 1, n as int);
            }
            let active = consumed <= cursor && cursor < consumed + tlen;
            let ghost t0 = *t;
            proof {
                assert(styled_of(t0.text@.take(0), key, active) =~= Seq::<(
                    char,
                    bool,
                    bool,
                )>::empty());
                lemma_concat_empty(
                    lines_styled(done@, done@.len() as int) + spans_styled(
                        cur@,
                        cur@.len() as int,
                    ),
                );
            }
            let mut j: usize = 0;
            while j < tlen
                invariant
                    self.wf(),
                    toks == self.tokens@,
                    full == self.full_text(),
                    n == toks.len(),
                    0 <= i < n,
                    t == self.tokens@[i as int],
                    t0 == self.tokens@[i as int],
                    tlen == t.text@.len(),
                    0 <= j <= tlen,
                    consumed == text_up_to(toks, i as int).len() + j,
                    consumed + (tlen - j) <= full.len(),
                    key == key_flag_of(*self, i as int),
                    active == active_of(*self, cursor as int, i as int),
                    done@.len() == count_newlines(full.take(consumed as int)),
                    done_text(done@, done@.len() as int) + spans_text(cur@, cur@.len() as int)
                        == full.take(consumed as int),
                    lines_styled(done@, done@.len() as int) + spans_styled(cur@, cur@.len() as int)
                        == model_styled(*self, cursor as int, i as int) + styled_of(
                        t0.text@.take(j as int),
                        key,
                        active,
                    ),
                    cur_width == spans_text(cur@, cur@.len() as int).len(),
                    cur_width <= consumed,
                    maxw == lines_max(done@, done@.len() as int),
                    maxw <= consumed,
                    canonical_lines(done@),
                    canonical_spans(cur@),
                decreases tlen - j,
            {
                let c = t.text[j];
                let ghost dt = done_text(done@, done@.len() as int);
                let ghost st_pre = spans_text(cur@, cur@.len() as int);
                let ghost ss_pre = spans_styled(cur@, cur@.len() as int);
                let ghost ls_pre = lines_styled(done@, done@.len() as int);
                proof {
                    lemma_text_split(toks, i as int);
                    assert(full =~= text_up_to(toks, i as int) + crate::walk::text_from(
                        toks,
                        i as int,
                    ));
                    assert(crate::walk::text_from(toks, i as int) =~= t0.text@
                        + crate::walk::text_from(toks, i + 1));
                    assert(full[consumed as int] == t0.text@[j as int]);
                    assert(full.take(consumed + 1).drop_last() =~= full.take(consumed as int));
                    assert(full.take(consumed + 1).last() == full[consumed as int]);
                    assert(full.take(consumed + 1) == full.take(consumed as int).push(c)) by {
                        assert(full.take(consumed + 1) =~= full.take(consumed as int).push(
                            full[consumed as int],
                        ));
                    }
                    assert(t0.text@.take(j + 1).drop_last() =~= t0.text@.take(j as int));
                    assert(t0.text@.take(j + 1).last() == t0.text@[j as int]);
                }
                if c == '\n' {
                    // finish the line being assembled
                    let ghost done_old = done@;
                    let finished = RenderLine { spans: cur };
                    let ghost finished_g = finished;
                    done.push(finished);
                    cur = Vec::new();
                    if cur_width > maxw {
                        maxw = cur_width;
                    }
                    cur_width = 0;
                    proof {
                        lemma_lines_prefix(done@, done_old, done_old.len() as int);
                        assert(canonical_lines(done@)) by {
                            assert(forall|li: int|
                                0 <= li < done_old.len() ==> done@[li] == done_old[li]);
                            assert(done@[done@.len() - 1] == finished_g);
                        }
                        assert(canonical_spans(cur@));
                        assert(line_text(finished_g) == st_pre);
                        assert(done_text(done@, done@.len() as int) == dt + st_pre + seq!['\n']);
                        assert(lines_styled(done@, done@.len() as int) == ls_pre + ss_pre);
                        assert(spans_text(cur@, 0) =~= Seq::<char>::empty());
                        assert(spans_styled(cur@, 0) =~= Seq::<(char, bool, bool)>::empty());
                        lemma_concat_empty(dt + st_pre + seq!['\n']);
                        lemma_concat_empty(ls_pre + ss_pre);
                        assert(dt + st_pre + seq!['\n'] == full.take(consumed + 1)) by {
                            assert(dt + st_pre + seq!['\n'] =~= (dt + st_pre).push('\n'));
                        }
                        // the finished line is never wider than any earlier
                        // point of the scan
                        assert(lines_max(done@, done@.len() as int) == (if st_pre.len() as int
                            > lines_max(done_old, done_old.len() as int) {
                            st_pre.len() as int
                        } else {
                            lines_max(done_old, done_old.len() as int)
                        }));
                    }
                } else {
                    // append the character, merging into the last span when
                    // the styling matches
                    let mut start_new = true;
                    if cur.len() > 0 {
                        let lk = cur[cur.len() - 1].key;
                        let la = cur[cur.len() - 1].active;
                        if lk == key && la == active {
                            start_new = false;
                        }
                    }
                    if start_new {
                        let ghost cur_pre = cur@;
                        let mut text: Vec<char> = Vec::new();
                        text.push(c);
                        let sp = Span { text, key, active };
                        let ghost sp_g = sp;
                        cur.push(sp);
                        proof {
                            assert(canonical_spans(cur@)) by {
                                assert(forall|si: int|
                                    0 <= si < cur_pre.len() ==> cur@[si] == cur_pre[si]);
                                assert(cur@[cur@.len() - 1] == sp_g);
                                assert(sp_g.text@.len() == 1);
                            }
                            lemma_spans_prefix(cur@, cur_pre, cur_pre.len() as int);
                            assert(sp_g.text@ =~= Seq::<char>::empty().push(c));
                            assert(tag_all(sp_g) =~= Seq::<(char, bool, bool)>::empty().push(
                                (c, key, active),
                            ));
                            assert(spans_text(cur@, cur@.len() as int) == st_pre + sp_g.text@);
                            assert(st_pre + sp_g.text@ == st_pre.push(c)) by {
                                assert(st_pre + sp_g.text@ =~= st_pre.push(c));
                            }
                            lemma_push_through_concat(dt, st_pre, c);
                            assert(spans_styled(cur@, cur@.len() as int) == ss_pre + tag_all(sp_g));
                            assert(ss_pre + tag_all(sp_g) == ss_pre.push((c, key, active))) by {
                                assert(ss_pre + tag_all(sp_g) =~= ss_pre.push((c, key, active)));
                            }
                            lemma_push_through_concat(ls_pre, ss_pre, (c, key, active));
                        }
                    } else {
                        let ghost cur_pre = cur@;
                        let mut sp = cur.pop().unwrap();
                        let ghost sp_old = sp;
                        sp.text.push(c);
                        let ghost sp_new = sp;
                        let ghost cur_old = cur@.push(sp_old);
                        cur.push(sp);
                        proof {
                            assert(cur_old == cur_pre) by {
                                assert(cur_old =~= cur_pre);
                            }
                            assert(canonical_spans(cur@)) by {
                                assert(forall|si: int|
                                    0 <= si < cur@.len() - 1 ==> cur@[si] == cur_pre[si]);
                                assert(cur@[cur@.len() - 1] == sp_new);
                                assert(sp_new.key == sp_old.key && sp_new.active
                                    == sp_old.active);
                                assert(sp_new.text@.len() == sp_old.text@.len() + 1);
                                assert(cur_pre[cur_pre.len() - 1] == sp_old);
                            }
                            lemma_spans_prefix(cur@, cur_old, cur@.len() - 1);
                            assert(tag_all(sp_new) =~= tag_all(sp_old).push((c, key, active)));
                            assert(spans_text(cur@, cur@.len() as int) == spans_text(
                                cur@,
                                cur@.len() - 1,
                            ) + sp_new.text@);
                            assert(spans_text(cur@, cur@.len() as int) == st_pre.push(c)) by {
                                assert(spans_text(cur_old, cur_old.len() as int) == spans_text(
                                    cur_old,
                                    cur_old.len() - 1,
                                ) + sp_old.text@);
                                assert(spans_text(cur@, cur@.len() - 1) + sp_new.text@
                                    =~= (spans_text(cur_old, cur_old.len() - 1) + sp_old.text@).push(
                                    c,
                                ));
                            }
                            lemma_push_through_concat(dt, st_pre, c);
                            assert(spans_styled(cur@, cur@.len() as int) == spans_styled(
                                cur@,
                                cur@.len() - 1,
                            ) + tag_all(sp_new));
                            assert(spans_styled(cur@, cur@.len() as int) == ss_pre.push(
                                (c, key, active),
                            )) by {
                                assert(spans_styled(cur_old, cur_old.len() as int) == spans_styled(
                                    cur_old,
                                    cur_old.len() - 1,
                                ) + tag_all(sp_old));
                                assert(spans_styled(cur@, cur@.len() - 1) + tag_all(sp_new)
                                    =~= (spans_styled(cur_old, cur_old.len() - 1) + tag_all(
                                    sp_old,
                                )).push((c, key, active)));
                            }
                            lemma_push_through_concat(ls_pre, ss_pre, (c, key, active));
                        }
                    }
                    cur_width = cur_width + 1;
                }
                consumed = consumed + 1;
                j = j + 1;
            }
            proof {
                assert(t0.text@.take(tlen as int) =~= t0.text@);
                assert(model_styled(*self, cursor as int, i + 1) == model_styled(
                    *self,
                    cursor as int,
                    i as int,
                ) + styled_of(t0.text@, key, active));
            }
            i = i + 1;
        }
        // finalize the last, possibly empty, line
        let ghost done_old = done@;
        let ghost dt = done_text(done@, done@.len() as int);
        let ghost st_pre = spans_text(cur@, cur@.len() as int);
        let ghost ss_pre = spans_styled(cur@, cur@.len() as int);
        let ghost ls_pre = lines_styled(done@, done@.len() as int);
        let final_width = cur_width;
        let finished = RenderLine { spans: cur };
        let ghost finished_g = finished;
        done.push(finished);
        if final_width > maxw {
            maxw = final_width;
        }
        proof {
            assert(full.take(consumed as int) =~= full);
            lemma_lines_prefix(done@, done_old, done_old.len() as int);
            assert(canonical_lines(done@)) by {
                assert(forall|li: int| 0 <= li < done_old.len() ==> done@[li] == done_old[li]);
                assert(done@[done@.len() - 1] == finished_g);
            }
            assert(line_text(finished_g) == st_pre);
            assert(rendered_text(done@) == dt + st_pre);
            assert(lines_styled(done@, done@.len() as int) == ls_pre + ss_pre);
            crate::tree::lemma_count_newlines_nonneg(full);
        }
        (done, maxw)
    }
}

/// Appending one element inside the right operand of a concatenation.
proof fn lemma_push_through_concat<A>(a: Seq<A>, b: Seq<A>, x: A)
    ensures
        a + b.push(x) == (a + b).push(x),
{
    assert(a + b.push(x) =~= (a + b).push(x));
}

/// The empty sequence is a right identity of concatenation.
proof fn lemma_concat_empty<A>(a: Seq<A>)
    ensures
        a + Seq::<A>::empty() == a,
{
    assert(a + Seq::<A>::empty() =~= a);
}

} // verus!
