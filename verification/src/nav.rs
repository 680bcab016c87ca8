//! Directional cursor movement over the token stream.
//!
//! A cursor stop is always a selectable token. Vertical movement crosses the
//! requested number of line breaks and then snaps to the first selectable
//! token on the landing line; horizontal movement counts off selectable
//! tokens without ever leaving the current line, and lands only on them.

use vstd::prelude::*;

use crate::tree::{
    count_newlines, is_selectable, lemma_count_newlines_nonneg, line_of, selectable_kind,
    tok_newlines, SyntaxTree, Token, TokenKind,
};
use crate::walk::{count_newlines_in, lemma_line_of_le_len};

verus! {

/// A movement command: a direction and a step count. A count of zero is the
/// identity for every direction.
#[derive(Clone, Copy, PartialEq, Eq, Structural, Debug)]
pub enum Direction {
    Up(usize),
    Down(usize),
    Left(usize),
    Right(usize),
}

/// The step count of a movement command.
pub open spec fn dir_count(dir: Direction) -> int {
    match dir {
        Direction::Up(n) => n as int,
        Direction::Down(n) => n as int,
        Direction::Left(n) => n as int,
        Direction::Right(n) => n as int,
    }
}

/// Whitespace newlines summed over a prefix never decrease.
pub proof fn lemma_line_of_mono(toks: Seq<Token>, i: int, j: int)
    requires
        0 <= i <= j,
    ensures
        line_of(toks, i) <= line_of(toks, j),
    decreases j - i,
{
    if i < j {
        lemma_line_of_mono(toks, i, j - 1);
        lemma_count_newlines_nonneg(toks[j - 1].text@);
    }
}

/// Executable whitespace-newline count of a token.
pub fn tok_newlines_of(t: &Token) -> (r: usize)
    ensures
        r == tok_newlines(*t),
{
    match t.kind {
        TokenKind::Whitespace => count_newlines_in(&t.text),
        _ => 0,
    }
}

/// The vertical walk: starting at `i`, step one token at a time (forward when
/// `down`), adding each crossed token's whitespace newlines to `acc`, and stop
/// once `acc >= need` or the stream is exhausted. Returns the token reached
/// and the newlines crossed.
pub open spec fn scan_v(toks: Seq<Token>, i: int, acc: int, need: int, down: bool) -> (int, int)
    decreases
            (if down {
                toks.len() - i
            } else {
                i
            }),
{
    if down {
        if acc >= need || i + 1 >= toks.len() {
            (i, acc)
        } else {
            scan_v(toks, i + 1, acc + tok_newlines(toks[i + 1]), need, down)
        }
    } else {
        if acc >= need || i <= 0 {
            (i, acc)
        } else {
            scan_v(toks, i - 1, acc + tok_newlines(toks[i - 1]), need, down)
        }
    }
}

pub proof fn lemma_scan_v_range(toks: Seq<Token>, i: int, acc: int, need: int, down: bool)
    requires
        0 <= i < toks.len(),
    ensures
        0 <= scan_v(toks, i, acc, need, down).0 < toks.len(),
    decreases
            (if down {
                toks.len() - i
            } else {
                i
            }),
{
    if down {
        if !(acc >= need || i + 1 >= toks.len()) {
            lemma_scan_v_range(toks, i + 1, acc + tok_newlines(toks[i + 1]), need, down);
        }
    } else {
        if !(acc >= need || i <= 0) {
            lemma_scan_v_range(toks, i - 1, acc + tok_newlines(toks[i - 1]), need, down);
        }
    }
}

/// Seek the next selectable token strictly beyond `i` in the given direction;
/// stops at the end of the stream if none exists.
pub open spec fn seek_sel(toks: Seq<Token>, i: int, down: bool) -> int
    decreases
            (if down {
                toks.len() - i
            } else {
                i
            }),
{
    if down {
        if i + 1 >= toks.len() {
            i
        } else if is_selectable(toks[i + 1].kind) {
            i + 1
        } else {
            seek_sel(toks, i + 1, down)
        }
    } else {
        if i <= 0 {
            i
        } else if is_selectable(toks[i - 1].kind) {
            i - 1
        } else {
            seek_sel(toks, i - 1, down)
        }
    }
}

/// What seeking guarantees: either the nearest selectable token beyond `i`
/// (nothing selectable lies between), or the boundary of the stream with no
/// selectable token anywhere beyond `i`.
pub proof fn lemma_seek_found(toks: Seq<Token>, i: int, down: bool)
    requires
        0 <= i < toks.len(),
    ensures
        0 <= seek_sel(toks, i, down) < toks.len(),
        is_selectable(toks[seek_sel(toks, i, down)].kind) || (down && seek_sel(toks, i, down)
            == toks.len() - 1 && (forall|k: int|
            i < k < toks.len() ==> !is_selectable(#[trigger] toks[k].kind))) || (!down && seek_sel(
            toks,
            i,
            down,
        ) == 0 && (forall|k: int| 0 <= k < i ==> !is_selectable(#[trigger] toks[k].kind))),
        down ==> i <= seek_sel(toks, i, down) && (forall|k: int|
            i < k < seek_sel(toks, i, down) ==> !is_selectable(#[trigger] toks[k].kind)),
        !down ==> seek_sel(toks, i, down) <= i && (forall|k: int|
            seek_sel(toks, i, down) < k < i ==> !is_selectable(#[trigger] toks[k].kind)),
    decreases
            (if down {
                toks.len() - i
            } else {
                i
            }),
{
    if down {
        if i + 1 < toks.len() && !is_selectable(toks[i + 1].kind) {
            lemma_seek_found(toks, i + 1, down);
        }
    } else {
        if i > 0 && !is_selectable(toks[i - 1].kind) {
            lemma_seek_found(toks, i - 1, down);
        }
    }
}

/// Backward scan for the first selectable token on the current line: visit
/// `j`, `j - 1`, ... until a newline-bearing whitespace token; each selectable
/// token visited replaces the candidate, so the last one remembered is the
/// one nearest the line start. `best` is the fallback.
pub open spec fn fsil_rec(toks: Seq<Token>, j: int, best: int) -> int
    decreases j + 1,
{
    if j < 0 {
        best
    } else if tok_newlines(toks[j]) > 0 {
        best
    } else if is_selectable(toks[j].kind) {
        fsil_rec(toks, j - 1, j)
    } else {
        fsil_rec(toks, j - 1, best)
    }
}

/// The first selectable token on the line of `i`, falling back to `i` itself.
pub open spec fn fsil_spec(toks: Seq<Token>, i: int) -> int {
    fsil_rec(toks, i - 1, i)
}

/// The nearest newline-bearing whitespace token at or before `j`, `-1` if none.
pub open spec fn nl_stop(toks: Seq<Token>, j: int) -> int
    decreases j + 1,
{
    if j < 0 {
        -1
    } else if tok_newlines(toks[j]) > 0 {
        j
    } else {
        nl_stop(toks, j - 1)
    }
}

proof fn lemma_nl_stop_props(toks: Seq<Token>, j: int)
    ensures
        -1 <= nl_stop(toks, j),
        nl_stop(toks, j) <= j || nl_stop(toks, j) == -1,
        forall|k: int| nl_stop(toks, j) < k <= j ==> tok_newlines(#[trigger] toks[k]) <= 0,
    decreases j + 1,
{
    if j >= 0 && !(tok_newlines(toks[j]) > 0) {
        lemma_nl_stop_props(toks, j - 1);
    }
}

proof fn lemma_nl_stop_shrink(toks: Seq<Token>, j: int, j2: int)
    requires
        nl_stop(toks, j) <= j2 <= j,
    ensures
        nl_stop(toks, j2) == nl_stop(toks, j),
    decreases j - j2,
{
    if j2 < j {
        if tok_newlines(toks[j]) > 0 {
            assert(nl_stop(toks, j) == j);
        } else {
            lemma_nl_stop_shrink(toks, j - 1, j2);
        }
    }
}

/// Whether `k` lies in the window the backward snap from `j` visits: after
/// the nearest line break, at or before `j`.
pub open spec fn in_snap_window(toks: Seq<Token>, j: int, k: int) -> bool {
    nl_stop(toks, j) < k <= j
}

/// Characterization of the backward snap: if the visited window holds any
/// selectable token, the result is the one nearest the line start; otherwise
/// the fallback is returned.
proof fn lemma_fsil_rec_char(toks: Seq<Token>, j: int, best: int)
    ensures
        (exists|k: int| in_snap_window(toks, j, k) && is_selectable(#[trigger] toks[k].kind)) ==> {
            let r = fsil_rec(toks, j, best);
            &&& in_snap_window(toks, j, r)
            &&& is_selectable(toks[r].kind)
            &&& forall|k: int|
                in_snap_window(toks, j, k) && is_selectable(#[trigger] toks[k].kind) ==> r <= k
        },
        !(exists|k: int| in_snap_window(toks, j, k) && is_selectable(#[trigger] toks[k].kind))
            ==> fsil_rec(toks, j, best) == best,
    decreases j + 1,
{
    if j < 0 {
    } else if tok_newlines(toks[j]) > 0 {
        assert(nl_stop(toks, j) == j);
        assert forall|k: int| !(in_snap_window(toks, j, k)) by {}
    } else if is_selectable(toks[j].kind) {
        lemma_fsil_rec_char(toks, j - 1, j);
        lemma_nl_stop_props(toks, j - 1);
        assert(nl_stop(toks, j) == nl_stop(toks, j - 1));
        assert(in_snap_window(toks, j, j));
        let r = fsil_rec(toks, j, best);
        if exists|k: int| in_snap_window(toks, j - 1, k) && is_selectable(#[trigger] toks[k].kind) {
            assert forall|k: int|
                in_snap_window(toks, j, k) && is_selectable(#[trigger] toks[k].kind) implies r
                <= k by {
                if k < j {
                    assert(in_snap_window(toks, j - 1, k));
                }
            }
        } else {
            assert(r == j);
            assert forall|k: int|
                in_snap_window(toks, j, k) && is_selectable(#[trigger] toks[k].kind) implies r
                <= k by {
                if k < j {
                    assert(in_snap_window(toks, j - 1, k));
                    assert(false);
                }
            }
        }
    } else {
        lemma_fsil_rec_char(toks, j - 1, best);
        lemma_nl_stop_props(toks, j - 1);
        assert(nl_stop(toks, j) == nl_stop(toks, j - 1));
        assert forall|k: int|
            in_snap_window(toks, j, k) && is_selectable(#[trigger] toks[k].kind) implies
            in_snap_window(toks, j - 1, k) by {}
    }
}

/// Snapping to the first selectable token on a line is idempotent.
pub proof fn lemma_snap_idempotent(toks: Seq<Token>, i: int)
    requires
        0 <= i < toks.len(),
    ensures
        fsil_spec(toks, fsil_spec(toks, i)) == fsil_spec(toks, i),
{
    let r = fsil_spec(toks, i);
    lemma_fsil_rec_char(toks, i - 1, i);
    lemma_nl_stop_props(toks, i - 1);
    if exists|k: int| in_snap_window(toks, i - 1, k) && is_selectable(#[trigger] toks[k].kind) {
        // r is the selectable token nearest the line start; scanning back
        // from r finds nothing selectable, so the fallback r wins again.
        lemma_nl_stop_shrink(toks, i - 1, r - 1);
        lemma_fsil_rec_char(toks, r - 1, r);
        if exists|k: int| in_snap_window(toks, r - 1, k) && is_selectable(#[trigger] toks[k].kind) {
            let k = choose|k: int|
                in_snap_window(toks, r - 1, k) && is_selectable(#[trigger] toks[k].kind);
            assert(in_snap_window(toks, i - 1, k));
            assert(false);
        }
    } else {
        // nothing selectable before i on its line: both snaps return i itself
        lemma_fsil_rec_char(toks, r - 1, r);
        assert(r == i);
    }
}

/// The snap never moves forward, and it keeps selectability.
pub proof fn lemma_fsil_range(toks: Seq<Token>, i: int)
    requires
        0 <= i < toks.len(),
    ensures
        0 <= fsil_spec(toks, i) <= i,
        is_selectable(toks[i].kind) ==> is_selectable(toks[fsil_spec(toks, i)].kind),
{
    lemma_fsil_rec_char(toks, i - 1, i);
    lemma_nl_stop_props(toks, i - 1);
}

/// The vertical movement policy: walk the requested number of line breaks;
/// with no break crossed, stay where the walk stopped; otherwise land on a
/// selectable token (searching onward, then backward) and snap to the first
/// selectable token of its line.
pub open spec fn nav_v_spec(toks: Seq<Token>, i: int, need: int, down: bool) -> int {
    let sel = scan_v(toks, i, 0, need, down).0;
    let acc = scan_v(toks, i, 0, need, down).1;
    if acc == 0 {
        sel
    } else if is_selectable(toks[sel].kind) {
        fsil_spec(toks, sel)
    } else {
        let s2 = seek_sel(toks, sel, down);
        let s3 = if is_selectable(toks[s2].kind) {
            s2
        } else {
            seek_sel(toks, s2, !down)
        };
        fsil_spec(toks, s3)
    }
}

/// The horizontal movement policy: step token by token, counting selectable
/// tokens, stopping at the requested count or at the first line break. Only
/// a selectable token updates the landing candidate `sel`; punctuation and
/// whitespace are merely walked across.
pub open spec fn scan_h(toks: Seq<Token>, j: int, sel: int, cnt: int, need: int, right: bool) -> (
    int,
    int,
)
    decreases
            (if right {
                toks.len() - j
            } else {
                j
            }),
{
    if right {
        if j + 1 >= toks.len() {
            (sel, cnt)
        } else if is_selectable(toks[j + 1].kind) {
            if cnt + 1 >= need {
                (j + 1, cnt + 1)
            } else {
                scan_h(toks, j + 1, j + 1, cnt + 1, need, right)
            }
        } else if tok_newlines(toks[j + 1]) > 0 {
            (sel, cnt)
        } else {
            scan_h(toks, j + 1, sel, cnt, need, right)
        }
    } else {
        if j <= 0 {
            (sel, cnt)
        } else if is_selectable(toks[j - 1].kind) {
            if cnt + 1 >= need {
                (j - 1, cnt + 1)
            } else {
                scan_h(toks, j - 1, j - 1, cnt + 1, need, right)
            }
        } else if tok_newlines(toks[j - 1]) > 0 {
            (sel, cnt)
        } else {
            scan_h(toks, j - 1, sel, cnt, need, right)
        }
    }
}

/// Horizontal movement: the last selectable token the scan counted, or the
/// original token when it counted none.
pub open spec fn nav_h_spec(toks: Seq<Token>, i: int, need: int, right: bool) -> int {
    let sel = scan_h(toks, i, i, 0, need, right).0;
    let cnt = scan_h(toks, i, i, 0, need, right).1;
    if cnt == 0 {
        i
    } else {
        sel
    }
}

/// The horizontal scan never crosses a line break: everything it lands on is
/// on the line it started from.
proof fn lemma_scan_h_line(toks: Seq<Token>, j: int, sel: int, cnt: int, need: int, right: bool)
    requires
        0 <= j < toks.len(),
        0 <= sel < toks.len(),
        right ==> tok_newlines(toks[j]) == 0,
        line_of(toks, sel) == line_of(toks, j),
    ensures
        line_of(toks, scan_h(toks, j, sel, cnt, need, right).0) == line_of(toks, j),
    decreases
            (if right {
                toks.len() - j
            } else {
                j
            }),
{
    if right {
        if j + 1 < toks.len() {
            assert(line_of(toks, j + 1) == line_of(toks, j) + tok_newlines(toks[j]));
            if is_selectable(toks[j + 1].kind) {
                if cnt + 1 < need {
                    lemma_scan_h_line(toks, j + 1, j + 1, cnt + 1, need, right);
                }
            } else if tok_newlines(toks[j + 1]) == 0 {
                lemma_scan_h_line(toks, j + 1, sel, cnt, need, right);
            } else {
                lemma_count_newlines_nonneg(toks[j + 1].text@);
            }
        }
    } else {
        if j > 0 {
            if is_selectable(toks[j - 1].kind) {
                assert(tok_newlines(toks[j - 1]) == 0);
                assert(line_of(toks, j) == line_of(toks, j - 1) + tok_newlines(toks[j - 1]));
                if cnt + 1 < need {
                    lemma_scan_h_line(toks, j - 1, j - 1, cnt + 1, need, right);
                }
            } else if tok_newlines(toks[j - 1]) == 0 {
                assert(line_of(toks, j) == line_of(toks, j - 1) + tok_newlines(toks[j - 1]));
                lemma_scan_h_line(toks, j - 1, sel, cnt, need, right);
            } else {
                lemma_count_newlines_nonneg(toks[j - 1].text@);
            }
        }
    }
}

/// Horizontal containment: moving left or right from a selectable token
/// either returns the original token or stays on the original token's line.
pub proof fn lemma_horizontal_containment(toks: Seq<Token>, i: int, need: int, right: bool)
    requires
        0 <= i < toks.len(),
        is_selectable(toks[i].kind),
    ensures
        nav_h_spec(toks, i, need, right) == i || line_of(toks, nav_h_spec(toks, i, need, right))
            == line_of(toks, i),
{
    lemma_scan_h_line(toks, i, i, 0, need, right);
}

/// Whatever the horizontal scan returns with a positive count is selectable.
proof fn lemma_scan_h_selectable(toks: Seq<Token>, j: int, sel: int, cnt: int, need: int, right: bool)
    requires
        0 <= j < toks.len(),
        0 <= sel < toks.len(),
        cnt > 0 ==> is_selectable(toks[sel].kind),
    ensures
        scan_h(toks, j, sel, cnt, need, right).1 >= cnt,
        scan_h(toks, j, sel, cnt, need, right).1 > 0 ==> is_selectable(
            toks[scan_h(toks, j, sel, cnt, need, right).0].kind,
        ),
    decreases
            (if right {
                toks.len() - j
            } else {
                j
            }),
{
    if right {
        if j + 1 < toks.len() {
            if is_selectable(toks[j + 1].kind) {
                if cnt + 1 < need {
                    lemma_scan_h_selectable(toks, j + 1, j + 1, cnt + 1, need, right);
                }
            } else if !(tok_newlines(toks[j + 1]) > 0) {
                lemma_scan_h_selectable(toks, j + 1, sel, cnt, need, right);
            }
        }
    } else {
        if j > 0 {
            if is_selectable(toks[j - 1].kind) {
                if cnt + 1 < need {
                    lemma_scan_h_selectable(toks, j - 1, j - 1, cnt + 1, need, right);
                }
            } else if !(tok_newlines(toks[j - 1]) > 0) {
                lemma_scan_h_selectable(toks, j - 1, sel, cnt, need, right);
            }
        }
    }
}

/// Horizontal selectability: a horizontal move that leaves the input token
/// always lands on a selectable token.
pub proof fn lemma_horizontal_selectability(toks: Seq<Token>, i: int, need: int, right: bool)
    requires
        0 <= i < toks.len(),
    ensures
        nav_h_spec(toks, i, need, right) == i || is_selectable(
            toks[nav_h_spec(toks, i, need, right)].kind,
        ),
{
    lemma_scan_h_selectable(toks, i, i, 0, need, right);
}

/// At least one selectable token exists somewhere in the stream.
pub open spec fn has_selectable(toks: Seq<Token>) -> bool {
    exists|j: int| 0 <= j < toks.len() && is_selectable(#[trigger] toks[j].kind)
}

/// Vertical selectability: whenever the vertical walk actually crossed a line
/// break, and the document has any selectable token at all, the landing token
/// is selectable.
pub proof fn lemma_vertical_selectability(toks: Seq<Token>, i: int, need: int, down: bool)
    requires
        0 <= i < toks.len(),
        has_selectable(toks),
        scan_v(toks, i, 0, need, down).1 != 0,
    ensures
        is_selectable(toks[nav_v_spec(toks, i, need, down)].kind),
{
    let sel = scan_v(toks, i, 0, need, down).0;
    lemma_scan_v_range(toks, i, 0, need, down);
    if is_selectable(toks[sel].kind) {
        lemma_fsil_range(toks, sel);
    } else {
        let s2 = seek_sel(toks, sel, down);
        lemma_seek_found(toks, sel, down);
        if is_selectable(toks[s2].kind) {
            lemma_fsil_range(toks, s2);
        } else {
            let s3 = seek_sel(toks, s2, !down);
            lemma_seek_found(toks, s2, !down);
            if !is_selectable(toks[s3].kind) {
                let w = choose|w: int| 0 <= w < toks.len() && is_selectable(#[trigger] toks[w].kind);
                assert(false);
            }
            lemma_fsil_range(toks, s3);
        }
    }
}

/// Non-selectable landing: when the vertical walk crossed a line break but
/// stopped on a non-selectable token, and a selectable token exists onward
/// in the walk's direction, the movement continues to the nearest such
/// token and snaps it to the first selectable token of its line.
pub proof fn lemma_nonselectable_landing(toks: Seq<Token>, i: int, need: int, down: bool)
    requires
        0 <= i < toks.len(),
        scan_v(toks, i, 0, need, down).1 != 0,
        !is_selectable(toks[scan_v(toks, i, 0, need, down).0].kind),
        down ==> exists|k: int|
            scan_v(toks, i, 0, need, down).0 < k < toks.len() && is_selectable(
                #[trigger] toks[k].kind,
            ),
        !down ==> exists|k: int|
            0 <= k < scan_v(toks, i, 0, need, down).0 && is_selectable(#[trigger] toks[k].kind),
    ensures
        ({
            let sel = scan_v(toks, i, 0, need, down).0;
            let s2 = seek_sel(toks, sel, down);
            &&& is_selectable(toks[s2].kind)
            &&& (down ==> sel < s2 && (forall|k: int|
                sel < k < s2 ==> !is_selectable(#[trigger] toks[k].kind)))
            &&& (!down ==> s2 < sel && (forall|k: int|
                s2 < k < sel ==> !is_selectable(#[trigger] toks[k].kind)))
            &&& nav_v_spec(toks, i, need, down) == fsil_spec(toks, s2)
        }),
{
    let sel = scan_v(toks, i, 0, need, down).0;
    lemma_scan_v_range(toks, i, 0, need, down);
    let s2 = seek_sel(toks, sel, down);
    lemma_seek_found(toks, sel, down);
    if down {
        if !is_selectable(toks[s2].kind) {
            let w = choose|w: int|
                sel < w < toks.len() && is_selectable(#[trigger] toks[w].kind);
            assert(false);
        }
    } else {
        if !is_selectable(toks[s2].kind) {
            let w = choose|w: int| 0 <= w < sel && is_selectable(#[trigger] toks[w].kind);
            assert(false);
        }
    }
}

impl SyntaxTree {
    /// The first selectable token on the line of `token`, or `token` itself
    /// when the line holds no earlier selectable token.
    pub fn first_selectable_in_line(&self, token: usize) -> (r: usize)
        requires
            self.wf(),
            token < self.tokens@.len(),
        ensures
            r == fsil_spec(self.tokens@, token as int),
            r <= token,
    {
        let ghost toks = self.tokens@;
        let mut best: usize = token;
        let mut j: usize = token;
        while j > 0
            invariant
                self.wf(),
                toks == self.tokens@,
                best <= token < toks.len(),
                j <= token,
                fsil_spec(toks, token as int) == fsil_rec(toks, j - 1, best as int),
            decreases j,
        {
            let k = j - 1;
            let nl = tok_newlines_of(&self.tokens[k]);
            if nl > 0 {
                return best;
            }
            if selectable_kind(self.tokens[k].kind) {
                best = k;
            }
            j = k;
        }
        best
    }

    /// Vertical movement (`down` chooses the walk direction).
    fn selectable_y(&self, token: usize, need: usize, down: bool) -> (r: usize)
        requires
            self.wf(),
            token < self.tokens@.len(),
        ensures
            r == nav_v_spec(self.tokens@, token as int, need as int, down),
            r < self.tokens@.len(),
    {
        let ghost toks = self.tokens@;
        let n = self.tokens.len();
        let mut sel: usize = token;
        let mut acc: usize = 0;
        proof {
            lemma_line_of_le_len(toks, toks.len() as int);
            lemma_line_of_mono(toks, 0, token as int);
            lemma_line_of_mono(toks, token as int, token + 1);
        }
        loop
            invariant
                self.wf(),
                toks == self.tokens@,
                n == toks.len(),
                sel < n,
                token < n,
                scan_v(toks, token as int, 0, need as int, down) == scan_v(
                    toks,
                    sel as int,
                    acc as int,
                    need as int,
                    down,
                ),
                down ==> acc == line_of(toks, sel + 1) - line_of(toks, token + 1),
                !down ==> acc == line_of(toks, token as int) - line_of(toks, sel as int),
            ensures
                sel < n,
                scan_v(toks, token as int, 0, need as int, down) == (sel as int, acc as int),
            decreases
                    (if down {
                        n - sel
                    } else {
                        sel as int
                    }),
        {
            if acc >= need {
                break;
            }
            if down {
                if sel + 1 >= n {
                    break;
                }
            } else {
                if sel == 0 {
                    break;
                }
            }
            let nx = if down {
                sel + 1
            } else {
                sel - 1
            };
            let nl = tok_newlines_of(&self.tokens[nx]);
            proof {
                lemma_line_of_le_len(toks, toks.len() as int);
                if down {
                    assert(line_of(toks, nx + 2) == line_of(toks, nx + 1) + tok_newlines(
                        toks[nx + 1],
                    ));
                    assert(line_of(toks, sel + 2) == line_of(toks, sel + 1) + tok_newlines(
                        toks[sel + 1],
                    ));
                    lemma_line_of_mono(toks, sel + 2, toks.len() as int);
                    lemma_line_of_mono(toks, 0, token + 1);
                } else {
                    assert(line_of(toks, sel as int) == line_of(toks, sel - 1) + tok_newlines(
                        toks[sel - 1],
                    ));
                    lemma_line_of_mono(toks, token as int, toks.len() as int);
                    lemma_line_of_mono(toks, 0, nx as int);
                }
            }
            acc = acc + nl;
            sel = nx;
        }
        if acc == 0 {
            return sel;
        }
        if selectable_kind(self.tokens[sel].kind) {
            return self.first_selectable_in_line(sel);
        }
        // keep going in the same direction until something selectable turns up
        let ghost sel_after_scan = sel as int;
        let mut s2: usize = sel;
        loop
            invariant_except_break
                seek_sel(toks, sel_after_scan, down) == seek_sel(toks, s2 as int, down),
            invariant
                self.wf(),
                toks == self.tokens@,
                n == toks.len(),
                s2 < n,
            ensures
                s2 < n,
                seek_sel(toks, sel_after_scan, down) == s2 as int,
            decreases
                    (if down {
                        n - s2
                    } else {
                        s2 as int
                    }),
        {
            if down {
                if s2 + 1 >= n {
                    break;
                }
            } else {
                if s2 == 0 {
                    break;
                }
            }
            let nx = if down {
                s2 + 1
            } else {
                s2 - 1
            };
            if selectable_kind(self.tokens[nx].kind) {
                s2 = nx;
                break;
            }
            s2 = nx;
        }
        // ran off the end: turn around and look the other way
        let mut s3: usize = s2;
        if !selectable_kind(self.tokens[s2].kind) {
            let ghost s2_g = s2 as int;
            loop
                invariant_except_break
                    seek_sel(toks, s2_g, !down) == seek_sel(toks, s3 as int, !down),
                invariant
                    self.wf(),
                    toks == self.tokens@,
                    n == toks.len(),
                    s3 < n,
                ensures
                    s3 < n,
                    seek_sel(toks, s2_g, !down) == s3 as int,
                decreases
                        (if !down {
                            n - s3
                        } else {
                            s3 as int
                        }),
            {
                if !down {
                    if s3 + 1 >= n {
                        break;
                    }
                } else {
                    if s3 == 0 {
                        break;
                    }
                }
                let nx = if !down {
                    s3 + 1
                } else {
                    s3 - 1
                };
                if selectable_kind(self.tokens[nx].kind) {
                    s3 = nx;
                    break;
                }
                s3 = nx;
            }
        }
        self.first_selectable_in_line(s3)
    }

    /// Horizontal movement (`right` chooses the walk direction).
    fn selectable_x(&self, token: usize, need: usize, right: bool) -> (r: usize)
        requires
            self.wf(),
            token < self.tokens@.len(),
            need >= 1,
        ensures
            r == nav_h_spec(self.tokens@, token as int, need as int, right),
            r < self.tokens@.len(),
    {
        let ghost toks = self.tokens@;
        let n = self.tokens.len();
        let mut j: usize = token;
        let mut sel: usize = token;
        let mut cnt: usize = 0;
        loop
            invariant_except_break
                cnt < need,
                scan_h(toks, token as int, token as int, 0, need as int, right) == scan_h(
                    toks,
                    j as int,
                    sel as int,
                    cnt as int,
                    need as int,
                    right,
                ),
            invariant
                self.wf(),
                toks == self.tokens@,
                n == toks.len(),
                j < n,
                sel < n,
            ensures
                sel < n,
                scan_h(toks, token as int, token as int, 0, need as int, right) == (
                    sel as int,
                    cnt as int,
                ),
            decreases
                    (if right {
                        n - j
                    } else {
                        j as int
                    }),
        {
            if right {
                if j + 1 >= n {
                    break;
                }
            } else {
                if j == 0 {
                    break;
                }
            }
            let nx = if right {
                j + 1
            } else {
                j - 1
            };
            if selectable_kind(self.tokens[nx].kind) {
                sel = nx;
                cnt = cnt + 1;
                if cnt >= need {
                    j = nx;
                    break;
                }
            } else {
                let nl = tok_newlines_of(&self.tokens[nx]);
                if nl > 0 {
                    break;
                }
            }
            j = nx;
        }
        if cnt == 0 {
            return token;
        }
        sel
    }

    /// Moves the cursor from `token` one command's worth in `dir`, landing on
    /// the token the movement policy chooses. A zero step count returns the
    /// original token.
    pub fn selectable_token_in_direction(&self, token: usize, dir: &Direction) -> (r: usize)
        requires
            self.wf(),
            token < self.tokens@.len(),
        ensures
            r == navigate_spec(self.tokens@, token as int, *dir),
            r < self.tokens@.len(),
            dir_count(*dir) == 0 ==> r == token,
            (*dir is Left || *dir is Right) && is_selectable(self.tokens@[token as int].kind)
                ==> (r == token || line_of(self.tokens@, r as int) == line_of(
                self.tokens@,
                token as int,
            )),
            (*dir is Left || *dir is Right) ==> (r == token || is_selectable(
                self.tokens@[r as int].kind,
            )),
            (*dir is Up || *dir is Down) && dir_count(*dir) != 0 && has_selectable(self.tokens@)
                && scan_v(self.tokens@, token as int, 0, dir_count(*dir), *dir is Down).1 != 0
                ==> is_selectable(self.tokens@[r as int].kind),
    {
        proof {
            if (*dir is Left || *dir is Right) && is_selectable(self.tokens@[token as int].kind)
                && dir_count(*dir) != 0 {
                lemma_horizontal_containment(
                    self.tokens@,
                    token as int,
                    dir_count(*dir),
                    *dir is Right,
                );
            }
            if (*dir is Left || *dir is Right) && dir_count(*dir) != 0 {
                lemma_horizontal_selectability(
                    self.tokens@,
                    token as int,
                    dir_count(*dir),
                    *dir is Right,
                );
            }
            if (*dir is Up || *dir is Down) && dir_count(*dir) != 0 && has_selectable(
                self.tokens@,
            ) && scan_v(self.tokens@, token as int, 0, dir_count(*dir), *dir is Down).1 != 0 {
                lemma_vertical_selectability(
                    self.tokens@,
                    token as int,
                    dir_count(*dir),
                    *dir is Down,
                );
            }
        }
        match dir {
            Direction::Up(n) => {
                if *n == 0 {
                    token
                } else {
                    self.selectable_y(token, *n, false)
                }
            },
            Direction::Down(n) => {
                if *n == 0 {
                    token
                } else {
                    self.selectable_y(token, *n, true)
                }
            },
            Direction::Left(n) => {
                if *n == 0 {
                    token
                } else {
                    self.selectable_x(token, *n, false)
                }
            },
            Direction::Right(n) => {
                if *n == 0 {
                    token
                } else {
                    self.selectable_x(token, *n, true)
                }
            },
        }
    }
}

/// Where a movement command lands: the identity for a zero count, otherwise
/// the vertical or horizontal policy.
pub open spec fn navigate_spec(toks: Seq<Token>, i: int, dir: Direction) -> int {
    match dir {
        Direction::Up(n) => if n == 0 {
            i
        } else {
            nav_v_spec(toks, i, n as int, false)
        },
        Direction::Down(n) => if n == 0 {
            i
        } else {
            nav_v_spec(toks, i, n as int, true)
        },
        Direction::Left(n) => if n == 0 {
            i
        } else {
            nav_h_spec(toks, i, n as int, false)
        },
        Direction::Right(n) => if n == 0 {
            i
        } else {
            nav_h_spec(toks, i, n as int, true)
        },
    }
}


/// The first token at or after index `j` that starts on line `line` (or the
/// last token, when the document ends first).
pub open spec fn line_start_tok(toks: Seq<Token>, line: int, j: int) -> int
    decreases toks.len() - j,
{
    if j + 1 >= toks.len() {
        j
    } else if line_of(toks, j) >= line {
        j
    } else {
        line_start_tok(toks, line, j + 1)
    }
}

/// Where the re-anchor lookup lands: from the target line's first token,
/// the token itself when selectable, else the next selectable token onward,
/// else the nearest selectable token backward.
pub open spec fn fsal_landing(toks: Seq<Token>, line: int) -> int {
    let start = line_start_tok(toks, line, 0);
    let s2 = seek_sel(toks, start, true);
    if is_selectable(toks[start].kind) {
        start
    } else if is_selectable(toks[s2].kind) {
        s2
    } else {
        seek_sel(toks, s2, false)
    }
}

impl SyntaxTree {
    /// The cursor re-anchor lookup: scan forward to the first token starting
    /// on the target line, then forward to the first selectable token,
    /// falling back to a backward scan when the end of the document is
    /// reached; `None` only when the document has no selectable token.
    pub fn first_selectable_at_line(&self, line: usize) -> (r: Option<usize>)
        requires
            self.wf(),
        ensures
            match r {
                Some(k) => k < self.tokens@.len() && is_selectable(self.tokens@[k as int].kind)
                    && k == fsal_landing(self.tokens@, line as int),
                None => !has_selectable(self.tokens@),
            },
            has_selectable(self.tokens@) ==> r is Some,
    {
        let ghost toks = self.tokens@;
        let n = self.tokens.len();
        if n == 0 {
            proof {
                assert(!has_selectable(toks));
            }
            return None;
        }
        // forward to the first token starting on the target line
        let mut cur: usize = 0;
        let mut acc: usize = 0;
        proof {
            lemma_line_of_le_len(toks, toks.len() as int);
        }
        while cur + 1 < n && acc < line
            invariant
                self.wf(),
                toks == self.tokens@,
                n == toks.len(),
                cur < n,
                acc == line_of(toks, cur as int),
                line_start_tok(toks, line as int, 0) == line_start_tok(
                    toks,
                    line as int,
                    cur as int,
                ),
            decreases n - cur,
        {
            let nl = tok_newlines_of(&self.tokens[cur]);
            proof {
                assert(line_of(toks, cur + 1) == line_of(toks, cur as int) + tok_newlines(
                    toks[cur as int],
                ));
                lemma_line_of_mono(toks, cur + 1, toks.len() as int);
                lemma_line_of_mono(toks, 0, cur as int);
                lemma_line_of_le_len(toks, toks.len() as int);
            }
            acc = acc + nl;
            cur = cur + 1;
        }
        proof {
            assert(line_start_tok(toks, line as int, 0) == cur as int);
        }
        if selectable_kind(self.tokens[cur].kind) {
            return Some(cur);
        }
        // forward to the first selectable token
        let ghost cur_g = cur as int;
        let mut s2: usize = cur;
        loop
            invariant_except_break
                seek_sel(toks, cur_g, true) == seek_sel(toks, s2 as int, true),
            invariant
                self.wf(),
                toks == self.tokens@,
                n == toks.len(),
                s2 < n,
            ensures
                s2 < n,
                seek_sel(toks, cur_g, true) == s2 as int,
            decreases n - s2,
        {
            if s2 + 1 >= n {
                break;
            }
            if selectable_kind(self.tokens[s2 + 1].kind) {
                s2 = s2 + 1;
                break;
            }
            s2 = s2 + 1;
        }
        proof {
            lemma_seek_found(toks, cur_g, true);
        }
        if selectable_kind(self.tokens[s2].kind) {
            return Some(s2);
        }
        // end of file reached: scan backward instead
        let ghost s2_g = s2 as int;
        let mut s3: usize = s2;
        loop
            invariant_except_break
                seek_sel(toks, s2_g, false) == seek_sel(toks, s3 as int, false),
            invariant
                self.wf(),
                toks == self.tokens@,
                n == toks.len(),
                s3 < n,
            ensures
                s3 < n,
                seek_sel(toks, s2_g, false) == s3 as int,
            decreases s3,
        {
            if s3 == 0 {
                break;
            }
            if selectable_kind(self.tokens[s3 - 1].kind) {
                s3 = s3 - 1;
                break;
            }
            s3 = s3 - 1;
        }
        proof {
            lemma_seek_found(toks, s2_g, false);
        }
        if selectable_kind(self.tokens[s3].kind) {
            return Some(s3);
        }
        proof {
            assert(!has_selectable(toks));
        }
        None
    }
}

/// Zero movement is the identity in every direction.
pub proof fn lemma_zero_movement_identity(toks: Seq<Token>, i: int, dir: Direction)
    requires
        dir_count(dir) == 0,
    ensures
        navigate_spec(toks, i, dir) == i,
{
}

} // verus!
