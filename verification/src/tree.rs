//! The syntax tree: an arena of nodes and tokens.
//!
//! Tokens are stored in stream order; concatenating their texts reproduces the
//! document text exactly. Nodes carry only a kind and a parent link, and every
//! parent precedes its children in the arena, so ancestor walks terminate.
//! Offsets into the document are character offsets into that concatenation.

use vstd::prelude::*;

verus! {

/// Kinds of leaf tokens.
#[derive(Clone, Copy, PartialEq, Eq, Structural, Debug)]
pub enum TokenKind {
    Whitespace,
    Comment,
    PlainScalar,
    SingleQuotedScalar,
    DoubleQuotedScalar,
    BlockScalarText,
    Colon,
    Minus,
    Other,
}

/// Kinds of interior nodes.
#[derive(Clone, Copy, PartialEq, Eq, Structural, Debug)]
pub enum NodeKind {
    Root,
    Document,
    BlockMap,
    BlockMapKey,
    BlockMapValue,
    BlockSeq,
    Flow,
    Other,
}

/// A leaf: its kind, its literal text, and the index of its parent node.
pub struct Token {
    pub kind: TokenKind,
    pub text: Vec<char>,
    pub parent: Option<usize>,
}

/// An interior node: its kind and the index of its parent node.
pub struct Node {
    pub kind: NodeKind,
    pub parent: Option<usize>,
}

/// The tree itself. `tokens` is the full token stream in document order.
pub struct SyntaxTree {
    pub nodes: Vec<Node>,
    pub tokens: Vec<Token>,
}

/// True for the token kinds that are valid cursor stops: scalars and comments.
pub open spec fn is_selectable(kind: TokenKind) -> bool {
    match kind {
        TokenKind::Comment => true,
        TokenKind::PlainScalar => true,
        TokenKind::SingleQuotedScalar => true,
        TokenKind::DoubleQuotedScalar => true,
        TokenKind::BlockScalarText => true,
        _ => false,
    }
}

/// Executable form of the selectable-kind predicate.
pub fn selectable_kind(kind: TokenKind) -> (r: bool)
    ensures
        r == is_selectable(kind),
{
    match kind {
        TokenKind::Comment => true,
        TokenKind::PlainScalar => true,
        TokenKind::SingleQuotedScalar => true,
        TokenKind::DoubleQuotedScalar => true,
        TokenKind::BlockScalarText => true,
        _ => false,
    }
}

/// Number of newline characters in `s`.
pub open spec fn count_newlines(s: Seq<char>) -> int
    decreases s.len(),
{
    if s.len() == 0 {
        0
    } else {
        count_newlines(s.drop_last()) + (if s.last() == '\n' { 1int } else { 0int })
    }
}

pub proof fn lemma_count_newlines_nonneg(s: Seq<char>)
    ensures
        0 <= count_newlines(s) <= s.len(),
    decreases s.len(),
{
    if s.len() > 0 {
        lemma_count_newlines_nonneg(s.drop_last());
    }
}

/// Newlines a token contributes to line counting: only whitespace tokens
/// carry line breaks in a well-formed document.
pub open spec fn tok_newlines(t: Token) -> int {
    if t.kind is Whitespace {
        count_newlines(t.text@)
    } else {
        0
    }
}

/// The concatenation of the texts of the first `i` tokens.
pub open spec fn text_up_to(toks: Seq<Token>, i: int) -> Seq<char>
    decreases i,
{
    if i <= 0 {
        Seq::empty()
    } else {
        text_up_to(toks, i - 1) + toks[i - 1].text@
    }
}

/// The line a token starts on: total newlines contributed by earlier tokens.
pub open spec fn line_of(toks: Seq<Token>, j: int) -> int
    decreases j,
{
    if j <= 0 {
        0
    } else {
        line_of(toks, j - 1) + tok_newlines(toks[j - 1])
    }
}

impl Token {
    pub open spec fn wf(self, nodes: Seq<Node>) -> bool {
        &&& match self.parent {
            Some(p) => p < nodes.len(),
            None => true,
        }
        &&& self.text@.len() >= 1
    }
}

impl SyntaxTree {
    /// The document text: every token's text concatenated in stream order.
    pub open spec fn full_text(self) -> Seq<char> {
        text_up_to(self.tokens@, self.tokens@.len() as int)
    }

    /// Well-formedness: parent indices are in range, parents precede their
    /// children in the arena, tokens are non-empty, and the whole text fits
    /// in a machine length.
    pub open spec fn wf(self) -> bool {
        &&& forall|i: int|
            0 <= i < self.tokens@.len() ==> (#[trigger] self.tokens@[i]).wf(self.nodes@)
        &&& forall|i: int|
            0 <= i < self.nodes@.len() ==> match (#[trigger] self.nodes@[i]).parent {
                Some(p) => p < i,
                None => true,
            }
        &&& self.full_text().len() < usize::MAX
    }

    /// Runtime check of `wf`, for callers that build a tree from outside data.
    pub fn is_well_formed(&self) -> (r: bool)
        ensures
            r == self.wf(),
    {
        let n_nodes = self.nodes.len();
        for i in 0..self.nodes.len()
            invariant
                n_nodes == self.nodes@.len(),
                forall|k: int|
                    0 <= k < i ==> match (#[trigger] self.nodes@[k]).parent {
                        Some(p) => p < k,
                        None => true,
                    },
        {
            match self.nodes[i].parent {
                Some(p) => {
                    if p >= i {
                        return false;
                    }
                },
                None => {},
            }
        }
        let mut total: usize = 0;
        for i in 0..self.tokens.len()
            invariant
                n_nodes == self.nodes@.len(),
                forall|k: int|
                    0 <= k < self.nodes@.len() ==> match (#[trigger] self.nodes@[k]).parent {
                        Some(p) => p < k,
                        None => true,
                    },
                forall|k: int|
                    0 <= k < i ==> (#[trigger] self.tokens@[k]).wf(self.nodes@),
                total == text_up_to(self.tokens@, i as int).len(),
                total < usize::MAX,
        {
            match self.tokens[i].parent {
                Some(p) => {
                    if p >= self.nodes.len() {
                        return false;
                    }
                },
                None => {},
            }
            let tlen = self.tokens[i].text.len();
            if tlen < 1 {
                return false;
            }
            if tlen >= usize::MAX - total {
                proof {
                    assert(text_up_to(self.tokens@, i + 1) =~= text_up_to(self.tokens@, i as int)
                        + self.tokens@[i as int].text@);
                    lemma_text_up_to_len_mono(
                        self.tokens@,
                        i as int + 1,
                        self.tokens@.len() as int,
                    );
                }
                return false;
            }
            proof {
                assert(text_up_to(self.tokens@, i + 1) =~= text_up_to(self.tokens@, i as int)
                    + self.tokens@[i as int].text@);
            }
            total = total + tlen;
        }
        true
    }

    /// The character offset of a token's first character: the length of the
    /// text of everything before it.
    pub fn token_start(&self, token: usize) -> (r: usize)
        requires
            self.wf(),
            token <= self.tokens@.len(),
        ensures
            r == text_up_to(self.tokens@, token as int).len(),
    {
        let mut total: usize = 0;
        for i in 0..token
            invariant
                self.wf(),
                token <= self.tokens@.len(),
                total == text_up_to(self.tokens@, i as int).len(),
        {
            proof {
                assert(text_up_to(self.tokens@, i + 1) =~= text_up_to(self.tokens@, i as int)
                    + self.tokens@[i as int].text@);
                lemma_text_up_to_len_mono(self.tokens@, i + 1, self.tokens@.len() as int);
            }
            total = total + self.tokens[i].text.len();
        }
        total
    }

    /// Serializes the tree back to its exact source text.
    pub fn to_text(&self) -> (r: String)
        requires
            self.wf(),
        ensures
            r@ == self.full_text(),
    {
        let mut chars: Vec<char> = Vec::new();
        let ghost toks = self.tokens@;
        for i in 0..self.tokens.len()
            invariant
                toks == self.tokens@,
                self.wf(),
                chars@ == text_up_to(toks, i as int),
        {
            let t = &self.tokens[i];
            for j in 0..t.text.len()
                invariant
                    toks == self.tokens@,
                    t == self.tokens@[i as int],
                    chars@ == text_up_to(toks, i as int) + t.text@.take(j as int),
            {
                chars.push(t.text[j]);
                proof {
                    assert(t.text@.take(j + 1) =~= t.text@.take(j as int).push(t.text@[j as int]));
                    assert(chars@ =~= text_up_to(toks, i as int) + t.text@.take(j + 1));
                }
            }
            proof {
                assert(t.text@.take(t.text@.len() as int) =~= t.text@);
                assert(chars@ =~= text_up_to(toks, i as int + 1));
            }
        }
        chars_to_string(&chars)
    }
}

/// Lengths of text prefixes grow with the prefix.
pub proof fn lemma_text_up_to_len_mono(toks: Seq<Token>, i: int, j: int)
    requires
        i <= j,
    ensures
        text_up_to(toks, i).len() <= text_up_to(toks, j).len(),
    decreases j - i,
{
    if i < j {
        lemma_text_up_to_len_mono(toks, i, j - 1);
    }
}

/// Relies on `String: FromIterator<char>`: collecting characters yields the
/// string holding exactly those characters in order.
#[verifier::external_body]
pub(crate) fn chars_to_string(v: &Vec<char>) -> (r: String)
    ensures
        r@ == v@,
{
    v.iter().collect()
}

} // verus!
