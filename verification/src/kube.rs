//! The metadata extractor: reads `kind` and `apiVersion` off the enclosing
//! document's top-level mapping.
//!
//! From a starting token it walks parent links to the enclosing Document
//! node, requires the document's value to be a block mapping (one nested
//! under a sequence does not count), collects the mapping's direct entries,
//! and reads the two named fields; duplicate keys resolve to the last entry,
//! as a map built by insertion would.

use vstd::prelude::*;

use crate::api::{api_group_matches, ApiGroup};
use crate::tree::{chars_to_string, Node, NodeKind, SyntaxTree};

verus! {

/// Why metadata extraction failed.
#[derive(Clone, Copy, PartialEq, Eq, Structural, Debug)]
pub enum KubeDetailsError {
    NoSyntaxNodeParent,
    RootNodeNotDocument,
    DocumentIsNotBlockMap,
    DocumentMissingKindOrApiVersion,
}

impl KubeDetailsError {
    /// A short description of the failure.
    pub fn message(&self) -> (r: &str)
        ensures
            match self {
                KubeDetailsError::NoSyntaxNodeParent => r@
                    == "Syntax token has no parent syntax node."@,
                KubeDetailsError::RootNodeNotDocument => r@
                    == "Root syntax node is not a document."@,
                KubeDetailsError::DocumentIsNotBlockMap => r@
                    == "Document node is not a block map."@,
                KubeDetailsError::DocumentMissingKindOrApiVersion => r@
                    == "Document is missing either `kind` or `apiVersion` fields."@,
            },
    {
        match self {
            KubeDetailsError::NoSyntaxNodeParent => "Syntax token has no parent syntax node.",
            KubeDetailsError::RootNodeNotDocument => "Root syntax node is not a document.",
            KubeDetailsError::DocumentIsNotBlockMap => "Document node is not a block map.",
            KubeDetailsError::DocumentMissingKindOrApiVersion => {
                "Document is missing either `kind` or `apiVersion` fields."
            },
        }
    }
}

/// The two fields a Kubernetes manifest names at top level.
#[derive(Debug, Clone)]
pub struct KubeDetails {
    pub kind: String,
    pub api_version: ApiGroup,
}

/// The key the kind field is stored under.
pub open spec fn kind_name() -> Seq<char> {
    seq!['k', 'i', 'n', 'd']
}

/// The key the API version field is stored under.
pub open spec fn api_version_name() -> Seq<char> {
    seq!['a', 'p', 'i', 'V', 'e', 'r', 's', 'i', 'o', 'n']
}

/// The nearest ancestor of node `i` (inclusive) of Document kind; `-1` when
/// the root is reached first.
pub open spec fn doc_ancestor(nodes: Seq<Node>, i: int) -> int
    decreases i,
{
    if !(0 <= i < nodes.len()) {
        -1
    } else if nodes[i].kind is Document {
        i
    } else {
        match nodes[i].parent {
            Some(p) => if p < i {
                doc_ancestor(nodes, p as int)
            } else {
                -1
            },
            None => -1,
        }
    }
}

/// The nearest ancestor of node `i` (inclusive) that is a Document, a block
/// mapping or a block sequence; `-1` when there is none. Sequences are
/// boundaries too: a mapping nested inside a sequence entry belongs to the
/// sequence, never directly to the document.
pub open spec fn boundary_above(nodes: Seq<Node>, i: int) -> int
    decreases i,
{
    if !(0 <= i < nodes.len()) {
        -1
    } else if nodes[i].kind is Document || nodes[i].kind is BlockMap || nodes[i].kind
        is BlockSeq {
        i
    } else {
        match nodes[i].parent {
            Some(p) => if p < i {
                boundary_above(nodes, p as int)
            } else {
                -1
            },
            None => -1,
        }
    }
}

/// The boundary strictly above node `i`: where walking from `i`'s parent
/// first meets a Document, block mapping or block sequence.
pub open spec fn owner_of(nodes: Seq<Node>, i: int) -> int {
    if !(0 <= i < nodes.len()) {
        -1
    } else {
        match nodes[i].parent {
            Some(p) => if p < i {
                boundary_above(nodes, p as int)
            } else {
                -1
            },
            None => -1,
        }
    }
}

/// Whether node `nd` lies on the (inclusive) ancestor chain of node `i`.
pub open spec fn in_subtree(nodes: Seq<Node>, i: int, nd: int) -> bool
    decreases i,
{
    if !(0 <= i < nodes.len()) {
        false
    } else if i == nd {
        true
    } else {
        match nodes[i].parent {
            Some(p) => if p < i {
                in_subtree(nodes, p as int, nd)
            } else {
                false
            },
            None => false,
        }
    }
}

/// Whether token `t` sits under node `nd`.
pub open spec fn tok_in_node(tree: SyntaxTree, t: int, nd: int) -> bool {
    match tree.tokens@[t].parent {
        Some(p) => in_subtree(tree.nodes@, p as int, nd),
        None => false,
    }
}

/// The text of node `nd`: its tokens' texts concatenated in stream order,
/// over the first `i` tokens.
pub open spec fn node_text_up_to(tree: SyntaxTree, nd: int, i: int) -> Seq<char>
    decreases i,
{
    if i <= 0 {
        Seq::empty()
    } else {
        node_text_up_to(tree, nd, i - 1) + (if tok_in_node(tree, i - 1, nd) {
            tree.tokens@[i - 1].text@
        } else {
            Seq::empty()
        })
    }
}

/// The full text of node `nd`.
pub open spec fn node_text_of(tree: SyntaxTree, nd: int) -> Seq<char> {
    node_text_up_to(tree, nd, tree.tokens@.len() as int)
}

/// Whether node `k` is a direct key entry of mapping `m`.
pub open spec fn entry_key(tree: SyntaxTree, m: int, k: int) -> bool {
    &&& 0 <= k < tree.nodes@.len()
    &&& tree.nodes@[k].kind is BlockMapKey
    &&& owner_of(tree.nodes@, k) == m
}

/// Whether node `v` is a direct value entry of mapping `m`.
pub open spec fn entry_value(tree: SyntaxTree, m: int, v: int) -> bool {
    &&& 0 <= v < tree.nodes@.len()
    &&& tree.nodes@[v].kind is BlockMapValue
    &&& owner_of(tree.nodes@, v) == m
}

/// The first node at or after `i` that is a block mapping directly under
/// document `doc`; `-1` when there is none.
pub open spec fn first_doc_map(tree: SyntaxTree, doc: int, i: int) -> int
    decreases tree.nodes@.len() - i,
{
    if !(0 <= i < tree.nodes@.len()) {
        -1
    } else if tree.nodes@[i].kind is BlockMap && owner_of(tree.nodes@, i) == doc {
        i
    } else {
        first_doc_map(tree, doc, i + 1)
    }
}

/// The last key entry of `m` before index `i` whose node text is `name`;
/// `-1` when there is none.
pub open spec fn last_key_named(tree: SyntaxTree, m: int, name: Seq<char>, i: int) -> int
    decreases i,
{
    if i <= 0 {
        -1
    } else if entry_key(tree, m, i - 1) && node_text_of(tree, i - 1) == name {
        i - 1
    } else {
        last_key_named(tree, m, name, i - 1)
    }
}

/// The value entry following key `k` in mapping `m`: the first value entry
/// of `m` after `i - 1` that comes before any further key entry of `m`.
pub open spec fn value_after(tree: SyntaxTree, m: int, i: int) -> int
    decreases tree.nodes@.len() - i,
{
    if !(0 <= i < tree.nodes@.len()) {
        -1
    } else if entry_key(tree, m, i) {
        -1
    } else if entry_value(tree, m, i) {
        i
    } else {
        value_after(tree, m, i + 1)
    }
}

impl SyntaxTree {
    /// Executable ancestor walk to the enclosing Document node.
    fn doc_ancestor_of(&self, i: usize) -> (r: Option<usize>)
        requires
            self.wf(),
            i < self.nodes@.len(),
        ensures
            match r {
                Some(d) => doc_ancestor(self.nodes@, i as int) == d,
                None => doc_ancestor(self.nodes@, i as int) == -1,
            },
    {
        let ghost nodes = self.nodes@;
        let mut cur: usize = i;
        loop
            invariant_except_break
                doc_ancestor(nodes, i as int) == doc_ancestor(nodes, cur as int),
            invariant
                self.wf(),
                nodes == self.nodes@,
                cur < nodes.len(),
            ensures
                ({
                    let d = doc_ancestor(nodes, i as int);
                    (d == cur as int && nodes[cur as int].kind is Document) || (d == -1
                        && !(nodes[cur as int].kind is Document)
                        && nodes[cur as int].parent is None)
                }),
            decreases cur,
        {
            if matches!(self.nodes[cur].kind, NodeKind::Document) {
                break;
            }
            match self.nodes[cur].parent {
                Some(p) => {
                    cur = p;
                },
                None => {
                    break;
                },
            }
        }
        if matches!(self.nodes[cur].kind, NodeKind::Document) {
            Some(cur)
        } else {
            None
        }
    }

    /// Executable walk to the nearest Document-or-mapping boundary at or
    /// above node `start`.
    fn boundary_from(&self, start: usize) -> (r: Option<usize>)
        requires
            self.wf(),
            start < self.nodes@.len(),
        ensures
            match r {
                Some(o) => boundary_above(self.nodes@, start as int) == o,
                None => boundary_above(self.nodes@, start as int) == -1,
            },
    {
        let ghost nodes = self.nodes@;
        let mut cur: usize = start;
        loop
            invariant_except_break
                boundary_above(nodes, start as int) == boundary_above(nodes, cur as int),
            invariant
                self.wf(),
                nodes == self.nodes@,
                cur < nodes.len(),
            ensures
                ({
                    let o = boundary_above(nodes, start as int);
                    let stopped = nodes[cur as int].kind is Document || nodes[cur as int].kind
                        is BlockMap || nodes[cur as int].kind is BlockSeq;
                    (o == cur as int && stopped) || (o == -1 && !stopped
                        && nodes[cur as int].parent is None)
                }),
            decreases cur,
        {
            if matches!(self.nodes[cur].kind, NodeKind::Document)
                || matches!(self.nodes[cur].kind, NodeKind::BlockMap)
                || matches!(self.nodes[cur].kind, NodeKind::BlockSeq) {
                break;
            }
            match self.nodes[cur].parent {
                Some(p) => {
                    cur = p;
                },
                None => {
                    break;
                },
            }
        }
        if matches!(self.nodes[cur].kind, NodeKind::Document)
            || matches!(self.nodes[cur].kind, NodeKind::BlockMap)
            || matches!(self.nodes[cur].kind, NodeKind::BlockSeq) {
            Some(cur)
        } else {
            None
        }
    }

    /// The Document-or-mapping boundary strictly above node `i`.
    fn owner_above(&self, i: usize) -> (r: Option<usize>)
        requires
            self.wf(),
            i < self.nodes@.len(),
        ensures
            match r {
                Some(o) => owner_of(self.nodes@, i as int) == o,
                None => owner_of(self.nodes@, i as int) == -1,
            },
    {
        match self.nodes[i].parent {
            Some(p) => self.boundary_from(p),
            None => None,
        }
    }

    /// Whether node `nd` lies on the inclusive ancestor chain of `start`.
    fn subtree_from(&self, start: usize, nd: usize) -> (r: bool)
        requires
            self.wf(),
            start < self.nodes@.len(),
        ensures
            r == in_subtree(self.nodes@, start as int, nd as int),
    {
        let ghost nodes = self.nodes@;
        let mut cur: usize = start;
        loop
            invariant_except_break
                in_subtree(nodes, start as int, nd as int) == in_subtree(
                    nodes,
                    cur as int,
                    nd as int,
                ),
            invariant
                self.wf(),
                nodes == self.nodes@,
                cur < nodes.len(),
            ensures
                in_subtree(nodes, start as int, nd as int) == (cur as int == nd as int),
            decreases cur,
        {
            if cur == nd {
                break;
            }
            match self.nodes[cur].parent {
                Some(p) => {
                    cur = p;
                },
                None => {
                    break;
                },
            }
        }
        cur == nd
    }

    /// Whether token `t`'s parent chain passes through node `nd`.
    fn token_under(&self, t: usize, nd: usize) -> (r: bool)
        requires
            self.wf(),
            t < self.tokens@.len(),
        ensures
            r == tok_in_node(*self, t as int, nd as int),
    {
        match self.tokens[t].parent {
            Some(p) => self.subtree_from(p, nd),
            None => false,
        }
    }

    /// The literal text under node `nd`, in stream order.
    fn text_of_node(&self, nd: usize) -> (r: Vec<char>)
        requires
            self.wf(),
        ensures
            r@ == node_text_of(*self, nd as int),
    {
        let mut out: Vec<char> = Vec::new();
        let n = self.tokens.len();
        for i in 0..n
            invariant
                self.wf(),
                n == self.tokens@.len(),
                out@ == node_text_up_to(*self, nd as int, i as int),
        {
            if self.token_under(i, nd) {
                let t = &self.tokens[i];
                let tlen = t.text.len();
                for j in 0..tlen
                    invariant
                        self.wf(),
                        n == self.tokens@.len(),
                        i < n,
                        t == self.tokens@[i as int],
                        tlen == t.text@.len(),
                        tok_in_node(*self, i as int, nd as int),
                        out@ == node_text_up_to(*self, nd as int, i as int) + t.text@.take(
                            j as int,
                        ),
                {
                    out.push(t.text[j]);
                    proof {
                        assert(t.text@.take(j + 1) =~= t.text@.take(j as int).push(
                            t.text@[j as int],
                        ));
                    }
                }
                proof {
                    assert(t.text@.take(tlen as int) =~= t.text@);
                }
            } else {
                proof {
                    assert(out@ + Seq::<char>::empty() =~= out@);
                }
            }
        }
        out
    }

    /// The first block mapping directly under `doc`.
    fn find_doc_map(&self, doc: usize) -> (r: Option<usize>)
        requires
            self.wf(),
        ensures
            match r {
                Some(m) => first_doc_map(*self, doc as int, 0) == m && m < self.nodes@.len(),
                None => first_doc_map(*self, doc as int, 0) == -1,
            },
    {
        let n = self.nodes.len();
        for i in 0..n
            invariant
                self.wf(),
                n == self.nodes@.len(),
                first_doc_map(*self, doc as int, 0) == first_doc_map(*self, doc as int, i as int),
        {
            if matches!(self.nodes[i].kind, NodeKind::BlockMap) {
                match self.owner_above(i) {
                    Some(o) => {
                        if o == doc {
                            return Some(i);
                        }
                    },
                    None => {},
                }
            }
        }
        None
    }

    /// The last key entry of `m` named `name`.
    fn find_last_key(&self, m: usize, name: &Vec<char>) -> (r: Option<usize>)
        requires
            self.wf(),
        ensures
            match r {
                Some(k) => last_key_named(*self, m as int, name@, self.nodes@.len() as int)
                    == k,
                None => last_key_named(*self, m as int, name@, self.nodes@.len() as int) == -1,
            },
    {
        let n = self.nodes.len();
        let mut i: usize = n;
        while i > 0
            invariant
                self.wf(),
                n == self.nodes@.len(),
                i <= n,
                last_key_named(*self, m as int, name@, n as int) == last_key_named(
                    *self,
                    m as int,
                    name@,
                    i as int,
                ),
            decreases i,
        {
            i = i - 1;
            if matches!(self.nodes[i].kind, NodeKind::BlockMapKey) {
                let is_entry = match self.owner_above(i) {
                    Some(o) => o == m,
                    None => false,
                };
                if is_entry {
                    let text = self.text_of_node(i);
                    if chars_eq(&text, name) {
                        return Some(i);
                    }
                }
            }
        }
        None
    }

    /// The value entry belonging to key `k` of mapping `m`: the next value
    /// entry of `m`, unless another key of `m` comes first.
    fn find_value_after(&self, m: usize, k: usize) -> (r: Option<usize>)
        requires
            self.wf(),
            k < self.nodes@.len(),
        ensures
            match r {
                Some(v) => value_after(*self, m as int, k + 1) == v && v < self.nodes@.len(),
                None => value_after(*self, m as int, k + 1) == -1,
            },
    {
        let n = self.nodes.len();
        let mut i: usize = k + 1;
        while i < n
            invariant
                self.wf(),
                n == self.nodes@.len(),
                k + 1 <= i <= n,
                value_after(*self, m as int, k + 1) == value_after(*self, m as int, i as int),
            decreases n - i,
        {
            let owner = self.owner_above(i);
            let of_m = match owner {
                Some(o) => o == m,
                None => false,
            };
            if matches!(self.nodes[i].kind, NodeKind::BlockMapKey) && of_m {
                return None;
            }
            if matches!(self.nodes[i].kind, NodeKind::BlockMapValue) && of_m {
                return Some(i);
            }
            i = i + 1;
        }
        None
    }
}

/// Character-for-character equality of two texts.
pub fn chars_eq(a: &Vec<char>, b: &Vec<char>) -> (r: bool)
    ensures
        r == (a@ == b@),
{
    if a.len() != b.len() {
        proof {
            assert(a@.len() != b@.len());
        }
        return false;
    }
    let n = a.len();
    for i in 0..n
        invariant
            n == a@.len(),
            n == b@.len(),
            forall|k: int| 0 <= k < i ==> a@[k] == b@[k],
    {
        if a[i] != b[i] {
            return false;
        }
    }
    proof {
        assert(a@ =~= b@);
    }
    true
}

impl KubeDetails {
    /// Reads the enclosing document's `kind` and `apiVersion` starting from
    /// one of its tokens.
    pub fn from_token(tree: &SyntaxTree, token: usize) -> (r: Result<KubeDetails, KubeDetailsError>)
        requires
            tree.wf(),
            token < tree.tokens@.len(),
        ensures
            ({
                let nodes = tree.nodes@;
                match tree.tokens@[token as int].parent {
                    None => r == Err::<KubeDetails, KubeDetailsError>(
                        KubeDetailsError::NoSyntaxNodeParent,
                    ),
                    Some(p) => {
                        let doc = doc_ancestor(nodes, p as int);
                        if doc == -1 {
                            r == Err::<KubeDetails, KubeDetailsError>(
                                KubeDetailsError::RootNodeNotDocument,
                            )
                        } else {
                            let m = first_doc_map(*tree, doc, 0);
                            if m == -1 {
                                r == Err::<KubeDetails, KubeDetailsError>(
                                    KubeDetailsError::DocumentIsNotBlockMap,
                                )
                            } else {
                                let kk = last_key_named(*tree, m, kind_name(), nodes.len() as int);
                                let ak = last_key_named(
                                    *tree,
                                    m,
                                    api_version_name(),
                                    nodes.len() as int,
                                );
                                if kk == -1 || ak == -1 || value_after(*tree, m, kk + 1) == -1
                                    || value_after(*tree, m, ak + 1) == -1 {
                                    r == Err::<KubeDetails, KubeDetailsError>(
                                        KubeDetailsError::DocumentMissingKindOrApiVersion,
                                    )
                                } else {
                                    r matches Ok(d) && d.kind@ == node_text_of(
                                        *tree,
                                        value_after(*tree, m, kk + 1),
                                    ) && api_group_matches(
                                        d.api_version,
                                        node_text_of(*tree, value_after(*tree, m, ak + 1)),
                                    )
                                }
                            }
                        }
                    },
                }
            }),
    {
        let pi: usize;
        match tree.tokens[token].parent {
            Some(p) => {
                pi = p;
            },
            None => {
                return Err(KubeDetailsError::NoSyntaxNodeParent);
            },
        }
        let doc: usize;
        match tree.doc_ancestor_of(pi) {
            Some(d) => {
                doc = d;
            },
            None => {
                return Err(KubeDetailsError::RootNodeNotDocument);
            },
        }
        let m: usize;
        match tree.find_doc_map(doc) {
            Some(found) => {
                m = found;
            },
            None => {
                return Err(KubeDetailsError::DocumentIsNotBlockMap);
            },
        }
        let kind_key: Vec<char> = vec!['k', 'i', 'n', 'd'];
        let api_key: Vec<char> = vec!['a', 'p', 'i', 'V', 'e', 'r', 's', 'i', 'o', 'n'];
        proof {
            assert(kind_key@ =~= kind_name());
            assert(api_key@ =~= api_version_name());
        }
        let kk = tree.find_last_key(m, &kind_key);
        let ak = tree.find_last_key(m, &api_key);
        match (kk, ak) {
            (Some(kknode), Some(aknode)) => {
                proof {
                    lemma_last_key_in_range(*tree, m as int, kind_name(), tree.nodes@.len() as int);
                    lemma_last_key_in_range(
                        *tree,
                        m as int,
                        api_version_name(),
                        tree.nodes@.len() as int,
                    );
                }
                let kv = tree.find_value_after(m, kknode);
                let av = tree.find_value_after(m, aknode);
                match (kv, av) {
                    (Some(kvnode), Some(avnode)) => {
                        let kind_text = tree.text_of_node(kvnode);
                        let api_text = tree.text_of_node(avnode);
                        Ok(
                            KubeDetails {
                                kind: chars_to_string(&kind_text),
                                api_version: ApiGroup::parse_api_version(&api_text),
                            },
                        )
                    },
                    _ => Err(KubeDetailsError::DocumentMissingKindOrApiVersion),
                }
            },
            _ => Err(KubeDetailsError::DocumentMissingKindOrApiVersion),
        }
    }
}

/// A found key index lies inside the arena.
proof fn lemma_last_key_in_range(tree: SyntaxTree, m: int, name: Seq<char>, i: int)
    ensures
        last_key_named(tree, m, name, i) == -1 || (0 <= last_key_named(tree, m, name, i)
            < tree.nodes@.len() && last_key_named(tree, m, name, i) < i),
    decreases i,
{
    if i > 0 {
        lemma_last_key_in_range(tree, m, name, i - 1);
    }
}

} // verus!
