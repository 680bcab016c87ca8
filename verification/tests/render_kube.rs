use m7s::api::ApiGroup;
use m7s::kube::{KubeDetails, KubeDetailsError};
use m7s::tree::{Node, NodeKind, SyntaxTree, Token, TokenKind};

fn tok(kind: TokenKind, text: &str, parent: Option<usize>) -> Token {
    Token {
        kind,
        text: text.chars().collect(),
        parent,
    }
}

fn node(kind: NodeKind, parent: Option<usize>) -> Node {
    Node { kind, parent }
}

fn single_line_tree() -> SyntaxTree {
    SyntaxTree {
        nodes: vec![
            node(NodeKind::Root, None),
            node(NodeKind::Document, Some(0)),
            node(NodeKind::BlockMap, Some(1)),
            node(NodeKind::BlockMapKey, Some(2)),
            node(NodeKind::BlockMapValue, Some(2)),
        ],
        tokens: vec![
            tok(TokenKind::PlainScalar, "key", Some(3)),
            tok(TokenKind::Colon, ":", Some(2)),
            tok(TokenKind::Whitespace, " ", Some(2)),
            tok(TokenKind::PlainScalar, "value", Some(4)),
        ],
    }
}

fn manifest_tree() -> SyntaxTree {
    SyntaxTree {
        nodes: vec![
            node(NodeKind::Root, None),
            node(NodeKind::Document, Some(0)),
            node(NodeKind::BlockMap, Some(1)),
            node(NodeKind::BlockMapKey, Some(2)),
            node(NodeKind::BlockMapValue, Some(2)),
            node(NodeKind::BlockMapKey, Some(2)),
            node(NodeKind::BlockMapValue, Some(2)),
        ],
        tokens: vec![
            tok(TokenKind::PlainScalar, "kind", Some(3)),
            tok(TokenKind::Colon, ":", Some(2)),
            tok(TokenKind::Whitespace, " ", Some(2)),
            tok(TokenKind::PlainScalar, "Pod", Some(4)),
            tok(TokenKind::Whitespace, "\n", Some(2)),
            tok(TokenKind::PlainScalar, "apiVersion", Some(5)),
            tok(TokenKind::Colon, ":", Some(2)),
            tok(TokenKind::Whitespace, " ", Some(2)),
            tok(TokenKind::PlainScalar, "v1", Some(6)),
            tok(TokenKind::Whitespace, "\n", Some(2)),
        ],
    }
}

fn span_text(s: &m7s::render::Span) -> String {
    s.text.iter().collect()
}

#[test]
fn single_line_renders_two_spans() {
    let t = single_line_tree();
    let (lines, width) = t.tree_to_lines(10);
    assert_eq!(lines.len(), 1);
    assert_eq!(lines[0].spans.len(), 2);
    assert_eq!(span_text(&lines[0].spans[0]), "key");
    assert!(lines[0].spans[0].key);
    assert!(!lines[0].spans[0].active);
    assert_eq!(span_text(&lines[0].spans[1]), ": value");
    assert!(!lines[0].spans[1].key);
    assert!(!lines[0].spans[1].active);
    assert_eq!(width, 10);
}

#[test]
fn active_token_gets_its_own_highlighted_span() {
    let t = single_line_tree();
    // cursor inside "value": offsets 5..10
    let (lines, _) = t.tree_to_lines(5);
    assert_eq!(lines.len(), 1);
    assert_eq!(lines[0].spans.len(), 3);
    assert_eq!(span_text(&lines[0].spans[1]), ": ");
    assert_eq!(span_text(&lines[0].spans[2]), "value");
    assert!(lines[0].spans[2].active);
    assert!(!lines[0].spans[1].active);
}

#[test]
fn rendering_reflattens_to_the_source_text() {
    let t = manifest_tree();
    let (lines, width) = t.tree_to_lines(0);
    let flattened: Vec<String> = lines
        .iter()
        .map(|l| l.spans.iter().map(span_text).collect::<Vec<_>>().join(""))
        .collect();
    assert_eq!(flattened.join("\n"), t.to_text());
    assert_eq!(lines.len(), 3);
    assert_eq!(width, 14);
}

#[test]
fn token_newlines_split_spans_across_lines() {
    let t = SyntaxTree {
        nodes: vec![node(NodeKind::Root, None)],
        tokens: vec![tok(TokenKind::PlainScalar, "one\ntwo", Some(0))],
    };
    assert!(t.is_well_formed());
    let (lines, width) = t.tree_to_lines(0);
    assert_eq!(lines.len(), 2);
    assert_eq!(span_text(&lines[0].spans[0]), "one");
    assert_eq!(span_text(&lines[1].spans[0]), "two");
    assert_eq!(width, 3);
    // both halves belong to the same (active) token
    assert!(lines[0].spans[0].active);
    assert!(lines[1].spans[0].active);
}

#[test]
fn manifest_metadata_is_extracted() {
    let t = manifest_tree();
    // token 3 is the "Pod" scalar
    let details = KubeDetails::from_token(&t, 3).unwrap();
    assert_eq!(details.kind, "Pod");
    match details.api_version {
        ApiGroup::Core(v) => assert_eq!(v, "v1"),
        ApiGroup::Named(_, _) => panic!("expected the core group"),
    }
}

#[test]
fn missing_api_version_is_reported() {
    // "kind: Pod\n" without an apiVersion entry
    let t = SyntaxTree {
        nodes: vec![
            node(NodeKind::Root, None),
            node(NodeKind::Document, Some(0)),
            node(NodeKind::BlockMap, Some(1)),
            node(NodeKind::BlockMapKey, Some(2)),
            node(NodeKind::BlockMapValue, Some(2)),
        ],
        tokens: vec![
            tok(TokenKind::PlainScalar, "kind", Some(3)),
            tok(TokenKind::Colon, ":", Some(2)),
            tok(TokenKind::Whitespace, " ", Some(2)),
            tok(TokenKind::PlainScalar, "Pod", Some(4)),
            tok(TokenKind::Whitespace, "\n", Some(2)),
        ],
    };
    assert!(t.is_well_formed());
    assert_eq!(
        KubeDetails::from_token(&t, 3).unwrap_err(),
        KubeDetailsError::DocumentMissingKindOrApiVersion
    );
}

#[test]
fn key_without_value_counts_as_missing() {
    // "kind:\napiVersion: v1\n": the kind entry has no value node
    let t = SyntaxTree {
        nodes: vec![
            node(NodeKind::Root, None),
            node(NodeKind::Document, Some(0)),
            node(NodeKind::BlockMap, Some(1)),
            node(NodeKind::BlockMapKey, Some(2)),
            node(NodeKind::BlockMapKey, Some(2)),
            node(NodeKind::BlockMapValue, Some(2)),
        ],
        tokens: vec![
            tok(TokenKind::PlainScalar, "kind", Some(3)),
            tok(TokenKind::Colon, ":", Some(2)),
            tok(TokenKind::Whitespace, "\n", Some(2)),
            tok(TokenKind::PlainScalar, "apiVersion", Some(4)),
            tok(TokenKind::Colon, ":", Some(2)),
            tok(TokenKind::Whitespace, " ", Some(2)),
            tok(TokenKind::PlainScalar, "v1", Some(5)),
        ],
    };
    assert!(t.is_well_formed());
    assert_eq!(
        KubeDetails::from_token(&t, 0).unwrap_err(),
        KubeDetailsError::DocumentMissingKindOrApiVersion
    );
}

#[test]
fn token_without_parent_is_reported() {
    let t = SyntaxTree {
        nodes: vec![node(NodeKind::Root, None)],
        tokens: vec![tok(TokenKind::PlainScalar, "x", None)],
    };
    assert!(t.is_well_formed());
    assert_eq!(
        KubeDetails::from_token(&t, 0).unwrap_err(),
        KubeDetailsError::NoSyntaxNodeParent
    );
}

#[test]
fn tree_without_document_is_reported() {
    let t = SyntaxTree {
        nodes: vec![node(NodeKind::Root, None)],
        tokens: vec![tok(TokenKind::PlainScalar, "x", Some(0))],
    };
    assert!(t.is_well_formed());
    assert_eq!(
        KubeDetails::from_token(&t, 0).unwrap_err(),
        KubeDetailsError::RootNodeNotDocument
    );
}

#[test]
fn document_without_mapping_is_reported() {
    // a document holding a bare scalar instead of a mapping
    let t = SyntaxTree {
        nodes: vec![
            node(NodeKind::Root, None),
            node(NodeKind::Document, Some(0)),
            node(NodeKind::Other, Some(1)),
        ],
        tokens: vec![tok(TokenKind::PlainScalar, "just-a-scalar", Some(2))],
    };
    assert!(t.is_well_formed());
    assert_eq!(
        KubeDetails::from_token(&t, 0).unwrap_err(),
        KubeDetailsError::DocumentIsNotBlockMap
    );
}

#[test]
fn named_group_api_version_is_parsed() {
    // "kind: Deployment\napiVersion: apps/v1\n"
    let t = SyntaxTree {
        nodes: vec![
            node(NodeKind::Root, None),
            node(NodeKind::Document, Some(0)),
            node(NodeKind::BlockMap, Some(1)),
            node(NodeKind::BlockMapKey, Some(2)),
            node(NodeKind::BlockMapValue, Some(2)),
            node(NodeKind::BlockMapKey, Some(2)),
            node(NodeKind::BlockMapValue, Some(2)),
        ],
        tokens: vec![
            tok(TokenKind::PlainScalar, "kind", Some(3)),
            tok(TokenKind::Colon, ":", Some(2)),
            tok(TokenKind::Whitespace, " ", Some(2)),
            tok(TokenKind::PlainScalar, "Deployment", Some(4)),
            tok(TokenKind::Whitespace, "\n", Some(2)),
            tok(TokenKind::PlainScalar, "apiVersion", Some(5)),
            tok(TokenKind::Colon, ":", Some(2)),
            tok(TokenKind::Whitespace, " ", Some(2)),
            tok(TokenKind::PlainScalar, "apps/v1", Some(6)),
            tok(TokenKind::Whitespace, "\n", Some(2)),
        ],
    };
    assert!(t.is_well_formed());
    let details = KubeDetails::from_token(&t, 0).unwrap();
    assert_eq!(details.kind, "Deployment");
    match details.api_version {
        ApiGroup::Named(g, v) => {
            assert_eq!(g, "apps");
            assert_eq!(v, "v1");
        }
        ApiGroup::Core(_) => panic!("expected a named group"),
    }
}

#[test]
fn duplicate_keys_resolve_to_the_last_entry() {
    // "kind: Pod\nkind: Job\napiVersion: v1\n"
    let t = SyntaxTree {
        nodes: vec![
            node(NodeKind::Root, None),
            node(NodeKind::Document, Some(0)),
            node(NodeKind::BlockMap, Some(1)),
            node(NodeKind::BlockMapKey, Some(2)),
            node(NodeKind::BlockMapValue, Some(2)),
            node(NodeKind::BlockMapKey, Some(2)),
            node(NodeKind::BlockMapValue, Some(2)),
            node(NodeKind::BlockMapKey, Some(2)),
            node(NodeKind::BlockMapValue, Some(2)),
        ],
        tokens: vec![
            tok(TokenKind::PlainScalar, "kind", Some(3)),
            tok(TokenKind::Colon, ":", Some(2)),
            tok(TokenKind::Whitespace, " ", Some(2)),
            tok(TokenKind::PlainScalar, "Pod", Some(4)),
            tok(TokenKind::Whitespace, "\n", Some(2)),
            tok(TokenKind::PlainScalar, "kind", Some(5)),
            tok(TokenKind::Colon, ":", Some(2)),
            tok(TokenKind::Whitespace, " ", Some(2)),
            tok(TokenKind::PlainScalar, "Job", Some(6)),
            tok(TokenKind::Whitespace, "\n", Some(2)),
            tok(TokenKind::PlainScalar, "apiVersion", Some(7)),
            tok(TokenKind::Colon, ":", Some(2)),
            tok(TokenKind::Whitespace, " ", Some(2)),
            tok(TokenKind::PlainScalar, "v1", Some(8)),
            tok(TokenKind::Whitespace, "\n", Some(2)),
        ],
    };
    assert!(t.is_well_formed());
    let details = KubeDetails::from_token(&t, 0).unwrap();
    assert_eq!(details.kind, "Job");
}

#[test]
fn flow_wrappers_are_skipped_for_styling() {
    // the scalar's parent is a Flow node inside the key node
    let t = SyntaxTree {
        nodes: vec![
            node(NodeKind::Root, None),
            node(NodeKind::Document, Some(0)),
            node(NodeKind::BlockMap, Some(1)),
            node(NodeKind::BlockMapKey, Some(2)),
            node(NodeKind::Flow, Some(3)),
        ],
        tokens: vec![tok(TokenKind::PlainScalar, "key", Some(4))],
    };
    assert!(t.is_well_formed());
    let (lines, _) = t.tree_to_lines(99);
    assert_eq!(lines.len(), 1);
    assert_eq!(lines[0].spans.len(), 1);
    assert!(lines[0].spans[0].key);
}

#[test]
fn kube_error_messages_name_the_cause() {
    assert_eq!(
        KubeDetailsError::NoSyntaxNodeParent.message(),
        "Syntax token has no parent syntax node."
    );
    assert_eq!(
        KubeDetailsError::DocumentMissingKindOrApiVersion.message(),
        "Document is missing either `kind` or `apiVersion` fields."
    );
}

#[test]
fn mapping_under_a_sequence_is_not_the_documents_mapping() {
    // "- kind: Pod\n  apiVersion: v1\n": the document's value is a sequence
    let t = SyntaxTree {
        nodes: vec![
            node(NodeKind::Root, None),
            node(NodeKind::Document, Some(0)),
            node(NodeKind::BlockSeq, Some(1)),
            node(NodeKind::Other, Some(2)), // the sequence entry
            node(NodeKind::BlockMap, Some(3)),
            node(NodeKind::BlockMapKey, Some(4)),
            node(NodeKind::BlockMapValue, Some(4)),
            node(NodeKind::BlockMapKey, Some(4)),
            node(NodeKind::BlockMapValue, Some(4)),
        ],
        tokens: vec![
            tok(TokenKind::Minus, "-", Some(3)),
            tok(TokenKind::Whitespace, " ", Some(3)),
            tok(TokenKind::PlainScalar, "kind", Some(5)),
            tok(TokenKind::Colon, ":", Some(4)),
            tok(TokenKind::Whitespace, " ", Some(4)),
            tok(TokenKind::PlainScalar, "Pod", Some(6)),
            tok(TokenKind::Whitespace, "\n  ", Some(3)),
            tok(TokenKind::PlainScalar, "apiVersion", Some(7)),
            tok(TokenKind::Colon, ":", Some(4)),
            tok(TokenKind::Whitespace, " ", Some(4)),
            tok(TokenKind::PlainScalar, "v1", Some(8)),
            tok(TokenKind::Whitespace, "\n", Some(2)),
        ],
    };
    assert!(t.is_well_formed());
    // starting from the "Pod" scalar inside the nested mapping
    assert_eq!(
        KubeDetails::from_token(&t, 5).unwrap_err(),
        KubeDetailsError::DocumentIsNotBlockMap
    );
}
