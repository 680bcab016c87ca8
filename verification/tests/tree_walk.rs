use m7s::tree::{Node, NodeKind, SyntaxTree, Token, TokenKind};

fn tok(kind: TokenKind, text: &str, parent: Option<usize>) -> Token {
    Token {
        kind,
        text: text.chars().collect(),
        parent,
    }
}

fn node(kind: NodeKind, parent: Option<usize>) -> Node {
    Node { kind, parent }
}

/// `"key: value"` as a tree: a document holding one block-map entry.
fn single_line_tree() -> SyntaxTree {
    SyntaxTree {
        nodes: vec![
            node(NodeKind::Root, None),
            node(NodeKind::Document, Some(0)),
            node(NodeKind::BlockMap, Some(1)),
            node(NodeKind::BlockMapKey, Some(2)),
            node(NodeKind::BlockMapValue, Some(2)),
        ],
        tokens: vec![
            tok(TokenKind::PlainScalar, "key", Some(3)),
            tok(TokenKind::Colon, ":", Some(2)),
            tok(TokenKind::Whitespace, " ", Some(2)),
            tok(TokenKind::PlainScalar, "value", Some(4)),
        ],
    }
}

/// `"kind: Pod\napiVersion: v1\n"` as a tree.
fn manifest_tree() -> SyntaxTree {
    SyntaxTree {
        nodes: vec![
            node(NodeKind::Root, None),
            node(NodeKind::Document, Some(0)),
            node(NodeKind::BlockMap, Some(1)),
            node(NodeKind::BlockMapKey, Some(2)),
            node(NodeKind::BlockMapValue, Some(2)),
            node(NodeKind::BlockMapKey, Some(2)),
            node(NodeKind::BlockMapValue, Some(2)),
        ],
        tokens: vec![
            tok(TokenKind::PlainScalar, "kind", Some(3)),
            tok(TokenKind::Colon, ":", Some(2)),
            tok(TokenKind::Whitespace, " ", Some(2)),
            tok(TokenKind::PlainScalar, "Pod", Some(4)),
            tok(TokenKind::Whitespace, "\n", Some(2)),
            tok(TokenKind::PlainScalar, "apiVersion", Some(5)),
            tok(TokenKind::Colon, ":", Some(2)),
            tok(TokenKind::Whitespace, " ", Some(2)),
            tok(TokenKind::PlainScalar, "v1", Some(6)),
            tok(TokenKind::Whitespace, "\n", Some(2)),
        ],
    }
}

#[test]
fn well_formed_trees_pass_the_check() {
    assert!(single_line_tree().is_well_formed());
    assert!(manifest_tree().is_well_formed());
}

#[test]
fn bad_parent_index_is_rejected() {
    let mut t = single_line_tree();
    t.tokens[0].parent = Some(99);
    assert!(!t.is_well_formed());
}

#[test]
fn empty_token_text_is_rejected() {
    let mut t = single_line_tree();
    t.tokens[1].text = Vec::new();
    assert!(!t.is_well_formed());
}

#[test]
fn node_parent_must_precede_child() {
    let mut t = single_line_tree();
    t.nodes[1].parent = Some(3);
    assert!(!t.is_well_formed());
}

#[test]
fn round_trip_single_line() {
    let t = single_line_tree();
    assert_eq!(t.to_text(), "key: value");
}

#[test]
fn round_trip_manifest() {
    let t = manifest_tree();
    assert_eq!(t.to_text(), "kind: Pod\napiVersion: v1\n");
}

#[test]
fn dimensions_single_line() {
    let t = single_line_tree();
    assert_eq!(t.node_dimensions(), (1, 10));
}

#[test]
fn dimensions_manifest() {
    let t = manifest_tree();
    // two newline characters: three display lines, the last one empty
    assert_eq!(t.node_dimensions(), (3, 14));
}

#[test]
fn dimensions_count_every_blank_line() {
    let t = SyntaxTree {
        nodes: vec![node(NodeKind::Root, None)],
        tokens: vec![
            tok(TokenKind::PlainScalar, "a", Some(0)),
            tok(TokenKind::Whitespace, "\n\n\n", Some(0)),
            tok(TokenKind::PlainScalar, "bb", Some(0)),
        ],
    };
    assert!(t.is_well_formed());
    assert_eq!(t.node_dimensions(), (4, 2));
}

#[test]
fn line_at_cursor_starts_at_zero() {
    let t = manifest_tree();
    assert_eq!(t.line_at_cursor(0), 0);
}

#[test]
fn line_at_cursor_counts_whitespace_newlines() {
    let t = manifest_tree();
    // "kind: Pod\napiVersion: v1\n"
    //  0123456789 10...
    assert_eq!(t.line_at_cursor(5), 0);
    assert_eq!(t.line_at_cursor(9), 0); // inside the "\n" token itself
    assert_eq!(t.line_at_cursor(10), 1); // first char of "apiVersion"
    assert_eq!(t.line_at_cursor(24), 1); // inside the trailing "\n"
    assert_eq!(t.line_at_cursor(25), 2); // past the end
}

#[test]
fn line_at_cursor_is_monotonic_on_samples() {
    let t = manifest_tree();
    let mut last = 0;
    for offset in 0..=25 {
        let line = t.line_at_cursor(offset);
        assert!(line >= last);
        last = line;
    }
}

#[test]
fn dimension_line_count_matches_line_at_end() {
    let t = manifest_tree();
    let text_len = t.to_text().chars().count();
    assert_eq!(t.node_dimensions().0, t.line_at_cursor(text_len) + 1);
}

#[test]
fn token_at_cursor_picks_the_right_token_on_boundaries() {
    let t = single_line_tree();
    assert_eq!(t.token_at_cursor(0), Some(0));
    assert_eq!(t.token_at_cursor(2), Some(0));
    assert_eq!(t.token_at_cursor(3), Some(1)); // boundary: ":" wins over "key"
    assert_eq!(t.token_at_cursor(4), Some(2));
    assert_eq!(t.token_at_cursor(5), Some(3));
    assert_eq!(t.token_at_cursor(9), Some(3));
    assert_eq!(t.token_at_cursor(10), None);
}

#[test]
fn token_at_cursor_on_empty_tree_is_none() {
    let t = SyntaxTree {
        nodes: vec![node(NodeKind::Root, None)],
        tokens: vec![],
    };
    assert!(t.is_well_formed());
    assert_eq!(t.token_at_cursor(0), None);
}

#[test]
fn token_position_reports_lines_columns_and_indent() {
    let t = manifest_tree();
    // "Pod" is token 3: line 0, columns 6..9, no indenting whitespace yet
    let ((l0, l1), (c0, c1), indent) = t.token_position(3);
    assert_eq!((l0, l1), (0, 0));
    assert_eq!((c0, c1), (6, 9));
    assert_eq!(indent, "");
    // "apiVersion" is token 5: line 1, columns 0..10, indent from the "\n"
    let ((l0, l1), (c0, c1), indent) = t.token_position(5);
    assert_eq!((l0, l1), (1, 1));
    assert_eq!((c0, c1), (0, 10));
    assert_eq!(indent, "");
}

#[test]
fn token_position_tracks_indenting_whitespace() {
    let t = SyntaxTree {
        nodes: vec![node(NodeKind::Root, None)],
        tokens: vec![
            tok(TokenKind::PlainScalar, "a:", Some(0)),
            tok(TokenKind::Whitespace, "\n  ", Some(0)),
            tok(TokenKind::PlainScalar, "b", Some(0)),
        ],
    };
    assert!(t.is_well_formed());
    let ((l0, l1), (c0, c1), indent) = t.token_position(2);
    assert_eq!((l0, l1), (1, 1));
    assert_eq!((c0, c1), (2, 3));
    assert_eq!(indent, "  ");
}

#[test]
fn token_position_spans_multiline_tokens() {
    let t = SyntaxTree {
        nodes: vec![node(NodeKind::Root, None)],
        tokens: vec![
            tok(TokenKind::Whitespace, "\n", Some(0)),
            tok(TokenKind::BlockScalarText, "one\nlonger", Some(0)),
        ],
    };
    assert!(t.is_well_formed());
    let ((l0, l1), (c0, c1), _) = t.token_position(1);
    assert_eq!((l0, l1), (1, 2));
    assert_eq!((c0, c1), (0, 6));
}

#[test]
fn token_start_gives_character_offsets() {
    let t = manifest_tree();
    assert_eq!(t.token_start(0), 0);
    assert_eq!(t.token_start(3), 6); // "Pod" starts after "kind: "
    assert_eq!(t.token_start(5), 10); // "apiVersion" starts the second line
    assert_eq!(t.token_start(t.tokens.len()), 25); // the whole text
}
