use ast_builder::convert;
use ast_builder::Node;
use ast_builder::NodeType;
use ast_builder::Parser;
use ast_builder::Payload;
use ast_builder::Token;
use ast_builder::MAX_NESTING;
use ast_builder::TokenType;

fn tok(token_type: TokenType, line: usize) -> Token {
    Token::new(token_type, line)
}

fn num(v: f64, line: usize) -> Token {
    tok(TokenType::Number(v.to_bits()), line)
}

fn ident(s: &str, line: usize) -> Token {
    tok(TokenType::Identifier(s.to_string()), line)
}

fn text(s: &str) -> Option<Payload> {
    Some(Payload::Text(s.to_string()))
}

fn number(v: f64) -> Option<Payload> {
    Some(Payload::Number(v.to_bits()))
}

fn assert_leaf(n: &Node, kind: NodeType, value: Option<Payload>, line: usize) {
    assert_eq!(n.node_type, kind);
    assert_eq!(n.value, value);
    assert_eq!(n.line, line);
    assert!(n.children.is_empty());
}

#[test]
fn empty_input_gives_empty_tree() {
    let tree = convert(Vec::new());
    assert!(tree.nodes.is_empty());
}

#[test]
fn lone_identifier_is_a_leaf() {
    let tree = convert(vec![ident("x", 4)]);
    assert_eq!(tree.nodes.len(), 1);
    assert_leaf(&tree.nodes[0], NodeType::Identifier, text("x"), 4);
}

#[test]
fn call_with_two_numbers() {
    let tree = convert(vec![
        ident("f", 1),
        tok(TokenType::LeftParen, 1),
        num(1.0, 1),
        num(2.0, 1),
        tok(TokenType::RightParen, 1),
    ]);
    assert_eq!(tree.nodes.len(), 1);
    let call = &tree.nodes[0];
    assert_eq!(call.node_type, NodeType::FunctionCall);
    assert_eq!(call.value, text("f"));
    assert_eq!(call.line, 1);
    assert_eq!(call.children.len(), 2);
    assert_leaf(&call.children[0], NodeType::Number, number(1.0), 1);
    assert_leaf(&call.children[1], NodeType::Number, number(2.0), 1);
}

#[test]
fn operator_stays_a_flat_leaf() {
    let tree = convert(vec![tok(TokenType::Operator("+".to_string()), 2), num(3.0, 2)]);
    assert_eq!(tree.nodes.len(), 2);
    assert_leaf(&tree.nodes[0], NodeType::Operator, text("+"), 2);
    assert_leaf(&tree.nodes[1], NodeType::Number, number(3.0), 2);
}

#[test]
fn nested_calls_resolve_recursively() {
    let tree = convert(vec![
        ident("g", 1),
        tok(TokenType::LeftParen, 1),
        ident("h", 2),
        tok(TokenType::LeftParen, 2),
        num(5.0, 2),
        tok(TokenType::RightParen, 2),
        tok(TokenType::RightParen, 3),
    ]);
    assert_eq!(tree.nodes.len(), 1);
    let g = &tree.nodes[0];
    assert_eq!(g.node_type, NodeType::FunctionCall);
    assert_eq!(g.value, text("g"));
    assert_eq!(g.children.len(), 1);
    let h = &g.children[0];
    assert_eq!(h.node_type, NodeType::FunctionCall);
    assert_eq!(h.value, text("h"));
    assert_eq!(h.line, 2);
    assert_eq!(h.children.len(), 1);
    assert_leaf(&h.children[0], NodeType::Number, number(5.0), 2);
}

#[test]
fn stray_closer_is_an_error_node() {
    let tree = convert(vec![tok(TokenType::RightParen, 9)]);
    assert_eq!(tree.nodes.len(), 1);
    assert_leaf(&tree.nodes[0], NodeType::Error, None, 9);
}

#[test]
fn node_count_never_exceeds_token_count() {
    let tokens = vec![
        ident("f", 1),
        tok(TokenType::LeftParen, 1),
        ident("a", 1),
        tok(TokenType::Str("s".to_string()), 1),
        tok(TokenType::RightParen, 1),
        tok(TokenType::Keyword("let".to_string()), 2),
        ident("y", 2),
        tok(TokenType::Comma, 2),
    ];
    let n = tokens.len();
    let tree = convert(tokens);
    assert_eq!(tree.nodes.len(), 4);
    assert!(tree.nodes.len() <= n);
}

#[test]
fn call_children_follow_argument_order() {
    let tree = convert(vec![
        ident("k", 1),
        tok(TokenType::LeftParen, 1),
        tok(TokenType::Str("a".to_string()), 1),
        ident("b", 1),
        ident("c", 1),
        tok(TokenType::LeftParen, 1),
        tok(TokenType::RightParen, 1),
        tok(TokenType::Keyword("d".to_string()), 1),
        tok(TokenType::RightParen, 1),
    ]);
    assert_eq!(tree.nodes.len(), 1);
    let k = &tree.nodes[0];
    assert_eq!(k.node_type, NodeType::FunctionCall);
    assert_eq!(k.children.len(), 4);
    assert_leaf(&k.children[0], NodeType::String, text("a"), 1);
    assert_leaf(&k.children[1], NodeType::Identifier, text("b"), 1);
    assert_eq!(k.children[2].node_type, NodeType::FunctionCall);
    assert_eq!(k.children[2].value, text("c"));
    assert!(k.children[2].children.is_empty());
    assert_leaf(&k.children[3], NodeType::Keyword, text("d"), 1);
}

#[test]
fn classification_ignores_neighbours() {
    let alone = convert(vec![tok(TokenType::Keyword("if".to_string()), 3)]);
    let framed = convert(vec![
        num(1.0, 1),
        tok(TokenType::Keyword("if".to_string()), 3),
        tok(TokenType::LeftParen, 3),
    ]);
    assert_leaf(&alone.nodes[0], NodeType::Keyword, text("if"), 3);
    assert_leaf(&framed.nodes[1], NodeType::Keyword, text("if"), 3);
    assert_leaf(&framed.nodes[2], NodeType::Error, None, 3);
}

#[test]
fn identifier_before_other_token_is_a_leaf() {
    let tree = convert(vec![ident("v", 1), num(7.0, 1)]);
    assert_eq!(tree.nodes.len(), 2);
    assert_leaf(&tree.nodes[0], NodeType::Identifier, text("v"), 1);
    assert_leaf(&tree.nodes[1], NodeType::Number, number(7.0), 1);
}

#[test]
fn unterminated_call_keeps_arguments_and_marks_error() {
    let tree = convert(vec![ident("f", 6), tok(TokenType::LeftParen, 6), num(1.0, 7)]);
    assert_eq!(tree.nodes.len(), 1);
    let f = &tree.nodes[0];
    assert_eq!(f.node_type, NodeType::FunctionCall);
    assert_eq!(f.value, text("f"));
    assert_eq!(f.children.len(), 2);
    assert_leaf(&f.children[0], NodeType::Number, number(1.0), 7);
    assert_leaf(&f.children[1], NodeType::Error, None, 6);
}

#[test]
fn call_head_at_end_of_input() {
    let tree = convert(vec![ident("f", 2), tok(TokenType::LeftParen, 2)]);
    assert_eq!(tree.nodes.len(), 1);
    let f = &tree.nodes[0];
    assert_eq!(f.node_type, NodeType::FunctionCall);
    assert_eq!(f.children.len(), 1);
    assert_leaf(&f.children[0], NodeType::Error, None, 2);
}

#[test]
fn punctuation_becomes_error_nodes() {
    let tree = convert(vec![
        tok(TokenType::LeftParen, 1),
        tok(TokenType::LeftBrace, 2),
        tok(TokenType::RightBrace, 3),
        tok(TokenType::Semicolon, 4),
        tok(TokenType::Comma, 5),
    ]);
    assert_eq!(tree.nodes.len(), 5);
    for (i, n) in tree.nodes.iter().enumerate() {
        assert_leaf(n, NodeType::Error, None, i + 1);
    }
}

#[test]
fn error_inside_call_does_not_stop_conversion() {
    let tree = convert(vec![
        ident("f", 1),
        tok(TokenType::LeftParen, 1),
        tok(TokenType::Semicolon, 1),
        num(2.0, 1),
        tok(TokenType::RightParen, 1),
        ident("z", 2),
    ]);
    assert_eq!(tree.nodes.len(), 2);
    let f = &tree.nodes[0];
    assert_eq!(f.children.len(), 2);
    assert_leaf(&f.children[0], NodeType::Error, None, 1);
    assert_leaf(&f.children[1], NodeType::Number, number(2.0), 1);
    assert_leaf(&tree.nodes[1], NodeType::Identifier, text("z"), 2);
}

#[test]
fn parser_appends_to_its_tree() {
    let mut p = Parser::new(vec![
        tok(TokenType::Operator("-".to_string()), 1),
        ident("q", 1),
    ]);
    assert!(p.tree.nodes.is_empty());
    p.parse();
    assert_eq!(p.tree.nodes.len(), 2);
    assert_leaf(&p.tree.nodes[0], NodeType::Operator, text("-"), 1);
    assert_leaf(&p.tree.nodes[1], NodeType::Identifier, text("q"), 1);
    p.parse();
    assert_eq!(p.tree.nodes.len(), 2);
}

#[test]
fn node_add_child_keeps_order() {
    let mut n = Node::new(NodeType::FunctionCall, text("m"), 1);
    n.add_child(Node::new(NodeType::Number, number(1.5), 1));
    n.add_child(Node::new(NodeType::Keyword, text("k"), 2));
    assert_eq!(n.children.len(), 2);
    assert_leaf(&n.children[0], NodeType::Number, number(1.5), 1);
    assert_leaf(&n.children[1], NodeType::Keyword, text("k"), 2);
}

fn nested_calls(heads: usize) -> Vec<Token> {
    let mut tokens = Vec::new();
    for _ in 0..heads {
        tokens.push(ident("f", 1));
        tokens.push(tok(TokenType::LeftParen, 1));
    }
    tokens.push(num(1.0, 2));
    for _ in 0..heads {
        tokens.push(tok(TokenType::RightParen, 3));
    }
    tokens.push(ident("after", 4));
    tokens
}

#[test]
fn nesting_up_to_the_limit_builds_calls() {
    let tree = convert(nested_calls(MAX_NESTING));
    assert_eq!(tree.nodes.len(), 2);
    let mut n = &tree.nodes[0];
    for _ in 0..MAX_NESTING {
        assert_eq!(n.node_type, NodeType::FunctionCall);
        assert_eq!(n.children.len(), 1);
        n = &n.children[0];
    }
    assert_leaf(n, NodeType::Number, number(1.0), 2);
    assert_leaf(&tree.nodes[1], NodeType::Identifier, text("after"), 4);
}

#[test]
fn nesting_past_the_limit_becomes_an_error() {
    let tree = convert(nested_calls(MAX_NESTING + 2));
    assert_eq!(tree.nodes.len(), 2);
    let mut n = &tree.nodes[0];
    for _ in 0..MAX_NESTING {
        assert_eq!(n.node_type, NodeType::FunctionCall);
        assert_eq!(n.value, text("f"));
        assert_eq!(n.children.len(), 1);
        n = &n.children[0];
    }
    assert_leaf(n, NodeType::Error, None, 1);
    assert_leaf(&tree.nodes[1], NodeType::Identifier, text("after"), 4);
}
