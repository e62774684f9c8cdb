use crane_front::diag::{ExpectedKind, ParseError};
use crane_front::lexer::Lexer;
use crane_front::parser::Parser;
use crane_front::tree::{Node, NodeType};

fn parse_ok(source: &str) -> Vec<Node> {
    let mut lexer = Lexer::new(source);
    lexer.lex().expect("lexing should succeed");
    let mut parser = Parser::new(lexer.tokens);
    parser.parse().expect("parsing should succeed");
    parser.tree.nodes
}

fn parse_err(source: &str) -> ParseError {
    let mut lexer = Lexer::new(source);
    lexer.lex().expect("lexing should succeed");
    let mut parser = Parser::new(lexer.tokens);
    parser.parse().expect_err("parsing should fail")
}

fn leaf_is(node: &Node, node_type: NodeType, value: &str) -> bool {
    node.node_type == node_type
        && node.value.as_deref() == Some(value)
        && node.children.is_empty()
}

#[test]
fn top_level_node_per_statement() {
    let nodes = parse_ok("foo(1)\nif (x) { y }\nz = 2");
    assert_eq!(nodes.len(), 3);
    assert_eq!(nodes[0].node_type, NodeType::FunctionCall);
    assert_eq!(nodes[1].node_type, NodeType::Conditional);
    assert_eq!(nodes[2].node_type, NodeType::Reassignment);
}

#[test]
fn multiplication_binds_tighter_than_addition() {
    let nodes = parse_ok("1 + 2 * 3");
    assert_eq!(nodes.len(), 1);
    let root = &nodes[0];
    assert!(root.node_type == NodeType::Operator);
    assert_eq!(root.value.as_deref(), Some("Add"));
    assert_eq!(root.children.len(), 2);
    assert!(leaf_is(&root.children[0], NodeType::Number, "1"));
    let mul = &root.children[1];
    assert_eq!(mul.node_type, NodeType::Operator);
    assert_eq!(mul.value.as_deref(), Some("Mul"));
    assert!(leaf_is(&mul.children[0], NodeType::Number, "2"));
    assert!(leaf_is(&mul.children[1], NodeType::Number, "3"));
}

#[test]
fn subtraction_is_left_associative() {
    let nodes = parse_ok("1 - 2 - 3");
    assert_eq!(nodes.len(), 1);
    let root = &nodes[0];
    assert_eq!(root.node_type, NodeType::Operator);
    assert_eq!(root.value.as_deref(), Some("Sub"));
    let inner = &root.children[0];
    assert_eq!(inner.node_type, NodeType::Operator);
    assert_eq!(inner.value.as_deref(), Some("Sub"));
    assert!(leaf_is(&inner.children[0], NodeType::Number, "1"));
    assert!(leaf_is(&inner.children[1], NodeType::Number, "2"));
    assert!(leaf_is(&root.children[1], NodeType::Number, "3"));
}

#[test]
fn parenthesized_group_becomes_left_operand() {
    let nodes = parse_ok("r = (1 + 2) * 3");
    assert_eq!(nodes.len(), 1);
    let rhs = &nodes[0].children[1];
    assert_eq!(rhs.node_type, NodeType::Operator);
    assert_eq!(rhs.value.as_deref(), Some("Mul"));
    let add = &rhs.children[0];
    assert_eq!(add.node_type, NodeType::Operator);
    assert_eq!(add.value.as_deref(), Some("Add"));
    assert!(leaf_is(&add.children[0], NodeType::Number, "1"));
    assert!(leaf_is(&add.children[1], NodeType::Number, "2"));
    assert!(leaf_is(&rhs.children[1], NodeType::Number, "3"));
}

#[test]
fn function_call_with_three_arguments() {
    let nodes = parse_ok("foo(1,2,3)");
    assert_eq!(nodes.len(), 1);
    let call = &nodes[0];
    assert_eq!(call.node_type, NodeType::FunctionCall);
    assert_eq!(call.value.as_deref(), Some("foo"));
    assert_eq!(call.children.len(), 3);
    assert!(leaf_is(&call.children[0], NodeType::Number, "1"));
    assert!(leaf_is(&call.children[1], NodeType::Number, "2"));
    assert!(leaf_is(&call.children[2], NodeType::Number, "3"));
}

#[test]
fn function_call_missing_comma_is_fatal() {
    let err = parse_err("foo(1 2)");
    assert_eq!(err, ParseError::ExpectedComma { context: "foo".to_string(), line: 1 });
}

#[test]
fn function_definition_shape() {
    let nodes = parse_ok("def add(a, b) { a + b }");
    assert_eq!(nodes.len(), 1);
    let def = &nodes[0];
    assert_eq!(def.node_type, NodeType::Function);
    assert_eq!(def.value.as_deref(), Some("add"));
    assert_eq!(def.children.len(), 3);
    assert!(leaf_is(&def.children[0], NodeType::Identifier, "a"));
    assert!(leaf_is(&def.children[1], NodeType::Identifier, "b"));
    let body = &def.children[2];
    assert_eq!(body.node_type, NodeType::Block);
    assert_eq!(body.value, None);
    assert!(leaf_is(&body.children[0], NodeType::Identifier, "a"));
    assert!(leaf_is(&body.children[1], NodeType::Operator, "Add"));
    assert!(leaf_is(&body.children[2], NodeType::Identifier, "b"));
}

#[test]
fn function_definition_empty_parameter_list() {
    let nodes = parse_ok("def f() { }");
    let def = &nodes[0];
    assert_eq!(def.node_type, NodeType::Function);
    assert_eq!(def.children.len(), 1);
    assert_eq!(def.children[0].node_type, NodeType::Block);
    assert!(def.children[0].children.is_empty());
}

#[test]
fn def_missing_name_is_fatal() {
    let err = parse_err("def (a) { }");
    assert_eq!(err, ParseError::ExpectedToken { expected: ExpectedKind::Identifier, line: 1 });
}

#[test]
fn def_missing_left_paren_is_fatal() {
    let err = parse_err("def f a () { }");
    assert_eq!(err, ParseError::ExpectedToken { expected: ExpectedKind::LeftParen, line: 1 });
}

#[test]
fn def_missing_left_brace_is_fatal() {
    let err = parse_err("def f(a) 5");
    assert_eq!(err, ParseError::ExpectedToken { expected: ExpectedKind::LeftBrace, line: 1 });
}

#[test]
fn def_missing_comma_is_fatal() {
    let err = parse_err("def f(a b) { }");
    assert_eq!(err, ParseError::ExpectedComma { context: "def".to_string(), line: 1 });
}

#[test]
fn conditional_shape() {
    let nodes = parse_ok("if (x) { y }");
    assert_eq!(nodes.len(), 1);
    let cond = &nodes[0];
    assert_eq!(cond.node_type, NodeType::Conditional);
    assert_eq!(cond.value.as_deref(), Some("if"));
    assert_eq!(cond.children.len(), 2);
    assert!(leaf_is(&cond.children[0], NodeType::Identifier, "x"));
    let body = &cond.children[1];
    assert_eq!(body.node_type, NodeType::Block);
    assert!(leaf_is(&body.children[0], NodeType::Identifier, "y"));
}

#[test]
fn nested_conditional_keeps_outer_block_open() {
    let nodes = parse_ok("if (x) { if (y) { z } w }");
    assert_eq!(nodes.len(), 1);
    let outer = &nodes[0];
    assert_eq!(outer.node_type, NodeType::Conditional);
    let body = &outer.children[1];
    assert_eq!(body.node_type, NodeType::Block);
    assert_eq!(body.children.len(), 2);
    assert_eq!(body.children[0].node_type, NodeType::Conditional);
    assert!(leaf_is(&body.children[1], NodeType::Identifier, "w"));
}

#[test]
fn if_missing_left_paren_is_fatal() {
    let err = parse_err("if x { }");
    assert_eq!(err, ParseError::ExpectedToken { expected: ExpectedKind::LeftParen, line: 1 });
}

#[test]
fn if_missing_left_brace_is_fatal() {
    let err = parse_err("if (x) 5");
    assert_eq!(err, ParseError::ExpectedToken { expected: ExpectedKind::LeftBrace, line: 1 });
}

#[test]
fn reassignment_shape() {
    let nodes = parse_ok("x = 5");
    assert_eq!(nodes.len(), 1);
    let re = &nodes[0];
    assert_eq!(re.node_type, NodeType::Reassignment);
    assert_eq!(re.value, None);
    assert_eq!(re.children.len(), 2);
    assert!(leaf_is(&re.children[0], NodeType::Identifier, "x"));
    assert!(leaf_is(&re.children[1], NodeType::Number, "5"));
}

#[test]
fn reassignment_with_expression() {
    let nodes = parse_ok("x = 1 + 2");
    let rhs = &nodes[0].children[1];
    assert_eq!(rhs.node_type, NodeType::Operator);
    assert_eq!(rhs.value.as_deref(), Some("Add"));
}

#[test]
fn string_statement() {
    let nodes = parse_ok("\"hello\"");
    assert_eq!(nodes.len(), 1);
    assert!(leaf_is(&nodes[0], NodeType::Str, "hello"));
}

#[test]
fn bare_identifier_statement() {
    let nodes = parse_ok("foo");
    assert!(leaf_is(&nodes[0], NodeType::Identifier, "foo"));
}

#[test]
fn bare_number_statement() {
    let nodes = parse_ok("42");
    assert!(leaf_is(&nodes[0], NodeType::Number, "42"));
}

#[test]
fn other_keyword_is_a_leaf() {
    let nodes = parse_ok("return");
    assert!(leaf_is(&nodes[0], NodeType::Keyword, "return"));
}

#[test]
fn stray_delimiter_is_an_error_leaf() {
    let nodes = parse_ok(",");
    assert_eq!(nodes[0].node_type, NodeType::Error);
    assert_eq!(nodes[0].value, None);
    assert!(nodes[0].children.is_empty());
}

#[test]
fn operators_outnumbering_operands_are_fatal() {
    let err = parse_err("1 + * 2");
    assert_eq!(err, ParseError::MalformedExpression { line: 1 });
}

#[test]
fn reassignment_without_right_hand_side_is_fatal() {
    let err = parse_err("x = ");
    assert_eq!(err, ParseError::MalformedExpression { line: 1 });
}

#[test]
fn node_lines_follow_tokens() {
    let nodes = parse_ok("foo(1)\nbar(2)");
    assert_eq!(nodes[0].line, 1);
    assert_eq!(nodes[1].line, 2);
}

#[test]
fn reparsing_same_tokens_gives_equal_trees() {
    let source = "def f(a) { a }\nx = f(1) ";
    let first = parse_ok(source);
    let second = parse_ok(source);
    assert_eq!(format!("{:?}", first), format!("{:?}", second));
}

#[test]
fn bare_operator_statement_is_a_leaf() {
    let nodes = parse_ok("+");
    assert!(leaf_is(&nodes[0], NodeType::Operator, "Add"));
}

#[test]
fn lexed_comparison_operators_bind_loosest() {
    // The lexer names comparisons "Less"/"Greater"/"EqEq"/"NotEq", while the
    // precedence table recognizes "Lt"/"Gt"/"Le"/"Ge"/"Eq"/"Ne"; a lexed
    // comparison therefore binds looser than any arithmetic operator.
    let nodes = parse_ok("1 < 2 + 3");
    let root = &nodes[0];
    assert_eq!(root.node_type, NodeType::Operator);
    assert_eq!(root.value.as_deref(), Some("Less"));
    assert!(leaf_is(&root.children[0], NodeType::Number, "1"));
    let add = &root.children[1];
    assert_eq!(add.value.as_deref(), Some("Add"));
    assert!(leaf_is(&add.children[0], NodeType::Number, "2"));
    assert!(leaf_is(&add.children[1], NodeType::Number, "3"));
}

#[test]
fn call_argument_can_be_a_nested_call() {
    let nodes = parse_ok("f(g(1), 2)");
    let f = &nodes[0];
    assert_eq!(f.node_type, NodeType::FunctionCall);
    assert_eq!(f.children.len(), 2);
    let g = &f.children[0];
    assert_eq!(g.node_type, NodeType::FunctionCall);
    assert_eq!(g.value.as_deref(), Some("g"));
    assert!(leaf_is(&g.children[0], NodeType::Number, "1"));
    assert!(leaf_is(&f.children[1], NodeType::Number, "2"));
}

#[test]
fn punctuation_only_input_yields_one_node_per_token() {
    let nodes = parse_ok(", . + ,");
    assert_eq!(nodes.len(), 4);
    assert_eq!(nodes[0].node_type, NodeType::Error);
    assert_eq!(nodes[1].node_type, NodeType::Error);
    assert!(leaf_is(&nodes[2], NodeType::Operator, "Add"));
    assert_eq!(nodes[3].node_type, NodeType::Error);
}
