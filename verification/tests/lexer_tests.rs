use crane_front::diag::{BalanceDiag, BracketKind, LexError};
use crane_front::lexer::Lexer;
use crane_front::token::{Token, TokenType};

fn lex_ok(source: &str) -> Vec<Token> {
    let mut lexer = Lexer::new(source);
    lexer.lex().expect("lexing should succeed");
    lexer.tokens
}

fn lex_err(source: &str) -> LexError {
    let mut lexer = Lexer::new(source);
    lexer.lex().expect_err("lexing should fail")
}

fn kinds(tokens: &[Token]) -> Vec<TokenType> {
    tokens.iter().map(|t| t.token_type.clone()).collect()
}

#[test]
fn empty_source_yields_only_eof() {
    let tokens = lex_ok("");
    assert_eq!(kinds(&tokens), vec![TokenType::Eof]);
    assert_eq!(tokens[0].line, 1);
}

#[test]
fn structural_tokens() {
    let tokens = lex_ok("(){},.");
    assert_eq!(
        kinds(&tokens),
        vec![
            TokenType::LeftParen,
            TokenType::RightParen,
            TokenType::LeftBrace,
            TokenType::RightBrace,
            TokenType::Comma,
            TokenType::Dot,
            TokenType::Eof,
        ]
    );
}

#[test]
fn single_character_operators() {
    let tokens = lex_ok("- + * / % ^ & | ! = < >");
    let expected = ["Sub", "Add", "Mul", "Div", "Mod", "Pow", "And", "Or", "Not", "Eq", "Less", "Greater"];
    for (i, name) in expected.iter().enumerate() {
        assert_eq!(tokens[i].token_type, TokenType::Operator(name.to_string()));
    }
    assert_eq!(tokens[expected.len()].token_type, TokenType::Eof);
}

#[test]
fn compound_operators() {
    let tokens = lex_ok("-= += *= /= %= ^= &= |= != == <= >=");
    let expected = [
        "SubEq", "AddEq", "MulEq", "DivEq", "ModEq", "PowEq", "AndEq", "OrEq", "NotEq", "EqEq",
        "LessEq", "GreaterEq",
    ];
    for (i, name) in expected.iter().enumerate() {
        assert_eq!(tokens[i].token_type, TokenType::Operator(name.to_string()));
    }
}

#[test]
fn keywords_and_literals() {
    let tokens = lex_ok("if else while for break continue return def let True true False false None other");
    let mut expected: Vec<TokenType> = Vec::new();
    for kw in ["if", "else", "while", "for", "break", "continue", "return", "def", "let"] {
        expected.push(TokenType::Keyword(kw.to_string()));
    }
    expected.push(TokenType::True);
    expected.push(TokenType::True);
    expected.push(TokenType::False);
    expected.push(TokenType::False);
    expected.push(TokenType::NoneLiteral);
    expected.push(TokenType::Identifier("other".to_string()));
    expected.push(TokenType::Eof);
    assert_eq!(kinds(&tokens), expected);
}

#[test]
fn numbers_store_raw_text() {
    let tokens = lex_ok("123 907");
    assert_eq!(tokens[0].token_type, TokenType::Number("123".to_string()));
    assert_eq!(tokens[1].token_type, TokenType::Number("907".to_string()));
}

#[test]
fn leading_zero_is_unexpected() {
    assert_eq!(lex_err("0"), LexError::UnexpectedCharacter { ch: '0', line: 1 });
}

#[test]
fn unexpected_character_reports_line() {
    assert_eq!(lex_err("a\n@"), LexError::UnexpectedCharacter { ch: '@', line: 2 });
}

#[test]
fn newlines_advance_the_line_counter() {
    let tokens = lex_ok("a\nb\n\nc");
    assert_eq!(tokens[0].line, 1);
    assert_eq!(tokens[1].line, 2);
    assert_eq!(tokens[2].line, 4);
    assert_eq!(tokens[3].line, 4);
    assert_eq!(tokens[3].token_type, TokenType::Eof);
}

#[test]
fn string_literal_basic() {
    let tokens = lex_ok("\"hello world\"");
    assert_eq!(tokens[0].token_type, TokenType::Str("hello world".to_string()));
}

#[test]
fn string_escape_newline_becomes_real_newline() {
    let tokens = lex_ok("\"a\\nb\"");
    assert_eq!(tokens[0].token_type, TokenType::Str("a\nb".to_string()));
}

#[test]
fn string_escape_table() {
    let tokens = lex_ok("\"\\t\\r\\0\\\"\\'\\\\\"");
    assert_eq!(tokens[0].token_type, TokenType::Str("\t\r\0\"'\\".to_string()));
}

#[test]
fn string_unknown_escape_passes_through() {
    let tokens = lex_ok("\"\\q\"");
    assert_eq!(tokens[0].token_type, TokenType::Str("q".to_string()));
}

#[test]
fn unterminated_string_reports_start_line() {
    assert_eq!(lex_err("\n\"abc"), LexError::UnterminatedString { line: 2 });
}

#[test]
fn string_embedded_newline_counts() {
    let tokens = lex_ok("\"a\nb\" c");
    assert_eq!(tokens[0].token_type, TokenType::Str("a\nb".to_string()));
    assert_eq!(tokens[1].token_type, TokenType::Identifier("c".to_string()));
    assert_eq!(tokens[1].line, 2);
}

#[test]
fn character_literal_basic() {
    let tokens = lex_ok("'a'");
    assert_eq!(tokens[0].token_type, TokenType::Character("a".to_string()));
}

#[test]
fn character_literal_escape() {
    let tokens = lex_ok("'\\n'");
    assert_eq!(tokens[0].token_type, TokenType::Character("\n".to_string()));
}

#[test]
fn character_literal_bad_escape() {
    assert_eq!(lex_err("'\\q'"), LexError::InvalidEscape { line: 1 });
}

#[test]
fn character_literal_unterminated() {
    assert_eq!(lex_err("'a"), LexError::UnterminatedCharacterLiteral { line: 1 });
}

#[test]
fn character_literal_missing_close_quote() {
    assert_eq!(lex_err("'ab"), LexError::UnterminatedCharacterLiteral { line: 1 });
}

#[test]
fn identifier_with_underscore_and_dot() {
    let tokens = lex_ok("foo_bar.baz");
    assert_eq!(tokens[0].token_type, TokenType::Identifier("foo_bar.baz".to_string()));
}

#[test]
fn identifier_stops_at_delimiters() {
    let tokens = lex_ok("x=5");
    assert_eq!(
        kinds(&tokens),
        vec![
            TokenType::Identifier("x".to_string()),
            TokenType::Operator("Eq".to_string()),
            TokenType::Number("5".to_string()),
            TokenType::Eof,
        ]
    );
}

#[test]
fn invalid_identifier_character() {
    assert_eq!(lex_err("foo#bar"), LexError::InvalidIdentifierCharacter { ch: '#', line: 1 });
}

#[test]
fn balanced_brackets_pass() {
    let tokens = lex_ok("({}) {} ()");
    assert_eq!(tokens.last().unwrap().token_type, TokenType::Eof);
}

#[test]
fn excess_open_parens_reported_most_recent_first() {
    let err = lex_err("(\n(\n(");
    let expected = vec![
        BalanceDiag { bracket: BracketKind::Paren, opening: true, line: 3 },
        BalanceDiag { bracket: BracketKind::Paren, opening: true, line: 2 },
        BalanceDiag { bracket: BracketKind::Paren, opening: true, line: 1 },
    ];
    assert_eq!(err, LexError::Unbalanced(expected));
}

#[test]
fn excess_close_parens_reported_most_recent_first() {
    let err = lex_err(")\n)");
    let expected = vec![
        BalanceDiag { bracket: BracketKind::Paren, opening: false, line: 2 },
        BalanceDiag { bracket: BracketKind::Paren, opening: false, line: 1 },
    ];
    assert_eq!(err, LexError::Unbalanced(expected));
}

#[test]
fn one_excess_per_unmatched_bracket() {
    let err = lex_err("((()");
    match err {
        LexError::Unbalanced(diags) => {
            assert_eq!(diags.len(), 2);
            assert!(diags.iter().all(|d| d.bracket == BracketKind::Paren && d.opening));
        }
        other => panic!("expected a balance batch, got {:?}", other),
    }
}

#[test]
fn excess_braces_follow_paren_diagnostics() {
    let err = lex_err("({");
    let expected = vec![
        BalanceDiag { bracket: BracketKind::Paren, opening: true, line: 1 },
        BalanceDiag { bracket: BracketKind::Brace, opening: true, line: 1 },
    ];
    assert_eq!(err, LexError::Unbalanced(expected));
}

#[test]
fn excess_close_brace() {
    let err = lex_err("}");
    let expected = vec![BalanceDiag { bracket: BracketKind::Brace, opening: false, line: 1 }];
    assert_eq!(err, LexError::Unbalanced(expected));
}

#[test]
fn relexing_is_deterministic() {
    let source = "def add(a, b) { a + b }\nx = add(1, 2)\n\"s\\n\" 'c'";
    let first = lex_ok(source);
    let second = lex_ok(source);
    assert_eq!(first, second);
}

#[test]
fn whitespace_is_discarded() {
    let tokens = lex_ok("  \t\r  a  ");
    assert_eq!(
        kinds(&tokens),
        vec![TokenType::Identifier("a".to_string()), TokenType::Eof]
    );
}

#[test]
fn token_as_string() {
    assert_eq!(Token::new(TokenType::LeftParen, 1).as_string(), "LeftParen");
    assert_eq!(Token::new(TokenType::Operator("Add".to_string()), 1).as_string(), "Add");
    assert_eq!(Token::new(TokenType::Str("txt".to_string()), 2).as_string(), "txt");
    assert_eq!(Token::new(TokenType::Eof, 3).as_string(), "Eof");
    assert_eq!(Token::new(TokenType::NoneLiteral, 3).as_string(), "None");
}

#[test]
fn token_type_unwrap() {
    assert_eq!(
        TokenType::Operator("Add".to_string()).unwrap(),
        Some("Add".to_string())
    );
    assert_eq!(
        TokenType::Identifier("x".to_string()).unwrap(),
        Some("x".to_string())
    );
    assert_eq!(TokenType::LeftParen.unwrap(), None);
    assert_eq!(TokenType::True.unwrap(), None);
}
