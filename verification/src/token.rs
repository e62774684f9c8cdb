//! The token vocabulary shared by the lexer and the parser: a closed set of
//! token types, some carrying their literal text, each token paired with the
//! 1-based source line it came from.

use vstd::prelude::*;

verus! {

/// The classification of one lexical unit. Payload-bearing variants carry the
/// literal text: an operator's name (such as "Add" or "EqEq"), an identifier,
/// a keyword, a string body, the digits of a number, a character literal.
#[derive(Debug, PartialEq, Eq, Hash)]
pub enum TokenType {
    LeftParen,
    RightParen,
    LeftBrace,
    RightBrace,
    Comma,
    Dot,
    Operator(String),
    Identifier(String),
    True,
    False,
    NoneLiteral,
    Str(String),
    Number(String),
    Character(String),
    Keyword(String),
    DataType(String),
    Eof,
}

/// Mathematical model of a token type: the same variants with the literal
/// text as a sequence of characters.
pub enum SpecTokenType {
    LeftParen,
    RightParen,
    LeftBrace,
    RightBrace,
    Comma,
    Dot,
    Operator(Seq<char>),
    Identifier(Seq<char>),
    True,
    False,
    NoneLiteral,
    Str(Seq<char>),
    Number(Seq<char>),
    Character(Seq<char>),
    Keyword(Seq<char>),
    DataType(Seq<char>),
    Eof,
}

impl View for TokenType {
    type V = SpecTokenType;

    open spec fn view(&self) -> SpecTokenType {
        match self {
            TokenType::LeftParen => SpecTokenType::LeftParen,
            TokenType::RightParen => SpecTokenType::RightParen,
            TokenType::LeftBrace => SpecTokenType::LeftBrace,
            TokenType::RightBrace => SpecTokenType::RightBrace,
            TokenType::Comma => SpecTokenType::Comma,
            TokenType::Dot => SpecTokenType::Dot,
            TokenType::Operator(s) => SpecTokenType::Operator(s@),
            TokenType::Identifier(s) => SpecTokenType::Identifier(s@),
            TokenType::True => SpecTokenType::True,
            TokenType::False => SpecTokenType::False,
            TokenType::NoneLiteral => SpecTokenType::NoneLiteral,
            TokenType::Str(s) => SpecTokenType::Str(s@),
            TokenType::Number(s) => SpecTokenType::Number(s@),
            TokenType::Character(s) => SpecTokenType::Character(s@),
            TokenType::Keyword(s) => SpecTokenType::Keyword(s@),
            TokenType::DataType(s) => SpecTokenType::DataType(s@),
            TokenType::Eof => SpecTokenType::Eof,
        }
    }
}

/// The literal text carried by a token type, if its variant has one.
pub open spec fn spec_payload(t: SpecTokenType) -> Option<Seq<char>> {
    match t {
        SpecTokenType::Operator(s) => Option::Some(s),
        SpecTokenType::Identifier(s) => Option::Some(s),
        SpecTokenType::Str(s) => Option::Some(s),
        SpecTokenType::Number(s) => Option::Some(s),
        SpecTokenType::Character(s) => Option::Some(s),
        SpecTokenType::Keyword(s) => Option::Some(s),
        SpecTokenType::DataType(s) => Option::Some(s),
        _ => Option::None,
    }
}

/// The display text of a token type: its payload where it has one, the
/// variant's name otherwise.
pub open spec fn spec_token_text(t: SpecTokenType) -> Seq<char> {
    match t {
        SpecTokenType::LeftParen => "LeftParen"@,
        SpecTokenType::RightParen => "RightParen"@,
        SpecTokenType::LeftBrace => "LeftBrace"@,
        SpecTokenType::RightBrace => "RightBrace"@,
        SpecTokenType::Comma => "Comma"@,
        SpecTokenType::Dot => "Dot"@,
        SpecTokenType::Operator(s) => s,
        SpecTokenType::Identifier(s) => s,
        SpecTokenType::True => "True"@,
        SpecTokenType::False => "False"@,
        SpecTokenType::NoneLiteral => "None"@,
        SpecTokenType::Str(s) => s,
        SpecTokenType::Number(s) => s,
        SpecTokenType::Character(s) => s,
        SpecTokenType::Keyword(s) => s,
        SpecTokenType::DataType(s) => s,
        SpecTokenType::Eof => "Eof"@,
    }
}

impl TokenType {
    /// Returns a copy of the literal text for payload-bearing variants,
    /// nothing for the structural variants.
    pub fn unwrap(&self) -> (r: Option<String>)
        ensures
            match r {
                Option::Some(s) => spec_payload(self@) == Option::Some(s@),
                Option::None => spec_payload(self@) is None,
            },
    {
        match self {
            TokenType::Identifier(s) => Option::Some(s.clone()),
            TokenType::Str(s) => Option::Some(s.clone()),
            TokenType::Number(s) => Option::Some(s.clone()),
            TokenType::Character(s) => Option::Some(s.clone()),
            TokenType::Keyword(s) => Option::Some(s.clone()),
            TokenType::DataType(s) => Option::Some(s.clone()),
            TokenType::Operator(s) => Option::Some(s.clone()),
            _ => Option::None,
        }
    }
}

impl Clone for TokenType {
    /// A copy equal to the original.
    fn clone(&self) -> (r: TokenType)
        ensures
            r == *self,
    {
        match self {
            TokenType::LeftParen => TokenType::LeftParen,
            TokenType::RightParen => TokenType::RightParen,
            TokenType::LeftBrace => TokenType::LeftBrace,
            TokenType::RightBrace => TokenType::RightBrace,
            TokenType::Comma => TokenType::Comma,
            TokenType::Dot => TokenType::Dot,
            TokenType::Operator(s) => TokenType::Operator(s.clone()),
            TokenType::Identifier(s) => TokenType::Identifier(s.clone()),
            TokenType::True => TokenType::True,
            TokenType::False => TokenType::False,
            TokenType::NoneLiteral => TokenType::NoneLiteral,
            TokenType::Str(s) => TokenType::Str(s.clone()),
            TokenType::Number(s) => TokenType::Number(s.clone()),
            TokenType::Character(s) => TokenType::Character(s.clone()),
            TokenType::Keyword(s) => TokenType::Keyword(s.clone()),
            TokenType::DataType(s) => TokenType::DataType(s.clone()),
            TokenType::Eof => TokenType::Eof,
        }
    }
}

/// Mathematical model of a token: its classification and its 1-based line.
pub struct SpecToken {
    pub token_type: SpecTokenType,
    pub line: int,
}

/// One lexical unit: its classification and the 1-based source line on which
/// it starts. Produced by the lexer and never mutated afterwards.
#[derive(Debug, PartialEq, Eq, Hash)]
pub struct Token {
    pub token_type: TokenType,
    pub line: usize,
}

impl View for Token {
    type V = SpecToken;

    open spec fn view(&self) -> SpecToken {
        SpecToken { token_type: self.token_type@, line: self.line as int }
    }
}

impl Clone for Token {
    /// A copy equal to the original.
    fn clone(&self) -> (r: Token)
        ensures
            r == *self,
    {
        Token { token_type: self.token_type.clone(), line: self.line }
    }
}

impl Token {
    /// Pairs a token type with the line it was read on.
    pub fn new(token_type: TokenType, line: usize) -> (r: Token)
        ensures
            r@ == (SpecToken { token_type: token_type@, line: line as int }),
    {
        Token { token_type, line }
    }

    /// The display text of the token: its literal text where its type carries
    /// one, the name of the type otherwise.
    pub fn as_string(&self) -> (r: String)
        ensures
            r@ == spec_token_text(self@.token_type),
    {
        match &self.token_type {
            TokenType::LeftParen => String::from_str("LeftParen"),
            TokenType::RightParen => String::from_str("RightParen"),
            TokenType::LeftBrace => String::from_str("LeftBrace"),
            TokenType::RightBrace => String::from_str("RightBrace"),
            TokenType::Comma => String::from_str("Comma"),
            TokenType::Dot => String::from_str("Dot"),
            TokenType::Operator(s) => s.clone(),
            TokenType::Identifier(s) => s.clone(),
            TokenType::True => String::from_str("True"),
            TokenType::False => String::from_str("False"),
            TokenType::NoneLiteral => String::from_str("None"),
            TokenType::Str(s) => s.clone(),
            TokenType::Number(s) => s.clone(),
            TokenType::Character(s) => s.clone(),
            TokenType::Keyword(s) => s.clone(),
            TokenType::DataType(s) => s.clone(),
            TokenType::Eof => String::from_str("Eof"),
        }
    }
}

/// The models of a sequence of tokens, in order.
pub open spec fn toks_view(ts: Seq<Token>) -> Seq<SpecToken> {
    ts.map_values(|t: Token| t@)
}

/// Appending a token to a sequence appends its model to the sequence's model.
pub proof fn lemma_toks_view_push(ts: Seq<Token>, t: Token)
    ensures
        toks_view(ts.push(t)) == toks_view(ts).push(t@),
{
    assert(toks_view(ts.push(t)) =~= toks_view(ts).push(t@));
}

} // verus!
