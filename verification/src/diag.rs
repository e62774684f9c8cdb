//! Typed diagnostics. Every fatal condition carries its kind and the 1-based
//! source line it is attributed to; bracket-balance problems are collected
//! and reported as a batch.

use vstd::prelude::*;

verus! {

/// Which bracket family a balance diagnostic is about.
#[derive(Debug, Clone, Copy, PartialEq, Eq, Structural)]
pub enum BracketKind {
    Paren,
    Brace,
}

/// One bracket-balance diagnostic: an excess opening bracket (`opening`
/// true) or an excess closing bracket, with the line it was recorded on.
#[derive(Debug, Clone, Copy, PartialEq, Eq, Structural)]
pub struct BalanceDiag {
    pub bracket: BracketKind,
    pub opening: bool,
    pub line: usize,
}

/// Mathematical model of a balance diagnostic.
pub struct SpecBalanceDiag {
    pub bracket: BracketKind,
    pub opening: bool,
    pub line: int,
}

impl View for BalanceDiag {
    type V = SpecBalanceDiag;

    open spec fn view(&self) -> SpecBalanceDiag {
        SpecBalanceDiag { bracket: self.bracket, opening: self.opening, line: self.line as int }
    }
}

/// The models of a sequence of balance diagnostics, in order.
pub open spec fn diags_view(ds: Seq<BalanceDiag>) -> Seq<SpecBalanceDiag> {
    ds.map_values(|d: BalanceDiag| d@)
}

/// A fatal lexical condition. The structural variants are detected eagerly
/// at the point of occurrence; `Unbalanced` is the batch of bracket-balance
/// diagnostics collected by the post-pass over the full token sequence.
#[derive(Debug, PartialEq, Eq)]
pub enum LexError {
    UnterminatedString { line: usize },
    UnterminatedCharacterLiteral { line: usize },
    InvalidEscape { line: usize },
    InvalidIdentifierCharacter { ch: char, line: usize },
    UnexpectedCharacter { ch: char, line: usize },
    Unbalanced(Vec<BalanceDiag>),
}

/// Mathematical model of a lexical error.
pub enum SpecLexError {
    UnterminatedString { line: int },
    UnterminatedCharacterLiteral { line: int },
    InvalidEscape { line: int },
    InvalidIdentifierCharacter { ch: char, line: int },
    UnexpectedCharacter { ch: char, line: int },
    Unbalanced(Seq<SpecBalanceDiag>),
}

impl View for LexError {
    type V = SpecLexError;

    open spec fn view(&self) -> SpecLexError {
        match self {
            LexError::UnterminatedString { line } => SpecLexError::UnterminatedString {
                line: *line as int,
            },
            LexError::UnterminatedCharacterLiteral { line } => SpecLexError::UnterminatedCharacterLiteral {
                line: *line as int,
            },
            LexError::InvalidEscape { line } => SpecLexError::InvalidEscape { line: *line as int },
            LexError::InvalidIdentifierCharacter { ch, line } => SpecLexError::InvalidIdentifierCharacter {
                ch: *ch,
                line: *line as int,
            },
            LexError::UnexpectedCharacter { ch, line } => SpecLexError::UnexpectedCharacter {
                ch: *ch,
                line: *line as int,
            },
            LexError::Unbalanced(ds) => SpecLexError::Unbalanced(diags_view(ds@)),
        }
    }
}

/// Which token the parser was owed when the stream offered something else
/// (or ran out) inside a `def`/`if`/call form.
#[derive(Debug, Clone, Copy, PartialEq, Eq, Structural)]
pub enum ExpectedKind {
    Identifier,
    LeftParen,
    RightParen,
    LeftBrace,
}

/// A fatal structural condition met while parsing. `ExpectedComma` names the
/// construct whose argument list lacked its separating comma;
/// `MalformedExpression` is an expression run whose operators outnumber what
/// their operands can satisfy.
#[derive(Debug, PartialEq, Eq)]
pub enum ParseError {
    ExpectedComma { context: String, line: usize },
    ExpectedToken { expected: ExpectedKind, line: usize },
    MalformedExpression { line: usize },
}

/// Mathematical model of a parse error.
pub enum SpecParseError {
    ExpectedComma { context: Seq<char>, line: int },
    ExpectedToken { expected: ExpectedKind, line: int },
    MalformedExpression { line: int },
}

impl View for ParseError {
    type V = SpecParseError;

    open spec fn view(&self) -> SpecParseError {
        match self {
            ParseError::ExpectedComma { context, line } => SpecParseError::ExpectedComma {
                context: context@,
                line: *line as int,
            },
            ParseError::ExpectedToken { expected, line } => SpecParseError::ExpectedToken {
                expected: *expected,
                line: *line as int,
            },
            ParseError::MalformedExpression { line } => SpecParseError::MalformedExpression {
                line: *line as int,
            },
        }
    }
}

} // verus!
