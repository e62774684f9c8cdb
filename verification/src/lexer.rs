//! The executable lexer: a forward-only character cursor with one-character
//! lookahead and a side-channel line counter. It is verified against the
//! model in `lex_spec`: lexing produces exactly the token sequence that
//! `lex_from` describes, and the bracket-balance post-pass reports exactly
//! the diagnostics that `balance_diags` describes.

use vstd::prelude::*;
use vstd::string::StrSliceExecFns;
use vstd::string::StringExecFns;

use crate::diag::BalanceDiag;
use crate::diag::BracketKind;
use crate::diag::LexError;
use crate::diag::diags_view;
use crate::lex_spec::CharLitIssue;
use crate::lex_spec::balance_diags;
use crate::lex_spec::bracket_lines;
use crate::lex_spec::escape_of;
use crate::lex_spec::excess_diags;
use crate::lex_spec::is_op_char;
use crate::lex_spec::keyword_token;
use crate::lex_spec::lex_from;
use crate::lex_spec::op_compound_name;
use crate::lex_spec::op_single_name;
use crate::lex_spec::read_char_s;
use crate::lex_spec::read_ident_s;
use crate::lex_spec::read_number_s;
use crate::lex_spec::read_string_s;
use crate::text::push_char;
use crate::token::SpecTokenType;
use crate::token::Token;
use crate::token::TokenType;
use crate::token::lemma_toks_view_push;
use crate::token::toks_view;

verus! {

/// The lexer: a forward-only cursor over the source characters, the 1-based
/// line counter, and the tokens produced so far.
#[derive(Debug)]
pub struct Lexer {
    pub source: Vec<char>,
    pub pos: usize,
    pub line: usize,
    pub tokens: Vec<Token>,
}

/// The models of a sequence of recorded lines.
pub open spec fn lines_view(ls: Seq<usize>) -> Seq<int> {
    ls.map_values(|l: usize| l as int)
}

/// Consuming one character moves the head of `remaining` off.
proof fn lemma_step(pre: Lexer, post: Lexer)
    requires
        pre.pos < pre.source@.len(),
        post.source@ == pre.source@,
        post.pos == pre.pos + 1,
    ensures
        pre.remaining().len() > 0,
        pre.remaining()[0] == pre.source@[pre.pos as int],
        post.remaining() == pre.remaining().drop_first(),
{
    assert(post.remaining() =~= pre.remaining().drop_first());
}

/// Consuming two characters removes the first two of `remaining`.
proof fn lemma_step2(pre: Lexer, post: Lexer)
    requires
        pre.pos + 2 <= pre.source@.len(),
        post.source@ == pre.source@,
        post.pos == pre.pos + 2,
    ensures
        pre.remaining().len() >= 2,
        pre.remaining()[0] == pre.source@[pre.pos as int],
        pre.remaining()[1] == pre.source@[pre.pos + 1],
        post.remaining() == pre.remaining().skip(2),
{
    assert(post.remaining() =~= pre.remaining().skip(2));
}

/// The character an escape stands for, per the escape table shared by string
/// and character literals.
fn escape_char(c: char) -> (r: Option<char>)
    ensures
        r == escape_of(c),
{
    match c {
        'n' => Option::Some('\n'),
        't' => Option::Some('\t'),
        'r' => Option::Some('\r'),
        '0' => Option::Some('\0'),
        '"' => Option::Some('"'),
        '\'' => Option::Some('\''),
        '\\' => Option::Some('\\'),
        _ => Option::None,
    }
}

/// The textual operator name for the operator-starting character `c`: the
/// compound, `=`-suffixed name when `two` is set, the single-character name
/// otherwise.
fn op_name(c: char, two: bool) -> (r: &'static str)
    requires
        is_op_char(c),
    ensures
        r@ == if two {
            op_compound_name(c)
        } else {
            op_single_name(c)
        },
{
    if c == '-' {
        if two { "SubEq" } else { "Sub" }
    } else if c == '+' {
        if two { "AddEq" } else { "Add" }
    } else if c == '*' {
        if two { "MulEq" } else { "Mul" }
    } else if c == '/' {
        if two { "DivEq" } else { "Div" }
    } else if c == '%' {
        if two { "ModEq" } else { "Mod" }
    } else if c == '^' {
        if two { "PowEq" } else { "Pow" }
    } else if c == '&' {
        if two { "AndEq" } else { "And" }
    } else if c == '|' {
        if two { "OrEq" } else { "Or" }
    } else if c == '!' {
        if two { "NotEq" } else { "Not" }
    } else if c == '=' {
        if two { "EqEq" } else { "Eq" }
    } else if c == '<' {
        if two { "LessEq" } else { "Less" }
    } else {
        if two { "GreaterEq" } else { "Greater" }
    }
}

/// The token type an identifier run becomes: a keyword of the fixed set, a
/// boolean or none literal, or a plain identifier carrying its text.
fn classify_word(text: String) -> (r: TokenType)
    ensures
        r@ == keyword_token(text@),
{
    if text == String::from_str("if") || text == String::from_str("else") || text
        == String::from_str("while") || text == String::from_str("for") || text
        == String::from_str("break") || text == String::from_str("continue") || text
        == String::from_str("return") || text == String::from_str("def") || text
        == String::from_str("let") {
        TokenType::Keyword(text)
    } else if text == String::from_str("True") || text == String::from_str("true") {
        TokenType::True
    } else if text == String::from_str("False") || text == String::from_str("false") {
        TokenType::False
    } else if text == String::from_str("None") {
        TokenType::NoneLiteral
    } else {
        TokenType::Identifier(text)
    }
}

impl Lexer {
    /// The characters not yet consumed.
    pub open spec fn remaining(&self) -> Seq<char> {
        self.source@.skip(self.pos as int)
    }

    /// The cursor does not pass the end, and the line counter stays clear of
    /// overflow because it grows at most once per consumed character.
    pub open spec fn wf(&self) -> bool {
        &&& self.pos <= self.source@.len()
        &&& 1 <= self.line
        &&& self.line as int + self.source@.len() as int - self.pos as int <= usize::MAX as int
    }

    /// Initializes a character cursor over the source, line 1, no tokens.
    pub fn new(source: &str) -> (r: Lexer)
        requires
            source@.len() < usize::MAX,
        ensures
            r.wf(),
            r.source@ == source@,
            r.pos == 0,
            r.line == 1,
            r.tokens@ == Seq::<Token>::empty(),
    {
        let n = source.unicode_len();
        let mut cs: Vec<char> = Vec::new();
        let mut i: usize = 0;
        while i < n
            invariant
                i <= n,
                n as nat == source@.len(),
                cs@ == source@.subrange(0, i as int),
            decreases n - i,
        {
            let c = source.get_char(i);
            cs.push(c);
            i = i + 1;
            proof {
                assert(cs@ =~= source@.subrange(0, i as int));
            }
        }
        proof {
            assert(cs@ =~= source@);
        }
        Lexer { source: cs, pos: 0, line: 1, tokens: Vec::new() }
    }

    /// The next character, if any is left, without consuming it.
    fn peek(&self) -> (r: Option<char>)
        ensures
            r == if self.pos < self.source@.len() {
                Option::Some(self.source@[self.pos as int])
            } else {
                Option::None
            },
    {
        if self.pos < self.source.len() {
            Option::Some(self.source[self.pos])
        } else {
            Option::None
        }
    }

    /// Consumes and returns the next character, if any is left.
    fn next(&mut self) -> (r: Option<char>)
        requires
            old(self).wf(),
        ensures
            final(self).wf(),
            final(self).source@ == old(self).source@,
            final(self).tokens@ == old(self).tokens@,
            final(self).line == old(self).line,
            match r {
                Option::Some(c) => old(self).pos < old(self).source@.len() && c == old(
                    self,
                ).source@[old(self).pos as int] && final(self).pos == old(self).pos + 1,
                Option::None => old(self).pos == old(self).source@.len() && final(self).pos == old(
                    self,
                ).pos,
            },
    {
        if self.pos < self.source.len() {
            let c = self.source[self.pos];
            self.pos = self.pos + 1;
            Option::Some(c)
        } else {
            Option::None
        }
    }

    /// Reads the maximal run of ASCII digits continuing the already-consumed
    /// leading digit `c`, returning the accumulated literal text.
    fn read_number(&mut self, c: char) -> (r: String)
        requires
            old(self).wf(),
        ensures
            final(self).wf(),
            final(self).source@ == old(self).source@,
            final(self).tokens@ == old(self).tokens@,
            final(self).line == old(self).line,
            r@ == read_number_s(old(self).remaining(), seq![c]).0,
            final(self).remaining() == read_number_s(old(self).remaining(), seq![c]).1,
    {
        let mut number = String::new();
        push_char(&mut number, c);
        proof {
            assert(number@ =~= seq![c]);
        }
        loop
            invariant
                self.wf(),
                self.source@ == old(self).source@,
                self.tokens@ == old(self).tokens@,
                self.line == old(self).line,
                read_number_s(old(self).remaining(), seq![c]) == read_number_s(
                    self.remaining(),
                    number@,
                ),
            decreases self.source@.len() - self.pos,
        {
            if self.pos == self.source.len() {
                proof {
                    assert(self.remaining() =~= Seq::<char>::empty());
                }
                return number;
            }
            let d = self.source[self.pos];
            let u = d as u32;
            if 48 <= u && u <= 57 {
                let ghost prev = *self;
                self.pos = self.pos + 1;
                push_char(&mut number, d);
                proof {
                    lemma_step(prev, *self);
                }
            } else {
                return number;
            }
        }
    }

    /// Reads a string literal body after the opening quote: consumes up to
    /// and including the matching unescaped closing quote, applying the
    /// escape table and counting embedded newlines. Fails when the input
    /// ends before a closing quote; the partial text is discarded.
    fn read_string(&mut self) -> (r: Result<String, ()>)
        requires
            old(self).wf(),
        ensures
            final(self).wf(),
            final(self).source@ == old(self).source@,
            final(self).tokens@ == old(self).tokens@,
            match read_string_s(old(self).remaining(), old(self).line as int, Seq::empty()) {
                Ok(res) => {
                    &&& r matches Ok(s) && s@ == res.0
                    &&& final(self).remaining() == res.1
                    &&& final(self).line as int == res.2
                },
                Err(()) => r is Err,
            },
    {
        let mut text = String::new();
        proof {
            assert(text@ =~= Seq::<char>::empty());
        }
        loop
            invariant
                self.wf(),
                self.source@ == old(self).source@,
                self.tokens@ == old(self).tokens@,
                read_string_s(old(self).remaining(), old(self).line as int, Seq::empty())
                    == read_string_s(self.remaining(), self.line as int, text@),
            decreases self.source@.len() - self.pos,
        {
            if self.pos == self.source.len() {
                proof {
                    assert(self.remaining() =~= Seq::<char>::empty());
                }
                return Err(());
            }
            let ghost prev = *self;
            let c = self.source[self.pos];
            self.pos = self.pos + 1;
            proof {
                lemma_step(prev, *self);
            }
            if c == '"' {
                return Ok(text);
            }
            if c == '\\' {
                if self.pos == self.source.len() {
                    proof {
                        assert(prev.remaining().len() == 1);
                    }
                    return Err(());
                }
                let ghost mid = *self;
                let c2 = self.source[self.pos];
                self.pos = self.pos + 1;
                proof {
                    lemma_step(mid, *self);
                    assert(prev.remaining()[1] == c2);
                    assert(self.remaining() =~= prev.remaining().skip(2));
                }
                let m = match escape_char(c2) {
                    Option::Some(m) => m,
                    Option::None => c2,
                };
                push_char(&mut text, m);
            } else if c == '\n' {
                self.line = self.line + 1;
                push_char(&mut text, '\n');
            } else {
                push_char(&mut text, c);
            }
        }
    }

    /// Reads the rest of an identifier continuing the already-consumed
    /// leading letter `c`: letters, digits, `_` and `.` continue the run,
    /// brackets and delimiters end it, and any other ASCII punctuation
    /// inside the run is returned as the offending character.
    fn read_identifier(&mut self, c: char) -> (r: Result<String, char>)
        requires
            old(self).wf(),
        ensures
            final(self).wf(),
            final(self).source@ == old(self).source@,
            final(self).tokens@ == old(self).tokens@,
            final(self).line == old(self).line,
            match read_ident_s(old(self).remaining(), seq![c]) {
                Ok(res) => {
                    &&& r matches Ok(s) && s@ == res.0
                    &&& final(self).remaining() == res.1
                },
                Err(ch) => r == Err::<String, char>(ch),
            },
    {
        let mut ident = String::new();
        push_char(&mut ident, c);
        proof {
            assert(ident@ =~= seq![c]);
        }
        loop
            invariant
                self.wf(),
                self.source@ == old(self).source@,
                self.tokens@ == old(self).tokens@,
                self.line == old(self).line,
                read_ident_s(old(self).remaining(), seq![c]) == read_ident_s(
                    self.remaining(),
                    ident@,
                ),
            decreases self.source@.len() - self.pos,
        {
            if self.pos == self.source.len() {
                proof {
                    assert(self.remaining() =~= Seq::<char>::empty());
                }
                return Ok(ident);
            }
            let d = self.source[self.pos];
            if d == '(' || d == ')' || d == '{' || d == '}' || d == '[' || d == ']' || d == '<'
                || d == '>' || d == ',' || d == ';' || d == '=' || d == ':' || d == '+' || d == '-'
                || d == '*' || d == '/' {
                return Ok(ident);
            }
            let u = d as u32;
            if (65 <= u && u <= 90) || (97 <= u && u <= 122) || (48 <= u && u <= 57) || d == '_'
                || d == '.' {
                let ghost prev = *self;
                self.pos = self.pos + 1;
                push_char(&mut ident, d);
                proof {
                    lemma_step(prev, *self);
                }
            } else if (33 <= u && u <= 47) || (58 <= u && u <= 64) || (91 <= u && u <= 96) || (123
                <= u && u <= 126) {
                return Err(d);
            } else {
                return Ok(ident);
            }
        }
    }

    /// Reads a character literal body after the opening quote: exactly one
    /// logical character (possibly an escape from the shared table), then
    /// the mandatory closing quote.
    fn read_char(&mut self) -> (r: Result<char, CharLitIssue>)
        requires
            old(self).wf(),
        ensures
            final(self).wf(),
            final(self).source@ == old(self).source@,
            final(self).tokens@ == old(self).tokens@,
            final(self).line == old(self).line,
            match read_char_s(old(self).remaining()) {
                Ok(res) => {
                    &&& r == Ok::<char, CharLitIssue>(res.0)
                    &&& final(self).remaining() == res.1
                },
                Err(i) => r == Err::<char, CharLitIssue>(i),
            },
    {
        let ghost s0 = *old(self);
        if self.pos == self.source.len() {
            proof {
                assert(s0.remaining() =~= Seq::<char>::empty());
            }
            return Err(CharLitIssue::Unterminated);
        }
        let ghost pre0 = *self;
        let c = self.source[self.pos];
        self.pos = self.pos + 1;
        proof {
            lemma_step(pre0, *self);
        }
        if c == '\\' {
            if self.pos == self.source.len() {
                proof {
                    assert(s0.remaining().len() == 1);
                }
                return Err(CharLitIssue::Unterminated);
            }
            let ghost pre1 = *self;
            let c2 = self.source[self.pos];
            self.pos = self.pos + 1;
            proof {
                lemma_step(pre1, *self);
                assert(s0.remaining()[1] == c2);
            }
            match escape_char(c2) {
                Option::None => Err(CharLitIssue::BadEscape),
                Option::Some(f) => {
                    if self.pos == self.source.len() {
                        proof {
                            assert(s0.remaining().len() == 2);
                        }
                        return Err(CharLitIssue::Unterminated);
                    }
                    let ghost pre2 = *self;
                    let q = self.source[self.pos];
                    self.pos = self.pos + 1;
                    proof {
                        lemma_step(pre2, *self);
                        assert(s0.remaining()[2] == q);
                        assert(self.remaining() =~= s0.remaining().skip(3));
                    }
                    if q != '\'' {
                        return Err(CharLitIssue::Unterminated);
                    }
                    Ok(f)
                },
            }
        } else {
            if self.pos == self.source.len() {
                proof {
                    assert(s0.remaining().len() == 1);
                }
                return Err(CharLitIssue::Unterminated);
            }
            let ghost pre1 = *self;
            let q = self.source[self.pos];
            self.pos = self.pos + 1;
            proof {
                lemma_step(pre1, *self);
                assert(s0.remaining()[1] == q);
                assert(self.remaining() =~= s0.remaining().skip(2));
            }
            if q != '\'' {
                return Err(CharLitIssue::Unterminated);
            }
            Ok(c)
        }
    }

    /// Lexes the whole remaining source: consumes it character by character,
    /// appending tokens in order, then a trailing `Eof`, and finally runs
    /// the bracket-balance validation over the full token sequence. The
    /// outcome is exactly the one the model gives: the first fatal lexical
    /// condition, or the batch of balance diagnostics, or success with the
    /// tokens left in `self.tokens`.
    pub fn lex(&mut self) -> (r: Result<(), LexError>)
        requires
            old(self).wf(),
        ensures
            final(self).wf(),
            final(self).source@ == old(self).source@,
            match lex_from(
                old(self).remaining(),
                old(self).line as int,
                toks_view(old(self).tokens@),
            ) {
                Ok(toks) => {
                    &&& toks_view(final(self).tokens@) == toks
                    &&& final(self).remaining() == Seq::<char>::empty()
                    &&& if balance_diags(toks).len() == 0 {
                        r == Ok::<(), LexError>(())
                    } else {
                        r matches Err(e) && e@ == crate::diag::SpecLexError::Unbalanced(
                            balance_diags(toks),
                        )
                    }
                },
                Err(e) => r matches Err(e2) && e2@ == e,
            },
    {
        while self.pos < self.source.len()
            invariant
                self.wf(),
                self.source@ == old(self).source@,
                lex_from(
                    old(self).remaining(),
                    old(self).line as int,
                    toks_view(old(self).tokens@),
                ) == lex_from(self.remaining(), self.line as int, toks_view(self.tokens@)),
            decreases self.source@.len() - self.pos,
        {
            let ghost prev = *self;
            let c = self.next().unwrap();
            proof {
                lemma_step(prev, *self);
            }
            if c == '\n' {
                self.line = self.line + 1;
            } else if c == ' ' || c == '\r' || c == '\t' {
            } else if c == '(' {
                let ghost ts = self.tokens@;
                self.tokens.push(Token::new(TokenType::LeftParen, self.line));
                proof {
                    lemma_toks_view_push(ts, self.tokens@.last());
                }
            } else if c == ')' {
                let ghost ts = self.tokens@;
                self.tokens.push(Token::new(TokenType::RightParen, self.line));
                proof {
                    lemma_toks_view_push(ts, self.tokens@.last());
                }
            } else if c == '{' {
                let ghost ts = self.tokens@;
                self.tokens.push(Token::new(TokenType::LeftBrace, self.line));
                proof {
                    lemma_toks_view_push(ts, self.tokens@.last());
                }
            } else if c == '}' {
                let ghost ts = self.tokens@;
                self.tokens.push(Token::new(TokenType::RightBrace, self.line));
                proof {
                    lemma_toks_view_push(ts, self.tokens@.last());
                }
            } else if c == ',' {
                let ghost ts = self.tokens@;
                self.tokens.push(Token::new(TokenType::Comma, self.line));
                proof {
                    lemma_toks_view_push(ts, self.tokens@.last());
                }
            } else if c == '.' {
                let ghost ts = self.tokens@;
                self.tokens.push(Token::new(TokenType::Dot, self.line));
                proof {
                    lemma_toks_view_push(ts, self.tokens@.last());
                }
            } else if c == '-' || c == '+' || c == '*' || c == '/' || c == '%' || c == '^' || c
                == '&' || c == '|' || c == '!' || c == '=' || c == '<' || c == '>' {
                let two = match self.peek() {
                    Option::Some(e) => e == '=',
                    Option::None => false,
                };
                if two {
                    let _ = self.next();
                    proof {
                        lemma_step2(prev, *self);
                    }
                }
                let name = op_name(c, two);
                let ghost ts = self.tokens@;
                self.tokens.push(Token::new(TokenType::Operator(String::from_str(name)), self.line));
                proof {
                    lemma_toks_view_push(ts, self.tokens@.last());
                    if !two {
                        assert(prev.remaining().len() >= 2 ==> prev.remaining()[1]
                            == prev.source@[prev.pos + 1]);
                    }
                }
            } else if c == '"' {
                let line_start = self.line;
                proof {
                    crate::lex_spec::lemma_read_string_suffix(
                        prev.remaining().drop_first(),
                        prev.line as int,
                        Seq::empty(),
                    );
                }
                match self.read_string() {
                    Ok(s) => {
                        let ghost ts = self.tokens@;
                        self.tokens.push(Token::new(TokenType::Str(s), self.line));
                        proof {
                            lemma_toks_view_push(ts, self.tokens@.last());
                            assert(self.remaining().len() < prev.remaining().len());
                        }
                    },
                    Err(()) => {
                        return Err(LexError::UnterminatedString { line: line_start });
                    },
                }
            } else if 49 <= c as u32 && c as u32 <= 57 {
                proof {
                    crate::lex_spec::lemma_read_number_suffix(
                        prev.remaining().drop_first(),
                        seq![c],
                    );
                }
                let number = self.read_number(c);
                let ghost ts = self.tokens@;
                self.tokens.push(Token::new(TokenType::Number(number), self.line));
                proof {
                    lemma_toks_view_push(ts, self.tokens@.last());
                    assert(self.remaining().len() < prev.remaining().len());
                }
            } else if (65 <= c as u32 && c as u32 <= 90) || (97 <= c as u32 && c as u32 <= 122) {
                proof {
                    crate::lex_spec::lemma_read_ident_suffix(
                        prev.remaining().drop_first(),
                        seq![c],
                    );
                }
                match self.read_identifier(c) {
                    Ok(word) => {
                        let tt = classify_word(word);
                        let ghost ts = self.tokens@;
                        self.tokens.push(Token::new(tt, self.line));
                        proof {
                            lemma_toks_view_push(ts, self.tokens@.last());
                            assert(self.remaining().len() < prev.remaining().len());
                        }
                    },
                    Err(ch) => {
                        return Err(LexError::InvalidIdentifierCharacter { ch, line: self.line });
                    },
                }
            } else if c == '\'' {
                match self.read_char() {
                    Ok(ch) => {
                        let mut text = String::new();
                        push_char(&mut text, ch);
                        proof {
                            assert(text@ =~= seq![ch]);
                        }
                        let ghost ts = self.tokens@;
                        self.tokens.push(Token::new(TokenType::Character(text), self.line));
                        proof {
                            lemma_toks_view_push(ts, self.tokens@.last());
                            assert(self.remaining().len() < prev.remaining().len());
                        }
                    },
                    Err(CharLitIssue::Unterminated) => {
                        return Err(LexError::UnterminatedCharacterLiteral { line: self.line });
                    },
                    Err(CharLitIssue::BadEscape) => {
                        return Err(LexError::InvalidEscape { line: self.line });
                    },
                }
            } else {
                return Err(LexError::UnexpectedCharacter { ch: c, line: self.line });
            }
            proof {
                assert(prev.remaining().len() == prev.source@.len() - prev.pos);
                assert(self.remaining().len() == self.source@.len() - self.pos);
            }
        }
        proof {
            assert(self.remaining() =~= Seq::<char>::empty());
        }
        let ghost ts = self.tokens@;
        self.tokens.push(Token::new(TokenType::Eof, self.line));
        proof {
            lemma_toks_view_push(ts, self.tokens@.last());
        }
        let ds = check_balance(&self.tokens);
        if ds.len() == 0 {
            proof {
                assert(balance_diags(toks_view(self.tokens@)).len() == 0);
            }
            Ok(())
        } else {
            Err(LexError::Unbalanced(ds))
        }
    }
}

/// Collects the bracket-balance diagnostics of a finished token sequence:
/// tallies the recorded lines of each bracket token in order of occurrence,
/// then reports every excess, parens before braces, most recently recorded
/// first.
pub fn check_balance(tokens: &Vec<Token>) -> (r: Vec<BalanceDiag>)
    ensures
        diags_view(r@) == balance_diags(toks_view(tokens@)),
{
    let mut open_paren: Vec<usize> = Vec::new();
    let mut close_paren: Vec<usize> = Vec::new();
    let mut open_brace: Vec<usize> = Vec::new();
    let mut close_brace: Vec<usize> = Vec::new();
    let mut i: usize = 0;
    while i < tokens.len()
        invariant
            i <= tokens@.len(),
            lines_view(open_paren@) == bracket_lines(
                toks_view(tokens@.take(i as int)),
                SpecTokenType::LeftParen,
            ),
            lines_view(close_paren@) == bracket_lines(
                toks_view(tokens@.take(i as int)),
                SpecTokenType::RightParen,
            ),
            lines_view(open_brace@) == bracket_lines(
                toks_view(tokens@.take(i as int)),
                SpecTokenType::LeftBrace,
            ),
            lines_view(close_brace@) == bracket_lines(
                toks_view(tokens@.take(i as int)),
                SpecTokenType::RightBrace,
            ),
        decreases tokens@.len() - i,
    {
        let t = &tokens[i];
        let ghost op = open_paren@;
        let ghost cp = close_paren@;
        let ghost ob = open_brace@;
        let ghost cb = close_brace@;
        match t.token_type {
            TokenType::LeftParen => open_paren.push(t.line),
            TokenType::RightParen => close_paren.push(t.line),
            TokenType::LeftBrace => open_brace.push(t.line),
            TokenType::RightBrace => close_brace.push(t.line),
            _ => {},
        }
        i = i + 1;
        proof {
            let pre = toks_view(tokens@.take(i - 1));
            let post = toks_view(tokens@.take(i as int));
            assert(post =~= pre.push(tokens@[i - 1]@));
            assert(post.drop_last() =~= pre);
            assert(lines_view(open_paren@) =~= bracket_lines(post, SpecTokenType::LeftParen));
            assert(lines_view(close_paren@) =~= bracket_lines(post, SpecTokenType::RightParen));
            assert(lines_view(open_brace@) =~= bracket_lines(post, SpecTokenType::LeftBrace));
            assert(lines_view(close_brace@) =~= bracket_lines(post, SpecTokenType::RightBrace));
        }
    }
    proof {
        assert(tokens@.take(tokens@.len() as int) =~= tokens@);
    }
    let mut r: Vec<BalanceDiag> = Vec::new();
    push_excess(&mut r, &open_paren, &close_paren, BracketKind::Paren);
    push_excess(&mut r, &open_brace, &close_brace, BracketKind::Brace);
    proof {
        assert(diags_view(r@) =~= balance_diags(toks_view(tokens@)));
    }
    r
}

/// Appends the diagnostics for one bracket family: one per excess bracket,
/// the most recently recorded line first.
fn push_excess(
    out: &mut Vec<BalanceDiag>,
    opens: &Vec<usize>,
    closes: &Vec<usize>,
    bracket: BracketKind,
)
    ensures
        diags_view(final(out)@) == diags_view(old(out)@) + excess_diags(
            lines_view(opens@),
            lines_view(closes@),
            bracket,
        ),
{
    let ghost target = excess_diags(lines_view(opens@), lines_view(closes@), bracket);
    if opens.len() > closes.len() {
        let k = opens.len() - closes.len();
        let mut i: usize = 0;
        while i < k
            invariant
                i <= k,
                k == opens@.len() - closes@.len(),
                opens@.len() > closes@.len(),
                target == excess_diags(lines_view(opens@), lines_view(closes@), bracket),
                out@.len() == old(out)@.len() + i,
                diags_view(out@) == diags_view(old(out)@) + target.take(i as int),
            decreases k - i,
        {
            let line = opens[opens.len() - 1 - i];
            let d = BalanceDiag { bracket, opening: true, line };
            let ghost prevout = out@;
            out.push(d);
            proof {
                assert(diags_view(out@) =~= diags_view(prevout).push(d@));
                assert(d@ == target[i as int]);
                assert(target.take(i + 1) =~= target.take(i as int).push(target[i as int]));
                assert(diags_view(out@) =~= diags_view(old(out)@) + target.take(i + 1));
            }
            i = i + 1;
        }
        proof {
            assert(target.take(k as int) =~= target);
        }
    } else if closes.len() > opens.len() {
        let k = closes.len() - opens.len();
        let mut i: usize = 0;
        while i < k
            invariant
                i <= k,
                k == closes@.len() - opens@.len(),
                closes@.len() > opens@.len(),
                target == excess_diags(lines_view(opens@), lines_view(closes@), bracket),
                out@.len() == old(out)@.len() + i,
                diags_view(out@) == diags_view(old(out)@) + target.take(i as int),
            decreases k - i,
        {
            let line = closes[closes.len() - 1 - i];
            let d = BalanceDiag { bracket, opening: false, line };
            let ghost prevout = out@;
            out.push(d);
            proof {
                assert(diags_view(out@) =~= diags_view(prevout).push(d@));
                assert(d@ == target[i as int]);
                assert(target.take(i + 1) =~= target.take(i as int).push(target[i as int]));
                assert(diags_view(out@) =~= diags_view(old(out)@) + target.take(i + 1));
            }
            i = i + 1;
        }
        proof {
            assert(target.take(k as int) =~= target);
        }
    } else {
        proof {
            assert(diags_view(out@) =~= diags_view(old(out)@) + target);
        }
    }
}

} // verus!
