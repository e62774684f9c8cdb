//! The mathematical model of lexing: character classes, the token each run
//! of characters yields, and the bracket-balance post-pass. The executable
//! lexer is specified against `lex_from` and `lex_spec`.

use vstd::prelude::*;

use crate::diag::BracketKind;
use crate::diag::SpecBalanceDiag;
use crate::diag::SpecLexError;
use crate::token::SpecToken;
use crate::token::SpecTokenType;

verus! {

/// Whitespace that is discarded without effect (newline is handled apart,
/// since it advances the line counter).
pub open spec fn is_space(c: char) -> bool {
    c == ' ' || c == '\r' || c == '\t'
}

/// An ASCII decimal digit.
pub open spec fn is_digit(c: char) -> bool {
    48 <= c as u32 <= 57
}

/// An ASCII digit 1 through 9: the only characters that may start a number.
pub open spec fn is_nonzero_digit(c: char) -> bool {
    49 <= c as u32 <= 57
}

/// An ASCII letter: the characters that may start an identifier.
pub open spec fn is_letter(c: char) -> bool {
    (65 <= c as u32 <= 90) || (97 <= c as u32 <= 122)
}

/// A character that may continue an identifier once started.
pub open spec fn is_ident_continue(c: char) -> bool {
    is_letter(c) || is_digit(c) || c == '_' || c == '.'
}

/// A bracket or delimiter character that ends an identifier run.
pub open spec fn is_ident_stop(c: char) -> bool {
    c == '(' || c == ')' || c == '{' || c == '}' || c == '[' || c == ']' || c == '<' || c == '>'
        || c == ',' || c == ';' || c == '=' || c == ':' || c == '+' || c == '-' || c == '*'
        || c == '/'
}

/// ASCII punctuation: met inside an identifier (and being neither a
/// continuation nor a stop character) it is a fatal condition.
pub open spec fn is_punct(c: char) -> bool {
    (33 <= c as u32 <= 47) || (58 <= c as u32 <= 64) || (91 <= c as u32 <= 96) || (123 <= c
        as u32 <= 126)
}

/// A character that starts an operator token.
pub open spec fn is_op_char(c: char) -> bool {
    c == '-' || c == '+' || c == '*' || c == '/' || c == '%' || c == '^' || c == '&' || c == '|'
        || c == '!' || c == '=' || c == '<' || c == '>'
}

/// The operator name emitted for a lone operator character.
pub open spec fn op_single_name(c: char) -> Seq<char> {
    if c == '-' {
        "Sub"@
    } else if c == '+' {
        "Add"@
    } else if c == '*' {
        "Mul"@
    } else if c == '/' {
        "Div"@
    } else if c == '%' {
        "Mod"@
    } else if c == '^' {
        "Pow"@
    } else if c == '&' {
        "And"@
    } else if c == '|' {
        "Or"@
    } else if c == '!' {
        "Not"@
    } else if c == '=' {
        "Eq"@
    } else if c == '<' {
        "Less"@
    } else {
        "Greater"@
    }
}

/// The operator name emitted when the operator character is followed
/// immediately by `=`.
pub open spec fn op_compound_name(c: char) -> Seq<char> {
    if c == '-' {
        "SubEq"@
    } else if c == '+' {
        "AddEq"@
    } else if c == '*' {
        "MulEq"@
    } else if c == '/' {
        "DivEq"@
    } else if c == '%' {
        "ModEq"@
    } else if c == '^' {
        "PowEq"@
    } else if c == '&' {
        "AndEq"@
    } else if c == '|' {
        "OrEq"@
    } else if c == '!' {
        "NotEq"@
    } else if c == '=' {
        "EqEq"@
    } else if c == '<' {
        "LessEq"@
    } else {
        "GreaterEq"@
    }
}

/// The character an escape stands for inside string and character literals,
/// or nothing when the escaped character is not in the table.
pub open spec fn escape_of(c: char) -> Option<char> {
    match c {
        'n' => Option::Some('\n'),
        't' => Option::Some('\t'),
        'r' => Option::Some('\r'),
        '0' => Option::Some('\0'),
        '"' => Option::Some('"'),
        '\'' => Option::Some('\''),
        '\\' => Option::Some('\\'),
        _ => Option::None,
    }
}

/// The token an identifier run becomes: a keyword from the fixed set, a
/// boolean or none literal, or a plain identifier.
pub open spec fn keyword_token(text: Seq<char>) -> SpecTokenType {
    if text == "if"@ || text == "else"@ || text == "while"@ || text == "for"@ || text
        == "break"@ || text == "continue"@ || text == "return"@ || text == "def"@ || text
        == "let"@ {
        SpecTokenType::Keyword(text)
    } else if text == "True"@ || text == "true"@ {
        SpecTokenType::True
    } else if text == "False"@ || text == "false"@ {
        SpecTokenType::False
    } else if text == "None"@ {
        SpecTokenType::NoneLiteral
    } else {
        SpecTokenType::Identifier(text)
    }
}

/// What reading a string literal body from `s` yields: the accumulated text,
/// the characters after the closing quote, and the line counter after any
/// embedded newlines; or failure when the input ends before a closing quote.
pub open spec fn read_string_s(s: Seq<char>, line: int, text: Seq<char>) -> Result<
    (Seq<char>, Seq<char>, int),
    (),
>
    decreases s.len(),
{
    if s.len() == 0 {
        Err(())
    } else if s[0] == '"' {
        Ok((text, s.drop_first(), line))
    } else if s[0] == '\\' {
        if s.len() == 1 {
            Err(())
        } else {
            let mapped = match escape_of(s[1]) {
                Option::Some(m) => m,
                Option::None => s[1],
            };
            read_string_s(s.skip(2), line, text.push(mapped))
        }
    } else if s[0] == '\n' {
        read_string_s(s.drop_first(), line + 1, text.push('\n'))
    } else {
        read_string_s(s.drop_first(), line, text.push(s[0]))
    }
}

/// A successful string read consumes at least the closing quote.
pub proof fn lemma_read_string_suffix(s: Seq<char>, line: int, text: Seq<char>)
    ensures
        read_string_s(s, line, text) matches Ok(r) ==> r.1.len() < s.len(),
    decreases s.len(),
{
    if s.len() == 0 {
    } else if s[0] == '"' {
    } else if s[0] == '\\' {
        if s.len() > 1 {
            lemma_read_string_suffix(s.skip(2), line, text.push(match escape_of(s[1]) {
                Option::Some(m) => m,
                Option::None => s[1],
            }));
        }
    } else if s[0] == '\n' {
        lemma_read_string_suffix(s.drop_first(), line + 1, text.push('\n'));
    } else {
        lemma_read_string_suffix(s.drop_first(), line, text.push(s[0]));
    }
}

/// What reading the rest of a number yields: the accumulated digits and the
/// characters after the maximal digit run.
pub open spec fn read_number_s(s: Seq<char>, text: Seq<char>) -> (Seq<char>, Seq<char>)
    decreases s.len(),
{
    if s.len() == 0 {
        (text, s)
    } else if is_digit(s[0]) {
        read_number_s(s.drop_first(), text.push(s[0]))
    } else {
        (text, s)
    }
}

/// Reading a number consumes no more than the input.
pub proof fn lemma_read_number_suffix(s: Seq<char>, text: Seq<char>)
    ensures
        read_number_s(s, text).1.len() <= s.len(),
    decreases s.len(),
{
    if s.len() > 0 && is_digit(s[0]) {
        lemma_read_number_suffix(s.drop_first(), text.push(s[0]));
    }
}

/// What reading the rest of an identifier yields: the accumulated text and
/// the characters after the run, or the offending punctuation character when
/// one is met inside the run.
pub open spec fn read_ident_s(s: Seq<char>, text: Seq<char>) -> Result<
    (Seq<char>, Seq<char>),
    char,
>
    decreases s.len(),
{
    if s.len() == 0 {
        Ok((text, s))
    } else if is_ident_stop(s[0]) {
        Ok((text, s))
    } else if is_ident_continue(s[0]) {
        read_ident_s(s.drop_first(), text.push(s[0]))
    } else if is_punct(s[0]) {
        Err(s[0])
    } else {
        Ok((text, s))
    }
}

/// A successful identifier read consumes no more than the input.
pub proof fn lemma_read_ident_suffix(s: Seq<char>, text: Seq<char>)
    ensures
        read_ident_s(s, text) matches Ok(r) ==> r.1.len() <= s.len(),
    decreases s.len(),
{
    if s.len() > 0 && !is_ident_stop(s[0]) && is_ident_continue(s[0]) {
        lemma_read_ident_suffix(s.drop_first(), text.push(s[0]));
    }
}

/// The two ways a character literal can fail: input ends (or the mandatory
/// closing quote is absent), or an escape not in the table is used.
pub enum CharLitIssue {
    Unterminated,
    BadEscape,
}

/// What reading a character literal body (after the opening quote) yields:
/// the one logical character and the characters after the closing quote.
pub open spec fn read_char_s(s: Seq<char>) -> Result<(char, Seq<char>), CharLitIssue> {
    if s.len() == 0 {
        Err(CharLitIssue::Unterminated)
    } else if s[0] == '\\' {
        if s.len() < 2 {
            Err(CharLitIssue::Unterminated)
        } else {
            match escape_of(s[1]) {
                Option::None => Err(CharLitIssue::BadEscape),
                Option::Some(f) => if s.len() < 3 || s[2] != '\'' {
                    Err(CharLitIssue::Unterminated)
                } else {
                    Ok((f, s.skip(3)))
                },
            }
        }
    } else if s.len() < 2 || s[1] != '\'' {
        Err(CharLitIssue::Unterminated)
    } else {
        Ok((s[0], s.skip(2)))
    }
}

/// One token of the given type at the given line.
pub open spec fn tok(t: SpecTokenType, line: int) -> SpecToken {
    SpecToken { token_type: t, line }
}

/// The model of the whole lex run: starting from the characters `s`, the
/// line counter `line` and the tokens already emitted `acc`, either the full
/// token sequence with a trailing `Eof`, or the first fatal condition.
pub open spec fn lex_from(s: Seq<char>, line: int, acc: Seq<SpecToken>) -> Result<
    Seq<SpecToken>,
    SpecLexError,
>
    decreases s.len(),
    via lex_from_dec
{
    if s.len() == 0 {
        Ok(acc.push(tok(SpecTokenType::Eof, line)))
    } else {
        let c = s[0];
        let rest = s.drop_first();
        if c == '\n' {
            lex_from(rest, line + 1, acc)
        } else if is_space(c) {
            lex_from(rest, line, acc)
        } else if c == '(' {
            lex_from(rest, line, acc.push(tok(SpecTokenType::LeftParen, line)))
        } else if c == ')' {
            lex_from(rest, line, acc.push(tok(SpecTokenType::RightParen, line)))
        } else if c == '{' {
            lex_from(rest, line, acc.push(tok(SpecTokenType::LeftBrace, line)))
        } else if c == '}' {
            lex_from(rest, line, acc.push(tok(SpecTokenType::RightBrace, line)))
        } else if c == ',' {
            lex_from(rest, line, acc.push(tok(SpecTokenType::Comma, line)))
        } else if c == '.' {
            lex_from(rest, line, acc.push(tok(SpecTokenType::Dot, line)))
        } else if is_op_char(c) {
            if s.len() >= 2 && s[1] == '=' {
                lex_from(
                    s.skip(2),
                    line,
                    acc.push(tok(SpecTokenType::Operator(op_compound_name(c)), line)),
                )
            } else {
                lex_from(
                    rest,
                    line,
                    acc.push(tok(SpecTokenType::Operator(op_single_name(c)), line)),
                )
            }
        } else if c == '"' {
            match read_string_s(rest, line, Seq::empty()) {
                Err(()) => Err(SpecLexError::UnterminatedString { line }),
                Ok((text, r2, l2)) => lex_from(r2, l2, acc.push(tok(SpecTokenType::Str(text), l2))),
            }
        } else if is_nonzero_digit(c) {
            let (text, r2) = read_number_s(rest, seq![c]);
            lex_from(r2, line, acc.push(tok(SpecTokenType::Number(text), line)))
        } else if is_letter(c) {
            match read_ident_s(rest, seq![c]) {
                Err(ch) => Err(SpecLexError::InvalidIdentifierCharacter { ch, line }),
                Ok((text, r2)) => lex_from(r2, line, acc.push(tok(keyword_token(text), line))),
            }
        } else if c == '\'' {
            match read_char_s(rest) {
                Err(CharLitIssue::Unterminated) => Err(
                    SpecLexError::UnterminatedCharacterLiteral { line },
                ),
                Err(CharLitIssue::BadEscape) => Err(SpecLexError::InvalidEscape { line }),
                Ok((ch, r2)) => lex_from(
                    r2,
                    line,
                    acc.push(tok(SpecTokenType::Character(seq![ch]), line)),
                ),
            }
        } else {
            Err(SpecLexError::UnexpectedCharacter { ch: c, line })
        }
    }
}

#[via_fn]
proof fn lex_from_dec(s: Seq<char>, line: int, acc: Seq<SpecToken>) {
    if s.len() > 0 {
        let rest = s.drop_first();
        lemma_read_string_suffix(rest, line, Seq::empty());
        lemma_read_number_suffix(rest, seq![s[0]]);
        lemma_read_ident_suffix(rest, seq![s[0]]);
    }
}

/// The lines, in order of occurrence, of the tokens of the given type.
pub open spec fn bracket_lines(toks: Seq<SpecToken>, tt: SpecTokenType) -> Seq<int>
    decreases toks.len(),
{
    if toks.len() == 0 {
        Seq::empty()
    } else {
        bracket_lines(toks.drop_last(), tt) + if toks.last().token_type == tt {
            seq![toks.last().line]
        } else {
            Seq::empty()
        }
    }
}

/// The diagnostics for one bracket family: when openings outnumber closings
/// by `k`, the `k` most recently recorded opening lines, most recent first;
/// when closings outnumber openings, the same over the closing lines; none
/// when the counts agree.
pub open spec fn excess_diags(
    opens: Seq<int>,
    closes: Seq<int>,
    bracket: BracketKind,
) -> Seq<SpecBalanceDiag> {
    if opens.len() > closes.len() {
        Seq::new(
            (opens.len() - closes.len()) as nat,
            |i: int| SpecBalanceDiag { bracket, opening: true, line: opens[opens.len() - 1 - i] },
        )
    } else if closes.len() > opens.len() {
        Seq::new(
            (closes.len() - opens.len()) as nat,
            |i: int|
                SpecBalanceDiag { bracket, opening: false, line: closes[closes.len() - 1 - i] },
        )
    } else {
        Seq::empty()
    }
}

/// The batch of balance diagnostics for a token sequence: the paren excesses
/// first, then the brace excesses.
pub open spec fn balance_diags(toks: Seq<SpecToken>) -> Seq<SpecBalanceDiag> {
    excess_diags(
        bracket_lines(toks, SpecTokenType::LeftParen),
        bracket_lines(toks, SpecTokenType::RightParen),
        BracketKind::Paren,
    ) + excess_diags(
        bracket_lines(toks, SpecTokenType::LeftBrace),
        bracket_lines(toks, SpecTokenType::RightBrace),
        BracketKind::Brace,
    )
}

/// The model of one whole lex of the source `s`: the token sequence when no
/// fatal condition arises and the brackets balance; the batch of balance
/// diagnostics when lexing completes but they do not; the first fatal
/// lexical condition otherwise.
pub open spec fn lex_spec(s: Seq<char>) -> Result<Seq<SpecToken>, SpecLexError> {
    match lex_from(s, 1, Seq::empty()) {
        Err(e) => Err(e),
        Ok(toks) => if balance_diags(toks).len() == 0 {
            Ok(toks)
        } else {
            Err(SpecLexError::Unbalanced(balance_diags(toks)))
        },
    }
}

/// Bracket balance reporting: when one family records `k` more openings than
/// closings, exactly `k` diagnostics are emitted for it, one per excess
/// opening, the most recently recorded line first; likewise with the roles
/// swapped when closings outnumber openings; none when the counts agree.
pub proof fn lemma_balance_reports_each_excess(
    opens: Seq<int>,
    closes: Seq<int>,
    bracket: BracketKind,
)
    ensures
        opens.len() > closes.len() ==> {
            let ds = excess_diags(opens, closes, bracket);
            &&& ds.len() == opens.len() - closes.len()
            &&& forall|i: int|
                0 <= i < ds.len() ==> #[trigger] ds[i] == (SpecBalanceDiag {
                    bracket,
                    opening: true,
                    line: opens[opens.len() - 1 - i],
                })
        },
        closes.len() > opens.len() ==> {
            let ds = excess_diags(opens, closes, bracket);
            &&& ds.len() == closes.len() - opens.len()
            &&& forall|i: int|
                0 <= i < ds.len() ==> #[trigger] ds[i] == (SpecBalanceDiag {
                    bracket,
                    opening: false,
                    line: closes[closes.len() - 1 - i],
                })
        },
        opens.len() == closes.len() ==> excess_diags(opens, closes, bracket).len() == 0,
{
}

/// The number of recorded lines for a token type is the number of its
/// occurrences in the sequence: one entry is recorded per bracket token.
pub proof fn lemma_bracket_lines_len(toks: Seq<SpecToken>, tt: SpecTokenType)
    ensures
        bracket_lines(toks, tt).len() == toks.filter(|t: SpecToken| t.token_type == tt).len(),
    decreases toks.len(),
{
    reveal(Seq::filter);
    if toks.len() > 0 {
        lemma_bracket_lines_len(toks.drop_last(), tt);
    }
}

/// The balance batch holds exactly one diagnostic per unmatched bracket:
/// for each family, the difference between the numbers of opening and
/// closing occurrences.
pub proof fn lemma_balance_batch_size(toks: Seq<SpecToken>)
    ensures
        ({
            let po = toks.filter(|t: SpecToken| t.token_type == SpecTokenType::LeftParen).len();
            let pc = toks.filter(|t: SpecToken| t.token_type == SpecTokenType::RightParen).len();
            let bo = toks.filter(|t: SpecToken| t.token_type == SpecTokenType::LeftBrace).len();
            let bc = toks.filter(|t: SpecToken| t.token_type == SpecTokenType::RightBrace).len();
            balance_diags(toks).len() == vstd::math::abs(po - pc) + vstd::math::abs(bo - bc)
        }),
{
    lemma_bracket_lines_len(toks, SpecTokenType::LeftParen);
    lemma_bracket_lines_len(toks, SpecTokenType::RightParen);
    lemma_bracket_lines_len(toks, SpecTokenType::LeftBrace);
    lemma_bracket_lines_len(toks, SpecTokenType::RightBrace);
}

/// A token that neither opens nor closes a bracket.
pub open spec fn non_bracket(t: SpecToken) -> bool {
    &&& t.token_type != SpecTokenType::LeftParen
    &&& t.token_type != SpecTokenType::RightParen
    &&& t.token_type != SpecTokenType::LeftBrace
    &&& t.token_type != SpecTokenType::RightBrace
}

/// A token lexed from punctuation alone: an operator, a comma, a dot, or
/// the trailing `Eof`.
pub open spec fn plain_token(t: SpecToken) -> bool {
    ||| t.token_type matches SpecTokenType::Operator(_)
    ||| t.token_type == SpecTokenType::Comma
    ||| t.token_type == SpecTokenType::Dot
    ||| t.token_type == SpecTokenType::Eof
}

/// A character whose lexing can neither fail nor involve a bracket:
/// whitespace, a newline, a comma, a dot, or an operator character.
pub open spec fn is_simple_char(c: char) -> bool {
    is_space(c) || c == '\n' || c == ',' || c == '.' || is_op_char(c)
}

/// Lexing characters of `is_simple_char` alone cannot fail, and every token
/// it adds is an operator, comma, dot or `Eof` token.
pub proof fn lemma_lex_simple_chars(s: Seq<char>, line: int, acc: Seq<SpecToken>)
    requires
        forall|i: int| 0 <= i < s.len() ==> is_simple_char(#[trigger] s[i]),
        forall|j: int| 0 <= j < acc.len() ==> plain_token(#[trigger] acc[j]),
    ensures
        (lex_from(s, line, acc) matches Ok(toks) && forall|j: int|
            0 <= j < toks.len() ==> plain_token(#[trigger] toks[j])),
    decreases s.len(),
{
    if s.len() == 0 {
        let toks = acc.push(tok(SpecTokenType::Eof, line));
        assert forall|j: int| 0 <= j < toks.len() implies plain_token(#[trigger] toks[j]) by {
            if j < acc.len() {
                assert(plain_token(acc[j]));
            }
        }
    } else {
        let c = s[0];
        let rest = s.drop_first();
        assert forall|i: int| 0 <= i < rest.len() implies is_simple_char(#[trigger] rest[i]) by {
            assert(rest[i] == s[i + 1]);
        }
        if c == '\n' {
            lemma_lex_simple_chars(rest, line + 1, acc);
        } else if is_space(c) {
            lemma_lex_simple_chars(rest, line, acc);
        } else if c == ',' {
            let acc2 = acc.push(tok(SpecTokenType::Comma, line));
            assert forall|j: int| 0 <= j < acc2.len() implies plain_token(#[trigger] acc2[j]) by {
                if j < acc.len() {
                    assert(plain_token(acc[j]));
                }
            }
            lemma_lex_simple_chars(rest, line, acc2);
        } else if c == '.' {
            let acc2 = acc.push(tok(SpecTokenType::Dot, line));
            assert forall|j: int| 0 <= j < acc2.len() implies plain_token(#[trigger] acc2[j]) by {
                if j < acc.len() {
                    assert(plain_token(acc[j]));
                }
            }
            lemma_lex_simple_chars(rest, line, acc2);
        } else {
            assert(is_op_char(c));
            if s.len() >= 2 && s[1] == '=' {
                let acc2 = acc.push(tok(SpecTokenType::Operator(op_compound_name(c)), line));
                assert forall|j: int| 0 <= j < acc2.len() implies plain_token(
                    #[trigger] acc2[j],
                ) by {
                    if j < acc.len() {
                        assert(plain_token(acc[j]));
                    }
                }
                let rest2 = s.skip(2);
                assert forall|i: int| 0 <= i < rest2.len() implies is_simple_char(
                    #[trigger] rest2[i],
                ) by {
                    assert(rest2[i] == s[i + 2]);
                }
                lemma_lex_simple_chars(rest2, line, acc2);
            } else {
                let acc2 = acc.push(tok(SpecTokenType::Operator(op_single_name(c)), line));
                assert forall|j: int| 0 <= j < acc2.len() implies plain_token(
                    #[trigger] acc2[j],
                ) by {
                    if j < acc.len() {
                        assert(plain_token(acc[j]));
                    }
                }
                lemma_lex_simple_chars(rest, line, acc2);
            }
        }
    }
}

/// A bracket token type records no line in a sequence of non-bracket
/// tokens.
proof fn lemma_bracket_lines_empty(toks: Seq<SpecToken>, tt: SpecTokenType)
    requires
        forall|j: int| 0 <= j < toks.len() ==> non_bracket(#[trigger] toks[j]),
        tt == SpecTokenType::LeftParen || tt == SpecTokenType::RightParen || tt
            == SpecTokenType::LeftBrace || tt == SpecTokenType::RightBrace,
    ensures
        bracket_lines(toks, tt).len() == 0,
    decreases toks.len(),
{
    if toks.len() > 0 {
        assert(non_bracket(toks.last()));
        assert forall|j: int| 0 <= j < toks.drop_last().len() implies non_bracket(
            #[trigger] toks.drop_last()[j],
        ) by {
            assert(toks.drop_last()[j] == toks[j]);
        }
        lemma_bracket_lines_empty(toks.drop_last(), tt);
    }
}

/// A token sequence without bracket tokens yields no balance diagnostics.
pub proof fn lemma_no_brackets_balanced(toks: Seq<SpecToken>)
    requires
        forall|j: int| 0 <= j < toks.len() ==> non_bracket(#[trigger] toks[j]),
    ensures
        balance_diags(toks).len() == 0,
{
    lemma_bracket_lines_empty(toks, SpecTokenType::LeftParen);
    lemma_bracket_lines_empty(toks, SpecTokenType::RightParen);
    lemma_bracket_lines_empty(toks, SpecTokenType::LeftBrace);
    lemma_bracket_lines_empty(toks, SpecTokenType::RightBrace);
}

/// Lexing is deterministic: the outcome is a function of the source text
/// alone, so lexing the same characters twice yields identical token
/// sequences (or the identical error).
pub proof fn lemma_lex_deterministic(s1: Seq<char>, s2: Seq<char>)
    requires
        s1 == s2,
    ensures
        lex_spec(s1) == lex_spec(s2),
{
}

} // verus!
