//! Laws that span the lexer and the parser, proved from their models alone:
//! inputs built from characters that lex to standalone tokens run through
//! the whole front end without error, yielding one tree node per token.

use vstd::prelude::*;

use crate::lex_spec::is_simple_char;
use crate::lex_spec::lemma_lex_simple_chars;
use crate::lex_spec::lemma_no_brackets_balanced;
use crate::lex_spec::lex_from;
use crate::lex_spec::lex_spec;
use crate::lex_spec::non_bracket;
use crate::lex_spec::plain_token;
use crate::parse_spec::cap;
use crate::parse_spec::parse_s;
use crate::parse_spec::parse_token_s;
use crate::token::SpecToken;
use crate::token::SpecTokenType;
use crate::tree::SpecNode;

verus! {

/// The number of tokens before the first `Eof` terminator: the top-level
/// constructs the parser will classify when every token stands alone.
pub open spec fn before_eof(toks: Seq<SpecToken>) -> int
    decreases toks.len(),
{
    if toks.len() == 0 {
        0
    } else if toks[0].token_type == SpecTokenType::Eof {
        0
    } else {
        1 + before_eof(toks.drop_first())
    }
}

/// Classifying an operator, comma or dot token consumes nothing further and
/// yields one leaf, so a stream of such tokens (ended by `Eof`) parses
/// without error into exactly one node per token before the terminator.
pub proof fn lemma_parse_plain_stream(toks: Seq<SpecToken>, acc: Seq<SpecNode>)
    requires
        forall|i: int| 0 <= i < toks.len() ==> plain_token(#[trigger] toks[i]),
    ensures
        (parse_s(toks, acc) matches Ok(nodes) && nodes.len() == acc.len() + before_eof(toks)),
    decreases toks.len(),
{
    if toks.len() == 0 {
    } else if toks[0].token_type == SpecTokenType::Eof {
    } else {
        let rest = toks.drop_first();
        assert forall|i: int| 0 <= i < rest.len() implies plain_token(#[trigger] rest[i]) by {
            assert(rest[i] == toks[i + 1]);
        }
        assert(plain_token(toks[0]));
        match parse_token_s(toks[0], rest) {
            Ok(res) => {
                assert(res.1 == rest);
                assert(cap(rest, rest) == rest);
                lemma_parse_plain_stream(rest, acc.push(res.0));
            },
            Err(_) => {
                assert(false);
            },
        }
    }
}

/// For an input consisting only of whitespace, newlines, commas, dots and
/// operator characters, the front end cannot fail: lexing succeeds, the
/// bracket balance holds trivially, parsing succeeds, and the tree holds
/// exactly one top-level node per token before the trailing `Eof`.
pub proof fn lemma_front_end_total_on_simple_inputs(s: Seq<char>)
    requires
        forall|i: int| 0 <= i < s.len() ==> is_simple_char(#[trigger] s[i]),
    ensures
        (lex_spec(s) matches Ok(toks) && (parse_s(toks, Seq::empty()) matches Ok(nodes)
            && nodes.len() == before_eof(toks))),
{
    lemma_lex_simple_chars(s, 1, Seq::empty());
    match lex_from(s, 1, Seq::empty()) {
        Ok(toks) => {
            assert forall|j: int| 0 <= j < toks.len() implies non_bracket(#[trigger] toks[j]) by {
                assert(plain_token(toks[j]));
            }
            lemma_no_brackets_balanced(toks);
            lemma_parse_plain_stream(toks, Seq::empty());
        },
        Err(_) => {
            assert(false);
        },
    }
}

} // verus!
