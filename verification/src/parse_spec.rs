//! The mathematical model of parsing: recursive descent over the token
//! sequence with one-token lookahead, and operator-precedence (shunting-yard)
//! expression parsing over an output stack and an operator stack. The
//! executable parser is specified against `parse_s`.

use vstd::prelude::*;

use crate::diag::SpecParseError;
use crate::diag::ExpectedKind;
use crate::token::SpecToken;
use crate::token::SpecTokenType;
use crate::token::spec_token_text;
use crate::tree::NodeType;
use crate::tree::SpecNode;

verus! {

/// The binding power of an operator name (higher binds tighter); a name
/// outside the table binds loosest.
pub open spec fn prec(op: Seq<char>) -> int {
    if op == "Or"@ {
        1
    } else if op == "And"@ {
        2
    } else if op == "Eq"@ || op == "Ne"@ {
        3
    } else if op == "Lt"@ || op == "Gt"@ || op == "Le"@ || op == "Ge"@ {
        4
    } else if op == "Add"@ || op == "Sub"@ {
        5
    } else if op == "Mul"@ || op == "Div"@ {
        6
    } else {
        0
    }
}

/// A leaf node: no children.
pub open spec fn leaf(node_type: NodeType, value: Option<Seq<char>>, line: int) -> SpecNode {
    SpecNode { node_type, value, line, children: Seq::empty() }
}

/// A binary operator node: the operator's name, its token's line, and the
/// two operands in order.
pub open spec fn op_node(name: Seq<char>, line: int, left: SpecNode, right: SpecNode) -> SpecNode {
    SpecNode {
        node_type: NodeType::Operator,
        value: Option::Some(name),
        line,
        children: seq![left, right],
    }
}

/// Guard used in recursive positions: the tokens left over by a nested parse
/// are always a suffix of what it was given (proved below), so this is the
/// identity wherever it appears; it only makes the descent in each recursion
/// manifest.
pub open spec fn cap(r: Seq<SpecToken>, b: Seq<SpecToken>) -> Seq<SpecToken> {
    if r.len() <= b.len() {
        r
    } else {
        b
    }
}

/// Folds operator-stack entries into binary nodes while the top of the stack
/// binds at least as tightly as the incoming operator (left-associativity).
/// Fails with the offending operator's line when two operands are not
/// available on the output stack.
pub open spec fn fold_ops_s(
    op: Seq<char>,
    outq: Seq<SpecNode>,
    ops: Seq<SpecToken>,
) -> Result<(Seq<SpecNode>, Seq<SpecToken>), int>
    decreases ops.len(),
{
    if ops.len() == 0 {
        Ok((outq, ops))
    } else {
        let top = ops.last();
        let name = spec_token_text(top.token_type);
        if prec(name) >= prec(op) {
            if outq.len() < 2 {
                Err(top.line)
            } else {
                let right = outq.last();
                let left = outq[outq.len() - 2];
                let folded = outq.drop_last().drop_last().push(op_node(name, top.line, left, right));
                fold_ops_s(op, folded, ops.drop_last())
            }
        } else {
            Ok((outq, ops))
        }
    }
}

/// Folds every remaining operator-stack entry into binary nodes and returns
/// the root of the expression: the top of the output stack. Fails with the
/// offending line when operands run out, or with the fallback line when the
/// output stack is empty.
pub open spec fn finish_expr_s(outq: Seq<SpecNode>, ops: Seq<SpecToken>, fallback: int) -> Result<
    SpecNode,
    int,
>
    decreases ops.len(),
{
    if ops.len() == 0 {
        if outq.len() == 0 {
            Err(fallback)
        } else {
            Ok(outq.last())
        }
    } else {
        let top = ops.last();
        let name = spec_token_text(top.token_type);
        if outq.len() < 2 {
            Err(top.line)
        } else {
            let right = outq.last();
            let left = outq[outq.len() - 2];
            let folded = outq.drop_last().drop_last().push(op_node(name, top.line, left, right));
            finish_expr_s(folded, ops.drop_last(), fallback)
        }
    }
}

/// The model of expression parsing: the current (already-consumed) token
/// `t`, the unconsumed tokens `s`, the output stack and the operator stack.
/// Literals and identifiers go to the output stack; operators fold by
/// precedence; a left paren parses a nested expression; an unmatched right
/// paren ends the run; anything else is ignored. Yields the root subtree
/// and the tokens after the run.
pub open spec fn parse_expr_s(
    t: SpecToken,
    s: Seq<SpecToken>,
    outq: Seq<SpecNode>,
    ops: Seq<SpecToken>,
) -> Result<(SpecNode, Seq<SpecToken>), SpecParseError>
    decreases s.len(), 0int,
{
    match t.token_type {
        SpecTokenType::RightParen => match finish_expr_s(outq, ops, t.line) {
            Err(line) => Err(SpecParseError::MalformedExpression { line }),
            Ok(root) => Ok((root, s)),
        },
        SpecTokenType::LeftParen => {
            if s.len() == 0 {
                Err(SpecParseError::MalformedExpression { line: t.line })
            } else {
                match parse_expr_s(s[0], s.drop_first(), Seq::empty(), Seq::empty()) {
                    Err(e) => Err(e),
                    Ok((sub, rest0)) => {
                        let rest = cap(rest0, s.drop_first());
                        let outq2 = outq.push(sub);
                        if rest.len() == 0 {
                            match finish_expr_s(outq2, ops, t.line) {
                                Err(line) => Err(SpecParseError::MalformedExpression { line }),
                                Ok(root) => Ok((root, rest)),
                            }
                        } else {
                            parse_expr_s(rest[0], rest.drop_first(), outq2, ops)
                        }
                    },
                }
            }
        },
        SpecTokenType::Operator(op) => match fold_ops_s(op, outq, ops) {
            Err(line) => Err(SpecParseError::MalformedExpression { line }),
            Ok((outq2, ops2)) => {
                let ops3 = ops2.push(t);
                if s.len() == 0 {
                    match finish_expr_s(outq2, ops3, t.line) {
                        Err(line) => Err(SpecParseError::MalformedExpression { line }),
                        Ok(root) => Ok((root, s)),
                    }
                } else {
                    parse_expr_s(s[0], s.drop_first(), outq2, ops3)
                }
            },
        },
        SpecTokenType::Number(x) => {
            let outq2 = outq.push(leaf(NodeType::Number, Option::Some(x), t.line));
            if s.len() == 0 {
                match finish_expr_s(outq2, ops, t.line) {
                    Err(line) => Err(SpecParseError::MalformedExpression { line }),
                    Ok(root) => Ok((root, s)),
                }
            } else {
                parse_expr_s(s[0], s.drop_first(), outq2, ops)
            }
        },
        SpecTokenType::Str(x) => {
            let outq2 = outq.push(leaf(NodeType::Str, Option::Some(x), t.line));
            if s.len() == 0 {
                match finish_expr_s(outq2, ops, t.line) {
                    Err(line) => Err(SpecParseError::MalformedExpression { line }),
                    Ok(root) => Ok((root, s)),
                }
            } else {
                parse_expr_s(s[0], s.drop_first(), outq2, ops)
            }
        },
        SpecTokenType::Identifier(x) => {
            let outq2 = outq.push(leaf(NodeType::Identifier, Option::Some(x), t.line));
            if s.len() == 0 {
                match finish_expr_s(outq2, ops, t.line) {
                    Err(line) => Err(SpecParseError::MalformedExpression { line }),
                    Ok(root) => Ok((root, s)),
                }
            } else {
                parse_expr_s(s[0], s.drop_first(), outq2, ops)
            }
        },
        _ => {
            if s.len() == 0 {
                match finish_expr_s(outq, ops, t.line) {
                    Err(line) => Err(SpecParseError::MalformedExpression { line }),
                    Ok(root) => Ok((root, s)),
                }
            } else {
                parse_expr_s(s[0], s.drop_first(), outq, ops)
            }
        },
    }
}

/// The model of a comma-separated list (call arguments or `def` parameters,
/// the latter dropping stray left parens): items are classified recursively,
/// a comma is owed between any two, a right paren (or the end of input, or
/// `Eof`) ends the list. Yields the item nodes and the tokens after the
/// list.
pub open spec fn parse_args_s(
    s: Seq<SpecToken>,
    ctx: Seq<char>,
    expect: bool,
    acc: Seq<SpecNode>,
    drop_parens: bool,
) -> Result<(Seq<SpecNode>, Seq<SpecToken>), SpecParseError>
    decreases s.len(), 2int,
{
    if s.len() == 0 {
        Ok((acc, s))
    } else {
        let h = s[0];
        if h.token_type == SpecTokenType::RightParen {
            Ok((acc, s.drop_first()))
        } else if h.token_type == SpecTokenType::Eof {
            Ok((acc, s.drop_first()))
        } else if expect {
            if h.token_type == SpecTokenType::Comma {
                parse_args_s(s.drop_first(), ctx, false, acc, drop_parens)
            } else {
                Err(SpecParseError::ExpectedComma { context: ctx, line: h.line })
            }
        } else if drop_parens && h.token_type == SpecTokenType::LeftParen {
            parse_args_s(s.drop_first(), ctx, expect, acc, drop_parens)
        } else {
            match parse_token_s(h, s.drop_first()) {
                Err(e) => Err(e),
                Ok((node, rest)) => parse_args_s(
                    cap(rest, s.drop_first()),
                    ctx,
                    true,
                    acc.push(node),
                    drop_parens,
                ),
            }
        }
    }
}

/// The model of a brace-counted block body: inner braces adjust the depth
/// and are dropped, the closing brace of depth one (or the end of input, or
/// `Eof`) ends the body, and every other token is classified recursively and
/// appended. Yields the body's nodes and the tokens after the block.
pub open spec fn parse_block_s(
    s: Seq<SpecToken>,
    depth: int,
    acc: Seq<SpecNode>,
) -> Result<(Seq<SpecNode>, Seq<SpecToken>), SpecParseError>
    decreases s.len(), 2int,
{
    if s.len() == 0 {
        Ok((acc, s))
    } else {
        let h = s[0];
        if h.token_type == SpecTokenType::LeftBrace {
            parse_block_s(s.drop_first(), depth + 1, acc)
        } else if h.token_type == SpecTokenType::RightBrace {
            if depth == 1 {
                Ok((acc, s.drop_first()))
            } else {
                parse_block_s(s.drop_first(), depth - 1, acc)
            }
        } else if h.token_type == SpecTokenType::Eof {
            Ok((acc, s.drop_first()))
        } else {
            match parse_token_s(h, s.drop_first()) {
                Err(e) => Err(e),
                Ok((node, rest)) => parse_block_s(cap(rest, s.drop_first()), depth, acc.push(node)),
            }
        }
    }
}

/// The model of classifying one already-consumed token `t` with the
/// unconsumed tokens `s`: a literal before an operator enters expression
/// parsing; an identifier before a paren is a call, before `=` a
/// reassignment; `def` and `if` build their forms with the fatal
/// missing-token discipline; anything unhandled is an `Error` leaf. Yields
/// the node and the tokens after the construct.
pub open spec fn parse_token_s(t: SpecToken, s: Seq<SpecToken>) -> Result<
    (SpecNode, Seq<SpecToken>),
    SpecParseError,
>
    decreases s.len(), 1int,
{
    match t.token_type {
        SpecTokenType::Number(x) => {
            if s.len() > 0 && s[0].token_type matches SpecTokenType::Operator(_) {
                parse_expr_s(t, s, Seq::empty(), Seq::empty())
            } else {
                Ok((leaf(NodeType::Number, Option::Some(x), t.line), s))
            }
        },
        SpecTokenType::Str(x) => Ok((leaf(NodeType::Str, Option::Some(x), t.line), s)),
        SpecTokenType::Identifier(name) => {
            if s.len() > 0 && s[0].token_type == SpecTokenType::LeftParen {
                match parse_args_s(s.drop_first(), name, false, Seq::empty(), false) {
                    Err(e) => Err(e),
                    Ok((args, rest)) => Ok(
                        (
                            SpecNode {
                                node_type: NodeType::FunctionCall,
                                value: Option::Some(name),
                                line: t.line,
                                children: args,
                            },
                            rest,
                        ),
                    ),
                }
            } else if s.len() > 0 && s[0].token_type == SpecTokenType::Operator("Eq"@) {
                if s.len() < 2 {
                    Err(SpecParseError::MalformedExpression { line: s[0].line })
                } else {
                    match parse_expr_s(s[1], s.skip(2), Seq::empty(), Seq::empty()) {
                        Err(e) => Err(e),
                        Ok((rhs, rest)) => Ok(
                            (
                                SpecNode {
                                    node_type: NodeType::Reassignment,
                                    value: Option::None,
                                    line: t.line,
                                    children: seq![
                                        leaf(NodeType::Identifier, Option::Some(name), t.line),
                                        rhs,
                                    ],
                                },
                                rest,
                            ),
                        ),
                    }
                }
            } else {
                Ok((leaf(NodeType::Identifier, Option::Some(name), t.line), s))
            }
        },
        SpecTokenType::Operator(op) => Ok((leaf(NodeType::Operator, Option::Some(op), t.line), s)),
        SpecTokenType::Keyword(kw) => {
            if kw == "def"@ {
                if s.len() == 0 {
                    Err(SpecParseError::ExpectedToken {
                        expected: ExpectedKind::Identifier,
                        line: t.line,
                    })
                } else if !(s[0].token_type matches SpecTokenType::Identifier(_)) {
                    Err(SpecParseError::ExpectedToken {
                        expected: ExpectedKind::Identifier,
                        line: s[0].line,
                    })
                } else if s.len() == 1 {
                    Err(SpecParseError::ExpectedToken {
                        expected: ExpectedKind::LeftParen,
                        line: s[0].line,
                    })
                } else if s[1].token_type != SpecTokenType::LeftParen {
                    Err(SpecParseError::ExpectedToken {
                        expected: ExpectedKind::LeftParen,
                        line: s[1].line,
                    })
                } else {
                    let name = spec_token_text(s[0].token_type);
                    match parse_args_s(s.skip(2), kw, false, Seq::empty(), true) {
                        Err(e) => Err(e),
                        Ok((params, rest0)) => {
                            let rest = cap(rest0, s.skip(2));
                            if rest.len() == 0 {
                                Err(SpecParseError::ExpectedToken {
                                    expected: ExpectedKind::LeftBrace,
                                    line: t.line,
                                })
                            } else if rest[0].token_type != SpecTokenType::LeftBrace {
                                Err(SpecParseError::ExpectedToken {
                                    expected: ExpectedKind::LeftBrace,
                                    line: rest[0].line,
                                })
                            } else {
                                match parse_block_s(rest.drop_first(), 1, Seq::empty()) {
                                    Err(e) => Err(e),
                                    Ok((kids, rest2)) => {
                                        let body = SpecNode {
                                            node_type: NodeType::Block,
                                            value: Option::None,
                                            line: rest[0].line,
                                            children: kids,
                                        };
                                        Ok(
                                            (
                                                SpecNode {
                                                    node_type: NodeType::Function,
                                                    value: Option::Some(name),
                                                    line: t.line,
                                                    children: params.push(body),
                                                },
                                                rest2,
                                            ),
                                        )
                                    },
                                }
                            }
                        },
                    }
                }
            } else if kw == "if"@ {
                if s.len() == 0 {
                    Err(SpecParseError::ExpectedToken {
                        expected: ExpectedKind::LeftParen,
                        line: t.line,
                    })
                } else if s[0].token_type != SpecTokenType::LeftParen {
                    Err(SpecParseError::ExpectedToken {
                        expected: ExpectedKind::LeftParen,
                        line: s[0].line,
                    })
                } else if s.len() == 1 {
                    Err(SpecParseError::ExpectedToken {
                        expected: ExpectedKind::RightParen,
                        line: s[0].line,
                    })
                } else {
                    match parse_token_s(s[1], s.skip(2)) {
                        Err(e) => Err(e),
                        Ok((cond, rest0)) => {
                            let rest = cap(rest0, s.skip(2));
                            if rest.len() == 0 {
                                Err(SpecParseError::ExpectedToken {
                                    expected: ExpectedKind::RightParen,
                                    line: t.line,
                                })
                            } else if rest[0].token_type != SpecTokenType::RightParen {
                                Err(SpecParseError::ExpectedToken {
                                    expected: ExpectedKind::RightParen,
                                    line: rest[0].line,
                                })
                            } else if rest.len() == 1 {
                                Err(SpecParseError::ExpectedToken {
                                    expected: ExpectedKind::LeftBrace,
                                    line: rest[0].line,
                                })
                            } else if rest[1].token_type != SpecTokenType::LeftBrace {
                                Err(SpecParseError::ExpectedToken {
                                    expected: ExpectedKind::LeftBrace,
                                    line: rest[1].line,
                                })
                            } else {
                                match parse_block_s(rest.skip(2), 1, Seq::empty()) {
                                    Err(e) => Err(e),
                                    Ok((kids, rest2)) => {
                                        let body = SpecNode {
                                            node_type: NodeType::Block,
                                            value: Option::None,
                                            line: rest[1].line,
                                            children: kids,
                                        };
                                        Ok(
                                            (
                                                SpecNode {
                                                    node_type: NodeType::Conditional,
                                                    value: Option::Some(kw),
                                                    line: t.line,
                                                    children: seq![cond, body],
                                                },
                                                rest2,
                                            ),
                                        )
                                    },
                                }
                            }
                        },
                    }
                }
            } else {
                Ok((leaf(NodeType::Keyword, Option::Some(kw), t.line), s))
            }
        },
        _ => Ok((leaf(NodeType::Error, Option::None, t.line), s)),
    }
}

/// An expression run leaves over a suffix: never more tokens than it was
/// given.
pub proof fn lemma_parse_expr_suffix(
    t: SpecToken,
    s: Seq<SpecToken>,
    outq: Seq<SpecNode>,
    ops: Seq<SpecToken>,
)
    ensures
        parse_expr_s(t, s, outq, ops) matches Ok(r) ==> r.1.len() <= s.len(),
    decreases s.len(), 0int,
{
    match t.token_type {
        SpecTokenType::LeftParen => {
            if s.len() > 0 {
                match parse_expr_s(s[0], s.drop_first(), Seq::empty(), Seq::empty()) {
                    Err(_) => {},
                    Ok((sub, rest0)) => {
                        let rest = cap(rest0, s.drop_first());
                        if rest.len() > 0 {
                            lemma_parse_expr_suffix(rest[0], rest.drop_first(), outq.push(sub), ops);
                        }
                    },
                }
            }
        },
        SpecTokenType::Operator(op) => {
            match fold_ops_s(op, outq, ops) {
                Err(_) => {},
                Ok((outq2, ops2)) => {
                    if s.len() > 0 {
                        lemma_parse_expr_suffix(s[0], s.drop_first(), outq2, ops2.push(t));
                    }
                },
            }
        },
        SpecTokenType::Number(x) => {
            if s.len() > 0 {
                lemma_parse_expr_suffix(
                    s[0],
                    s.drop_first(),
                    outq.push(leaf(NodeType::Number, Option::Some(x), t.line)),
                    ops,
                );
            }
        },
        SpecTokenType::Str(x) => {
            if s.len() > 0 {
                lemma_parse_expr_suffix(
                    s[0],
                    s.drop_first(),
                    outq.push(leaf(NodeType::Str, Option::Some(x), t.line)),
                    ops,
                );
            }
        },
        SpecTokenType::Identifier(x) => {
            if s.len() > 0 {
                lemma_parse_expr_suffix(
                    s[0],
                    s.drop_first(),
                    outq.push(leaf(NodeType::Identifier, Option::Some(x), t.line)),
                    ops,
                );
            }
        },
        SpecTokenType::RightParen => {},
        _ => {
            if s.len() > 0 {
                lemma_parse_expr_suffix(s[0], s.drop_first(), outq, ops);
            }
        },
    }
}

/// A comma-separated list leaves over a suffix: never more tokens than it
/// was given.
pub proof fn lemma_parse_args_suffix(
    s: Seq<SpecToken>,
    ctx: Seq<char>,
    expect: bool,
    acc: Seq<SpecNode>,
    drop_parens: bool,
)
    ensures
        parse_args_s(s, ctx, expect, acc, drop_parens) matches Ok(r) ==> r.1.len() <= s.len(),
    decreases s.len(), 2int,
{
    if s.len() > 0 {
        let h = s[0];
        if h.token_type == SpecTokenType::RightParen || h.token_type == SpecTokenType::Eof {
        } else if expect {
            if h.token_type == SpecTokenType::Comma {
                lemma_parse_args_suffix(s.drop_first(), ctx, false, acc, drop_parens);
            }
        } else if drop_parens && h.token_type == SpecTokenType::LeftParen {
            lemma_parse_args_suffix(s.drop_first(), ctx, expect, acc, drop_parens);
        } else {
            match parse_token_s(h, s.drop_first()) {
                Err(_) => {},
                Ok((node, rest)) => {
                    lemma_parse_args_suffix(
                        cap(rest, s.drop_first()),
                        ctx,
                        true,
                        acc.push(node),
                        drop_parens,
                    );
                },
            }
        }
    }
}

/// A block body leaves over a suffix: never more tokens than it was given.
pub proof fn lemma_parse_block_suffix(s: Seq<SpecToken>, depth: int, acc: Seq<SpecNode>)
    ensures
        parse_block_s(s, depth, acc) matches Ok(r) ==> r.1.len() <= s.len(),
    decreases s.len(), 2int,
{
    if s.len() > 0 {
        let h = s[0];
        if h.token_type == SpecTokenType::LeftBrace {
            lemma_parse_block_suffix(s.drop_first(), depth + 1, acc);
        } else if h.token_type == SpecTokenType::RightBrace {
            if depth != 1 {
                lemma_parse_block_suffix(s.drop_first(), depth - 1, acc);
            }
        } else if h.token_type == SpecTokenType::Eof {
        } else {
            match parse_token_s(h, s.drop_first()) {
                Err(_) => {},
                Ok((node, rest)) => {
                    lemma_parse_block_suffix(cap(rest, s.drop_first()), depth, acc.push(node));
                },
            }
        }
    }
}

/// Classifying one token leaves over a suffix: never more tokens than it
/// was given.
pub proof fn lemma_parse_token_suffix(t: SpecToken, s: Seq<SpecToken>)
    ensures
        parse_token_s(t, s) matches Ok(r) ==> r.1.len() <= s.len(),
    decreases s.len(), 1int,
{
    match t.token_type {
        SpecTokenType::Number(_) => {
            if s.len() > 0 && s[0].token_type matches SpecTokenType::Operator(_) {
                lemma_parse_expr_suffix(t, s, Seq::empty(), Seq::empty());
            }
        },
        SpecTokenType::Identifier(_) => {
            if s.len() > 0 && s[0].token_type == SpecTokenType::LeftParen {
                lemma_parse_args_suffix(s.drop_first(), spec_token_text(t.token_type), false, Seq::empty(), false);
            } else if s.len() >= 2 && s[0].token_type == SpecTokenType::Operator("Eq"@) {
                lemma_parse_expr_suffix(s[1], s.skip(2), Seq::empty(), Seq::empty());
            }
        },
        SpecTokenType::Keyword(kw) => {
            if kw == "def"@ {
                if s.len() >= 2 && (s[0].token_type matches SpecTokenType::Identifier(_))
                    && s[1].token_type == SpecTokenType::LeftParen {
                    lemma_parse_args_suffix(s.skip(2), kw, false, Seq::empty(), true);
                    match parse_args_s(s.skip(2), kw, false, Seq::empty(), true) {
                        Err(_) => {},
                        Ok((params, rest0)) => {
                            let rest = cap(rest0, s.skip(2));
                            if rest.len() > 0 && rest[0].token_type == SpecTokenType::LeftBrace {
                                lemma_parse_block_suffix(rest.drop_first(), 1, Seq::empty());
                            }
                        },
                    }
                }
            } else if kw == "if"@ {
                if s.len() >= 2 && s[0].token_type == SpecTokenType::LeftParen {
                    lemma_parse_token_suffix(s[1], s.skip(2));
                    match parse_token_s(s[1], s.skip(2)) {
                        Err(_) => {},
                        Ok((cond, rest0)) => {
                            let rest = cap(rest0, s.skip(2));
                            if rest.len() >= 2 && rest[0].token_type == SpecTokenType::RightParen
                                && rest[1].token_type == SpecTokenType::LeftBrace {
                                lemma_parse_block_suffix(rest.skip(2), 1, Seq::empty());
                            }
                        },
                    }
                }
            }
        },
        _ => {},
    }
}

/// The model of one whole parse: top-level tokens are classified one at a
/// time until the sequence (or an `Eof` token) is reached, each yielding one
/// node appended in order.
pub open spec fn parse_s(toks: Seq<SpecToken>, acc: Seq<SpecNode>) -> Result<
    Seq<SpecNode>,
    SpecParseError,
>
    decreases toks.len(),
{
    if toks.len() == 0 {
        Ok(acc)
    } else if toks[0].token_type == SpecTokenType::Eof {
        Ok(acc)
    } else {
        match parse_token_s(toks[0], toks.drop_first()) {
            Err(e) => Err(e),
            Ok((node, rest)) => parse_s(cap(rest, toks.drop_first()), acc.push(node)),
        }
    }
}

} // verus!
