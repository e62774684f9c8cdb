//! The executable parser: consumes the token sequence by value through a
//! forward-only cursor with one-token lookahead, and produces the tree of
//! top-level nodes. It is verified against the model in `parse_spec`:
//! parsing produces exactly the nodes that `parse_s` describes.

use vstd::prelude::*;
use vstd::string::StringExecFns;

use crate::diag::ExpectedKind;
use crate::diag::ParseError;
use crate::parse_spec::cap;
use crate::parse_spec::finish_expr_s;
use crate::parse_spec::fold_ops_s;
use crate::parse_spec::leaf;
use crate::parse_spec::lemma_parse_args_suffix;
use crate::parse_spec::lemma_parse_expr_suffix;
use crate::parse_spec::lemma_parse_token_suffix;
use crate::parse_spec::parse_args_s;
use crate::parse_spec::parse_block_s;
use crate::parse_spec::parse_expr_s;
use crate::parse_spec::parse_s;
use crate::parse_spec::parse_token_s;
use crate::parse_spec::prec;
use crate::token::SpecToken;
use crate::token::SpecTokenType;
use crate::token::Token;
use crate::token::TokenType;
use crate::token::toks_view;
use crate::tree::Node;
use crate::tree::NodeType;
use crate::tree::SpecNode;
use crate::tree::Tree;
use crate::tree::lemma_nodes_view_index;
use crate::tree::lemma_nodes_view_push;
use crate::tree::node_view;
use crate::tree::nodes_view;

verus! {

/// The binding power of an operator name; names outside the table bind
/// loosest.
fn get_precedence(op: &String) -> (r: u32)
    ensures
        r as int == prec(op@),
{
    if *op == String::from_str("Or") {
        1
    } else if *op == String::from_str("And") {
        2
    } else if *op == String::from_str("Eq") || *op == String::from_str("Ne") {
        3
    } else if *op == String::from_str("Lt") || *op == String::from_str("Gt") || *op
        == String::from_str("Le") || *op == String::from_str("Ge") {
        4
    } else if *op == String::from_str("Add") || *op == String::from_str("Sub") {
        5
    } else if *op == String::from_str("Mul") || *op == String::from_str("Div") {
        6
    } else {
        0
    }
}

/// Consuming one token moves the head of `remaining` off.
proof fn lemma_pstep(pre: Parser, post: Parser)
    requires
        pre.pos < pre.tokens@.len(),
        post.tokens@ == pre.tokens@,
        post.pos == pre.pos + 1,
    ensures
        pre.remaining().len() > 0,
        pre.remaining()[0] == pre.tokens@[pre.pos as int]@,
        post.remaining() == pre.remaining().drop_first(),
{
    assert(post.remaining() =~= pre.remaining().drop_first());
}

/// The parser: the token sequence, a forward-only cursor over it, and the
/// tree of finished top-level nodes.
#[derive(Debug)]
pub struct Parser {
    pub tokens: Vec<Token>,
    pub pos: usize,
    pub tree: Tree,
}

impl Parser {
    /// The models of the tokens not yet consumed.
    pub open spec fn remaining(&self) -> Seq<SpecToken> {
        toks_view(self.tokens@).skip(self.pos as int)
    }

    /// The cursor does not pass the end.
    pub open spec fn wf(&self) -> bool {
        self.pos <= self.tokens@.len()
    }

    /// Wraps a finished token sequence in a cursor, with an empty tree.
    pub fn new(tokens: Vec<Token>) -> (r: Parser)
        ensures
            r.wf(),
            r.tokens@ == tokens@,
            r.pos == 0,
            r.tree@ == Seq::<SpecNode>::empty(),
    {
        Parser { tokens, pos: 0, tree: Tree::new() }
    }

    /// The next token, if any is left, without consuming it.
    fn peek(&self) -> (r: Option<&Token>)
        ensures
            self.pos < self.tokens@.len() ==> (r matches Some(t) && *t == self.tokens@[self.pos as int]),
            self.pos >= self.tokens@.len() ==> r is None,
    {
        if self.pos < self.tokens.len() {
            Option::Some(&self.tokens[self.pos])
        } else {
            Option::None
        }
    }

    /// Consumes and returns the next token, if any is left.
    fn next(&mut self) -> (r: Option<Token>)
        requires
            old(self).wf(),
        ensures
            final(self).wf(),
            final(self).tokens@ == old(self).tokens@,
            final(self).tree == old(self).tree,
            old(self).pos < old(self).tokens@.len() ==> (r matches Some(t) && t == old(
                self,
            ).tokens@[old(self).pos as int] && final(self).pos == old(self).pos + 1),
            old(self).pos >= old(self).tokens@.len() ==> (r is None && final(self).pos == old(
                self,
            ).pos),
    {
        if self.pos < self.tokens.len() {
            let t = self.tokens[self.pos].clone();
            self.pos = self.pos + 1;
            Option::Some(t)
        } else {
            Option::None
        }
    }

    /// Parses the whole remaining token sequence: classifies one top-level
    /// token after another until the tokens (or a trailing `Eof`) run out,
    /// appending each resulting node to the tree in order; stops at the
    /// first fatal condition, which it returns.
    pub fn parse(&mut self) -> (r: Result<(), ParseError>)
        requires
            old(self).wf(),
        ensures
            final(self).wf(),
            final(self).tokens@ == old(self).tokens@,
            match parse_s(old(self).remaining(), old(self).tree@) {
                Ok(nodes) => r is Ok && final(self).tree@ == nodes,
                Err(e) => r matches Err(p) && p@ == e,
            },
    {
        loop
            invariant
                self.wf(),
                old(self).pos <= self.pos,
                self.tokens@ == old(self).tokens@,
                parse_s(old(self).remaining(), old(self).tree@) == parse_s(
                    self.remaining(),
                    self.tree@,
                ),
            decreases self.tokens@.len() - self.pos,
        {
            let ghost pre = *self;
            if self.pos == self.tokens.len() {
                proof {
                    assert(self.remaining() =~= Seq::<SpecToken>::empty());
                }
                return Ok(());
            }
            let t = self.next().unwrap();
            proof {
                lemma_pstep(pre, *self);
            }
            let is_eof = match &t.token_type {
                TokenType::Eof => true,
                _ => false,
            };
            if is_eof {
                return Ok(());
            }
            match self.parse_token(t) {
                Ok(node) => {
                    let ghost mid = *self;
                    self.tree.add_node(node);
                    proof {
                        lemma_parse_token_suffix(t@, pre.remaining().drop_first());
                        assert(cap(mid.remaining(), pre.remaining().drop_first())
                            == mid.remaining());
                    }
                },
                Err(e) => {
                    return Err(e);
                },
            }
            proof {
                assert(pre.remaining().len() == pre.tokens@.len() - pre.pos);
                assert(self.remaining().len() == self.tokens@.len() - self.pos);
            }
        }
    }

    /// Classifies one already-consumed token, possibly consuming more, and
    /// returns the node for the construct it starts.
    fn parse_token(&mut self, token: Token) -> (r: Result<Node, ParseError>)
        requires
            old(self).wf(),
        ensures
            final(self).wf(),
            final(self).tokens@ == old(self).tokens@,
            final(self).tree == old(self).tree,
            match parse_token_s(token@, old(self).remaining()) {
                Ok(res) => (r matches Ok(n) && n@ == res.0 && final(self).remaining() == res.1),
                Err(e) => (r matches Err(p) && p@ == e),
            },
        decreases self.tokens@.len() - self.pos, 1int,
    {
        let ghost s = old(self).remaining();
        match &token.token_type {
            TokenType::Number(x) => {
                let follows_op = match self.peek() {
                    Option::Some(t2) => match &t2.token_type {
                        TokenType::Operator(_) => true,
                        _ => false,
                    },
                    Option::None => false,
                };
                proof {
                    if self.pos < self.tokens@.len() {
                        assert(s[0] == self.tokens@[self.pos as int]@);
                    }
                }
                if follows_op {
                    self.parse_expression(token)
                } else {
                    Ok(Node::new(NodeType::Number, Option::Some(x.clone()), token.line))
                }
            },
            TokenType::Str(x) => Ok(Node::new(NodeType::Str, Option::Some(x.clone()), token.line)),
            TokenType::Identifier(name) => {
                let follows_paren = match self.peek() {
                    Option::Some(t2) => match &t2.token_type {
                        TokenType::LeftParen => true,
                        _ => false,
                    },
                    Option::None => false,
                };
                proof {
                    if self.pos < self.tokens@.len() {
                        assert(s[0] == self.tokens@[self.pos as int]@);
                    }
                }
                if follows_paren {
                    let ghost pre = *self;
                    let _ = self.next();
                    proof {
                        lemma_pstep(pre, *self);
                    }
                    let mut node = Node::new(
                        NodeType::FunctionCall,
                        Option::Some(name.clone()),
                        token.line,
                    );
                    match self.parse_args(name.clone(), false, &mut node) {
                        Ok(()) => Ok(node),
                        Err(e) => Err(e),
                    }
                } else {
                    let eq_line: Option<usize> = match self.peek() {
                        Option::Some(t2) => match &t2.token_type {
                            TokenType::Operator(nm) => if *nm == String::from_str("Eq") {
                                Option::Some(t2.line)
                            } else {
                                Option::None
                            },
                            _ => Option::None,
                        },
                        Option::None => Option::None,
                    };
                    match eq_line {
                        Option::Some(el) => {
                            let ghost pre = *self;
                            let _ = self.next();
                            proof {
                                lemma_pstep(pre, *self);
                            }
                            let ghost mid = *self;
                            match self.next() {
                                Option::None => {
                                    proof {
                                        assert(self.remaining() =~= Seq::<SpecToken>::empty());
                                        assert(s.len() == 1);
                                    }
                                    Err(ParseError::MalformedExpression { line: el })
                                },
                                Option::Some(nxt) => {
                                    proof {
                                        lemma_pstep(mid, *self);
                                        assert(self.remaining() =~= s.skip(2));
                                        assert(s[1] == nxt@);
                                    }
                                    match self.parse_expression(nxt) {
                                        Err(e) => Err(e),
                                        Ok(rhs) => {
                                            let mut rnode = Node::new(
                                                NodeType::Reassignment,
                                                Option::None,
                                                token.line,
                                            );
                                            rnode.add_child(
                                                Node::new(
                                                    NodeType::Identifier,
                                                    Option::Some(name.clone()),
                                                    token.line,
                                                ),
                                            );
                                            let ghost rv = node_view(rhs);
                                            rnode.add_child(rhs);
                                            proof {
                                                let idleaf = leaf(
                                                    NodeType::Identifier,
                                                    Option::Some(name@),
                                                    token.line as int,
                                                );
                                                assert(rnode@.children =~= seq![idleaf, rv]);
                                            }
                                            Ok(rnode)
                                        },
                                    }
                                },
                            }
                        },
                        Option::None => Ok(
                            Node::new(NodeType::Identifier, Option::Some(name.clone()), token.line),
                        ),
                    }
                }
            },
            TokenType::Operator(op) => Ok(
                Node::new(NodeType::Operator, Option::Some(op.clone()), token.line),
            ),
            TokenType::Keyword(kw) => {
                if *kw == String::from_str("def") {
                    self.parse_def(kw.clone(), token.line)
                } else if *kw == String::from_str("if") {
                    self.parse_if(kw.clone(), token.line)
                } else {
                    Ok(Node::new(NodeType::Keyword, Option::Some(kw.clone()), token.line))
                }
            },
            _ => Ok(Node::new(NodeType::Error, Option::None, token.line)),
        }
    }

    /// Parses a comma-separated item list up to the matching right paren,
    /// appending each item to `node`'s children: a comma is owed between any
    /// two items; for `def` parameter lists (`drop_parens`) stray left
    /// parens are dropped.
    fn parse_args(&mut self, ctx: String, drop_parens: bool, node: &mut Node) -> (r: Result<
        (),
        ParseError,
    >)
        requires
            old(self).wf(),
        ensures
            final(self).wf(),
            final(self).tokens@ == old(self).tokens@,
            final(self).tree == old(self).tree,
            match parse_args_s(
                old(self).remaining(),
                ctx@,
                false,
                old(node)@.children,
                drop_parens,
            ) {
                Ok(res) => (r is Ok && final(node)@ == (SpecNode {
                    children: res.0,
                    ..old(node)@
                }) && final(self).remaining() == res.1),
                Err(e) => (r matches Err(p) && p@ == e),
            },
        decreases self.tokens@.len() - self.pos, 2int,
    {
        let mut expect = false;
        loop
            invariant
                self.wf(),
                old(self).pos <= self.pos,
                self.tokens@ == old(self).tokens@,
                self.tree == old(self).tree,
                node@.node_type == old(node)@.node_type,
                node@.value == old(node)@.value,
                node@.line == old(node)@.line,
                parse_args_s(
                    old(self).remaining(),
                    ctx@,
                    false,
                    old(node)@.children,
                    drop_parens,
                ) == parse_args_s(self.remaining(), ctx@, expect, node@.children, drop_parens),
            decreases self.tokens@.len() - self.pos,
        {
            let ghost pre = *self;
            if self.pos == self.tokens.len() {
                proof {
                    assert(self.remaining() =~= Seq::<SpecToken>::empty());
                }
                return Ok(());
            }
            let t = self.next().unwrap();
            proof {
                lemma_pstep(pre, *self);
            }
            match &t.token_type {
                TokenType::RightParen => {
                    return Ok(());
                },
                TokenType::Eof => {
                    return Ok(());
                },
                _ => {},
            }
            if expect {
                let is_comma = match &t.token_type {
                    TokenType::Comma => true,
                    _ => false,
                };
                if is_comma {
                    expect = false;
                    continue ;
                }
                return Err(ParseError::ExpectedComma { context: ctx, line: t.line });
            }
            if drop_parens {
                let is_lparen = match &t.token_type {
                    TokenType::LeftParen => true,
                    _ => false,
                };
                if is_lparen {
                    continue ;
                }
            }
            let ghost mid = *self;
            match self.parse_token(t) {
                Ok(child) => {
                    node.add_child(child);
                    expect = true;
                    proof {
                        lemma_parse_token_suffix(t@, mid.remaining());
                        assert(cap(self.remaining(), mid.remaining()) == self.remaining());
                    }
                },
                Err(e) => {
                    return Err(e);
                },
            }
            proof {
                assert(pre.remaining().len() == pre.tokens@.len() - pre.pos);
                assert(self.remaining().len() == self.tokens@.len() - self.pos);
            }
        }
    }

    /// Parses a brace-counted block body up to the matching right brace,
    /// appending each classified inner construct to `node`'s children;
    /// nested brace pairs adjust the depth and are dropped.
    fn parse_block(&mut self, node: &mut Node) -> (r: Result<(), ParseError>)
        requires
            old(self).wf(),
            1 <= old(self).pos,
        ensures
            final(self).wf(),
            final(self).tokens@ == old(self).tokens@,
            final(self).tree == old(self).tree,
            match parse_block_s(old(self).remaining(), 1, old(node)@.children) {
                Ok(res) => (r is Ok && final(node)@ == (SpecNode {
                    children: res.0,
                    ..old(node)@
                }) && final(self).remaining() == res.1),
                Err(e) => (r matches Err(p) && p@ == e),
            },
        decreases self.tokens@.len() - self.pos, 2int,
    {
        let mut depth: usize = 1;
        loop
            invariant
                self.wf(),
                old(self).pos <= self.pos,
                self.tokens@ == old(self).tokens@,
                self.tree == old(self).tree,
                node@.node_type == old(node)@.node_type,
                node@.value == old(node)@.value,
                node@.line == old(node)@.line,
                1 <= depth,
                depth <= self.pos,
                parse_block_s(old(self).remaining(), 1, old(node)@.children) == parse_block_s(
                    self.remaining(),
                    depth as int,
                    node@.children,
                ),
            decreases self.tokens@.len() - self.pos,
        {
            let ghost pre = *self;
            if self.pos == self.tokens.len() {
                proof {
                    assert(self.remaining() =~= Seq::<SpecToken>::empty());
                }
                return Ok(());
            }
            let t = self.next().unwrap();
            proof {
                lemma_pstep(pre, *self);
            }
            let kind: u32 = match &t.token_type {
                TokenType::LeftBrace => 0,
                TokenType::RightBrace => 1,
                TokenType::Eof => 2,
                _ => 3,
            };
            if kind == 0 {
                depth = depth + 1;
                continue ;
            }
            if kind == 1 {
                depth = depth - 1;
                if depth == 0 {
                    return Ok(());
                }
                continue ;
            }
            if kind == 2 {
                return Ok(());
            }
            let ghost mid = *self;
            match self.parse_token(t) {
                Ok(child) => {
                    node.add_child(child);
                    proof {
                        lemma_parse_token_suffix(t@, mid.remaining());
                        assert(cap(self.remaining(), mid.remaining()) == self.remaining());
                    }
                },
                Err(e) => {
                    return Err(e);
                },
            }
            proof {
                assert(pre.remaining().len() == pre.tokens@.len() - pre.pos);
                assert(self.remaining().len() == self.tokens@.len() - self.pos);
            }
        }
    }

    /// Parses the strict `def` form after the keyword: name, paren-wrapped
    /// parameter list, then a brace-counted body; any missing expected token
    /// is fatal. Yields the `Function` node: the parameters in order, then
    /// the body block.
    fn parse_def(&mut self, kw: String, kline: usize) -> (r: Result<Node, ParseError>)
        requires
            old(self).wf(),
            kw@ == "def"@,
        ensures
            final(self).wf(),
            final(self).tokens@ == old(self).tokens@,
            final(self).tree == old(self).tree,
            match parse_token_s(
                SpecToken { token_type: SpecTokenType::Keyword(kw@), line: kline as int },
                old(self).remaining(),
            ) {
                Ok(res) => (r matches Ok(n) && n@ == res.0 && final(self).remaining() == res.1),
                Err(e) => (r matches Err(p) && p@ == e),
            },
        decreases self.tokens@.len() - self.pos, 0int,
    {
        let ghost s = old(self).remaining();
        let ghost pre = *self;
        let name_tok = match self.next() {
            Option::None => {
                return Err(
                    ParseError::ExpectedToken { expected: ExpectedKind::Identifier, line: kline },
                );
            },
            Option::Some(t) => t,
        };
        proof {
            lemma_pstep(pre, *self);
        }
        let name_line = name_tok.line;
        let name = match name_tok.token_type {
            TokenType::Identifier(n) => n,
            _ => {
                return Err(
                    ParseError::ExpectedToken {
                        expected: ExpectedKind::Identifier,
                        line: name_line,
                    },
                );
            },
        };
        let ghost mid = *self;
        let lp = match self.next() {
            Option::None => {
                return Err(
                    ParseError::ExpectedToken { expected: ExpectedKind::LeftParen, line: name_line },
                );
            },
            Option::Some(t) => t,
        };
        proof {
            lemma_pstep(mid, *self);
            assert(self.remaining() =~= s.skip(2));
            assert(s[1] == lp@);
        }
        let is_lp = match &lp.token_type {
            TokenType::LeftParen => true,
            _ => false,
        };
        if !is_lp {
            return Err(ParseError::ExpectedToken { expected: ExpectedKind::LeftParen, line: lp.line });
        }
        let mut fnode = Node::new(NodeType::Function, Option::Some(name), kline);
        let ghost args_start = *self;
        match self.parse_args(kw, true, &mut fnode) {
            Ok(()) => {},
            Err(e) => {
                return Err(e);
            },
        }
        proof {
            lemma_parse_args_suffix(args_start.remaining(), "def"@, false, Seq::empty(), true);
            assert(cap(self.remaining(), args_start.remaining()) == self.remaining());
        }
        let ghost before_lb = *self;
        let lb = match self.next() {
            Option::None => {
                return Err(
                    ParseError::ExpectedToken { expected: ExpectedKind::LeftBrace, line: kline },
                );
            },
            Option::Some(t) => t,
        };
        proof {
            lemma_pstep(before_lb, *self);
        }
        let is_lb = match &lb.token_type {
            TokenType::LeftBrace => true,
            _ => false,
        };
        if !is_lb {
            return Err(ParseError::ExpectedToken { expected: ExpectedKind::LeftBrace, line: lb.line });
        }
        let mut body = Node::new(NodeType::Block, Option::None, lb.line);
        match self.parse_block(&mut body) {
            Ok(()) => {},
            Err(e) => {
                return Err(e);
            },
        }
        fnode.add_child(body);
        Ok(fnode)
    }

    /// Parses the strict `if` form after the keyword: paren-wrapped
    /// condition, then a brace-counted body; any missing expected token is
    /// fatal. Yields the `Conditional` node: the condition, then the body
    /// block.
    fn parse_if(&mut self, kw: String, kline: usize) -> (r: Result<Node, ParseError>)
        requires
            old(self).wf(),
            kw@ == "if"@,
        ensures
            final(self).wf(),
            final(self).tokens@ == old(self).tokens@,
            final(self).tree == old(self).tree,
            match parse_token_s(
                SpecToken { token_type: SpecTokenType::Keyword(kw@), line: kline as int },
                old(self).remaining(),
            ) {
                Ok(res) => (r matches Ok(n) && n@ == res.0 && final(self).remaining() == res.1),
                Err(e) => (r matches Err(p) && p@ == e),
            },
        decreases self.tokens@.len() - self.pos, 0int,
    {
        proof {
            reveal_strlit("if");
            reveal_strlit("def");
            assert("if"@.len() == 2);
            assert("def"@.len() == 3);
        }
        let ghost s = old(self).remaining();
        let ghost pre = *self;
        let lp = match self.next() {
            Option::None => {
                return Err(
                    ParseError::ExpectedToken { expected: ExpectedKind::LeftParen, line: kline },
                );
            },
            Option::Some(t) => t,
        };
        proof {
            lemma_pstep(pre, *self);
        }
        let is_lp = match &lp.token_type {
            TokenType::LeftParen => true,
            _ => false,
        };
        if !is_lp {
            return Err(ParseError::ExpectedToken { expected: ExpectedKind::LeftParen, line: lp.line });
        }
        let ghost mid = *self;
        let cond_tok = match self.next() {
            Option::None => {
                return Err(
                    ParseError::ExpectedToken { expected: ExpectedKind::RightParen, line: lp.line },
                );
            },
            Option::Some(t) => t,
        };
        proof {
            lemma_pstep(mid, *self);
            assert(self.remaining() =~= s.skip(2));
            assert(s[1] == cond_tok@);
        }
        let ghost cond_start = *self;
        let cond = match self.parse_token(cond_tok) {
            Ok(n) => n,
            Err(e) => {
                return Err(e);
            },
        };
        proof {
            lemma_parse_token_suffix(cond_tok@, cond_start.remaining());
            assert(cap(self.remaining(), cond_start.remaining()) == self.remaining());
        }
        let ghost rest = self.remaining();
        let ghost before_rp = *self;
        let rp = match self.next() {
            Option::None => {
                return Err(
                    ParseError::ExpectedToken { expected: ExpectedKind::RightParen, line: kline },
                );
            },
            Option::Some(t) => t,
        };
        proof {
            lemma_pstep(before_rp, *self);
        }
        let is_rp = match &rp.token_type {
            TokenType::RightParen => true,
            _ => false,
        };
        if !is_rp {
            return Err(
                ParseError::ExpectedToken { expected: ExpectedKind::RightParen, line: rp.line },
            );
        }
        let ghost before_lb = *self;
        let lb = match self.next() {
            Option::None => {
                return Err(
                    ParseError::ExpectedToken { expected: ExpectedKind::LeftBrace, line: rp.line },
                );
            },
            Option::Some(t) => t,
        };
        proof {
            lemma_pstep(before_lb, *self);
            assert(self.remaining() =~= rest.skip(2));
            assert(rest[1] == lb@);
        }
        let is_lb = match &lb.token_type {
            TokenType::LeftBrace => true,
            _ => false,
        };
        if !is_lb {
            return Err(ParseError::ExpectedToken { expected: ExpectedKind::LeftBrace, line: lb.line });
        }
        let mut body = Node::new(NodeType::Block, Option::None, lb.line);
        match self.parse_block(&mut body) {
            Ok(()) => {},
            Err(e) => {
                return Err(e);
            },
        }
        let mut inode = Node::new(NodeType::Conditional, Option::Some(kw), kline);
        inode.add_child(cond);
        inode.add_child(body);
        proof {
            assert(inode@.children =~= seq![node_view(cond), node_view(body)]);
        }
        Ok(inode)
    }


    /// Parses one flat expression run by operator precedence: literals and
    /// identifiers go to an output stack, operators fold by precedence
    /// (left-associative), parenthesized sub-expressions recurse, and an
    /// unmatched right paren or the end of the tokens ends the run. Yields
    /// the root of the expression subtree.
    #[verifier::loop_isolation(false)]
    fn parse_expression(&mut self, first_token: Token) -> (r: Result<Node, ParseError>)
        requires
            old(self).wf(),
        ensures
            final(self).wf(),
            final(self).tokens@ == old(self).tokens@,
            final(self).tree == old(self).tree,
            match parse_expr_s(first_token@, old(self).remaining(), Seq::empty(), Seq::empty()) {
                Ok(res) => (r matches Ok(n) && n@ == res.0 && final(self).remaining() == res.1),
                Err(e) => (r matches Err(p) && p@ == e),
            },
        decreases self.tokens@.len() - self.pos, 0int,
    {
        let ghost f0 = first_token@;
        let ghost s0 = old(self).remaining();
        let mut output: Vec<Node> = Vec::new();
        let mut ops: Vec<Token> = Vec::new();
        let mut current = first_token;
        proof {
            assert(nodes_view(output@) =~= Seq::<SpecNode>::empty());
            assert(toks_view(ops@) =~= Seq::<SpecToken>::empty());
        }
        loop
            invariant
                self.wf(),
                old(self).pos <= self.pos,
                self.tokens@ == old(self).tokens@,
                self.tree == old(self).tree,
                parse_expr_s(f0, s0, Seq::empty(), Seq::empty()) == parse_expr_s(
                    current@,
                    self.remaining(),
                    nodes_view(output@),
                    toks_view(ops@),
                ),
            decreases self.tokens@.len() - self.pos,
        {
            let kind: u32 = match &current.token_type {
                TokenType::RightParen => 0,
                TokenType::LeftParen => 1,
                TokenType::Operator(_) => 2,
                TokenType::Number(_) => 3,
                TokenType::Str(_) => 4,
                TokenType::Identifier(_) => 5,
                _ => 6,
            };
            if kind == 0 {
                return finish_fold(output, ops, current.line);
            }
            if kind == 1 {
                let ghost pre = *self;
                match self.next() {
                    Option::None => {
                        proof {
                            assert(self.remaining() =~= Seq::<SpecToken>::empty());
                        }
                        return Err(ParseError::MalformedExpression { line: current.line });
                    },
                    Option::Some(nx) => {
                        proof {
                            lemma_pstep(pre, *self);
                        }
                        let ghost sub_start = *self;
                        match self.parse_expression(nx) {
                            Err(e) => {
                                return Err(e);
                            },
                            Ok(sub) => {
                                proof {
                                    lemma_parse_expr_suffix(
                                        nx@,
                                        sub_start.remaining(),
                                        Seq::empty(),
                                        Seq::empty(),
                                    );
                                    assert(cap(self.remaining(), sub_start.remaining())
                                        == self.remaining());
                                }
                                let ghost outs = output@;
                                output.push(sub);
                                proof {
                                    lemma_nodes_view_push(outs, output@.last());
                                }
                            },
                        }
                    },
                }
            } else if kind == 2 {
                let opname = match &current.token_type {
                    TokenType::Operator(op) => op.clone(),
                    _ => String::new(),
                };
                match fold_while_ge(&mut output, &mut ops, &opname) {
                    Err(e) => {
                        return Err(e);
                    },
                    Ok(()) => {},
                }
                let ghost ts = ops@;
                ops.push(current.clone());
                proof {
                    crate::token::lemma_toks_view_push(ts, ops@.last());
                }
            } else if kind == 3 {
                let x = match &current.token_type {
                    TokenType::Number(x) => x.clone(),
                    _ => String::new(),
                };
                let ghost outs = output@;
                let n = Node::new(NodeType::Number, Option::Some(x), current.line);
                output.push(n);
                proof {
                    lemma_nodes_view_push(outs, output@.last());
                }
            } else if kind == 4 {
                let x = match &current.token_type {
                    TokenType::Str(x) => x.clone(),
                    _ => String::new(),
                };
                let ghost outs = output@;
                let n = Node::new(NodeType::Str, Option::Some(x), current.line);
                output.push(n);
                proof {
                    lemma_nodes_view_push(outs, output@.last());
                }
            } else if kind == 5 {
                let x = match &current.token_type {
                    TokenType::Identifier(x) => x.clone(),
                    _ => String::new(),
                };
                let ghost outs = output@;
                let n = Node::new(NodeType::Identifier, Option::Some(x), current.line);
                output.push(n);
                proof {
                    lemma_nodes_view_push(outs, output@.last());
                }
            }
            let ghost pre2 = *self;
            match self.next() {
                Option::Some(t2) => {
                    proof {
                        lemma_pstep(pre2, *self);
                    }
                    current = t2;
                },
                Option::None => {
                    proof {
                        assert(self.remaining() =~= Seq::<SpecToken>::empty());
                    }
                    return finish_fold(output, ops, current.line);
                },
            }
            proof {
                assert(pre2.remaining().len() == pre2.tokens@.len() - pre2.pos);
                assert(self.remaining().len() == self.tokens@.len() - self.pos);
            }
        }
    }
}

/// Folds operator-stack entries into binary nodes while the top of the stack
/// binds at least as tightly as the incoming operator, per the model's
/// `fold_ops_s`; fails when two operands are not available.
#[verifier::loop_isolation(false)]
fn fold_while_ge(output: &mut Vec<Node>, ops: &mut Vec<Token>, opname: &String) -> (r: Result<
    (),
    ParseError,
>)
    ensures
        match fold_ops_s(opname@, nodes_view(old(output)@), toks_view(old(ops)@)) {
            Ok(res) => (r is Ok && nodes_view(final(output)@) == res.0 && toks_view(final(ops)@)
                == res.1),
            Err(line) => (r matches Err(p) && p@
                == crate::diag::SpecParseError::MalformedExpression { line }),
        },
{
    let incoming = get_precedence(opname);
    let ghost out0 = nodes_view(output@);
    let ghost ops0 = toks_view(ops@);
    while ops.len() > 0 && get_precedence(&ops[ops.len() - 1].as_string()) >= incoming
        invariant
            fold_ops_s(opname@, out0, ops0) == fold_ops_s(
                opname@,
                nodes_view(output@),
                toks_view(ops@),
            ),
        decreases ops@.len(),
    {
        let ghost opsb = ops@;
        let ghost outb = output@;
        let top = ops.pop().unwrap();
        proof {
            assert(toks_view(opsb).last() == top@);
            assert(toks_view(ops@) =~= toks_view(opsb).drop_last());
            lemma_nodes_view_index(outb);
        }
        let name = top.as_string();
        let right = match output.pop() {
            Option::Some(n) => n,
            Option::None => {
                return Err(ParseError::MalformedExpression { line: top.line });
            },
        };
        let left = match output.pop() {
            Option::Some(n) => n,
            Option::None => {
                return Err(ParseError::MalformedExpression { line: top.line });
            },
        };
        proof {
            crate::tree::lemma_nodes_view_drop_last(outb);
            crate::tree::lemma_nodes_view_drop_last(outb.drop_last());
        }
        let mut bnode = Node::new(NodeType::Operator, Option::Some(name), top.line);
        bnode.add_child(left);
        bnode.add_child(right);
        let ghost outs = output@;
        output.push(bnode);
        proof {
            lemma_nodes_view_push(outs, output@.last());
            assert(bnode@.children =~= seq![node_view(left), node_view(right)]);
            assert(node_view(right) == nodes_view(outb).last());
            assert(node_view(left) == nodes_view(outb)[nodes_view(outb).len() - 2]);
        }
    }
    Ok(())
}

/// Folds every remaining operator-stack entry into binary nodes and returns
/// the root of the expression, per the model's `finish_expr_s`; fails when
/// operands run out or nothing was produced at all.
#[verifier::loop_isolation(false)]
fn finish_fold(output: Vec<Node>, ops: Vec<Token>, fallback: usize) -> (r: Result<
    Node,
    ParseError,
>)
    ensures
        match finish_expr_s(nodes_view(output@), toks_view(ops@), fallback as int) {
            Ok(root) => (r matches Ok(n) && n@ == root),
            Err(line) => (r matches Err(p) && p@
                == crate::diag::SpecParseError::MalformedExpression { line }),
        },
{
    let ghost out0 = nodes_view(output@);
    let ghost ops0 = toks_view(ops@);
    let mut output = output;
    let mut ops = ops;
    while ops.len() > 0
        invariant
            finish_expr_s(out0, ops0, fallback as int) == finish_expr_s(
                nodes_view(output@),
                toks_view(ops@),
                fallback as int,
            ),
        decreases ops@.len(),
    {
        let ghost opsb = ops@;
        let ghost outb = output@;
        let top = ops.pop().unwrap();
        proof {
            assert(toks_view(opsb).last() == top@);
            assert(toks_view(ops@) =~= toks_view(opsb).drop_last());
            lemma_nodes_view_index(outb);
        }
        let name = top.as_string();
        let right = match output.pop() {
            Option::Some(n) => n,
            Option::None => {
                return Err(ParseError::MalformedExpression { line: top.line });
            },
        };
        let left = match output.pop() {
            Option::Some(n) => n,
            Option::None => {
                return Err(ParseError::MalformedExpression { line: top.line });
            },
        };
        proof {
            crate::tree::lemma_nodes_view_drop_last(outb);
            crate::tree::lemma_nodes_view_drop_last(outb.drop_last());
        }
        let mut bnode = Node::new(NodeType::Operator, Option::Some(name), top.line);
        bnode.add_child(left);
        bnode.add_child(right);
        let ghost outs = output@;
        output.push(bnode);
        proof {
            lemma_nodes_view_push(outs, output@.last());
            assert(bnode@.children =~= seq![node_view(left), node_view(right)]);
            assert(node_view(right) == nodes_view(outb).last());
            assert(node_view(left) == nodes_view(outb)[nodes_view(outb).len() - 2]);
        }
    }
    proof {
        lemma_nodes_view_index(output@);
    }
    let mut output = output;
    match output.pop() {
        Option::Some(root) => Ok(root),
        Option::None => Err(ParseError::MalformedExpression { line: fallback }),
    }
}

} // verus!
