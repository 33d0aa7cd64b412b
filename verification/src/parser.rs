//! The parser: tokens to a syntax tree, by recursive descent.
//!
//! Its behaviour is specified by the `spec_*` functions below, one per parsing routine.
//! Each takes the token sequence and a position and gives the node built and the
//! position reached, or the error and the position where parsing stopped, or `Panic`
//! where the parser would index past the tokens or meet a number literal that the
//! standard library refuses to convert.
use vstd::prelude::*;
use crate::ast::{
    lemma_nodes_view_push, nodes_view, BinaryOpNode, BoolNode, CallType, FloatNode,
    FunctionArgs, FunctionCallNode, FunctionDefineNode, IfStatement, ImportNode, LoopNode, Node,
    NodeV, NumberNode, ProgramNode, ReturnNode, StringNode, VariableAccessNode,
    VariableAssignNode, VariableDefineNode, WhileStatement,
};
use crate::text::{
    chars_of, float_syntax, owned, parse_i64, parse_i64_range, push_str, string_from_range,
};
use crate::tokens::{kind_name, tokens_view, SpecToken, Token, TokenKind};

verus! {

#[derive(Debug)]
pub enum ParserError {
    UnexpectedToken { found: String, expected: TokenKind },
    ExpectedType { found: String },
}

/// `ParserError` with its texts as character sequences.
pub enum PErr {
    Unexpected(Seq<char>, TokenKind),
    ExpectedType(Seq<char>),
}

impl View for ParserError {
    type V = PErr;

    open spec fn view(&self) -> PErr {
        match self {
            ParserError::UnexpectedToken { found, expected } => PErr::Unexpected(found@, *expected),
            ParserError::ExpectedType { found } => PErr::ExpectedType(found@),
        }
    }
}

/// The message of a parse error.
pub open spec fn parser_error_message(e: PErr) -> Seq<char> {
    match e {
        PErr::Unexpected(found, expected) => "Syntax error:expected "@ + kind_name(expected)
            + " but found "@ + found,
        PErr::ExpectedType(found) => "Syntax error:expected type but found "@ + found,
    }
}

impl ParserError {
    /// The human-readable message of this error.
    pub fn message(&self) -> (s: String)
        ensures
            s@ == parser_error_message(self@),
    {
        match self {
            ParserError::UnexpectedToken { found, expected } => {
                let mut s = owned("Syntax error:expected ");
                push_str(&mut s, expected.debug_name());
                push_str(&mut s, " but found ");
                push_str(&mut s, found.as_str());
                s
            },
            ParserError::ExpectedType { found } => {
                let mut s = owned("Syntax error:expected type but found ");
                push_str(&mut s, found.as_str());
                s
            },
        }
    }
}

/// The outcome of a parsing routine: a value and the position reached, an error and the
/// position where parsing stopped, or a panic.
pub enum PRes<T> {
    Done(T, int),
    Fail(PErr, int),
    Panic,
}

pub struct Parser {
    pub tokens: Vec<Token>,
    pub token_idx: usize,
    pub on_top_statement: bool,
}

// ---------------------------------------------------------------------------
// Specification
// ---------------------------------------------------------------------------

pub open spec fn tok_at(t: Seq<SpecToken>, p: int) -> bool {
    0 <= p < t.len()
}

pub open spec fn adv_ok(t: Seq<SpecToken>, p: int, q: int) -> bool {
    p <= q <= t.len()
}

pub open spec fn measure(t: Seq<SpecToken>, p: int) -> int {
    t.len() - p
}

/// The name of a call without its trailing `!`s.
pub open spec fn trim_bangs(s: Seq<char>) -> Seq<char>
    decreases s.len(),
{
    if s.len() > 0 && s.last() == '!' {
        trim_bangs(s.drop_last())
    } else {
        s
    }
}

pub open spec fn ends_with_bang(s: Seq<char>) -> bool {
    s.len() > 0 && s.last() == '!'
}

pub open spec fn spec_expect(t: Seq<SpecToken>, p: int, k: TokenKind) -> PRes<SpecToken> {
    if !tok_at(t, p) {
        PRes::Panic
    } else if t[p].kind == k {
        PRes::Done(t[p], p + 1)
    } else {
        PRes::Fail(PErr::Unexpected(t[p].value, k), p)
    }
}

/// `name: type` pairs separated by commas (at least one).
pub open spec fn spec_params(t: Seq<SpecToken>, p: int, acc: Seq<(Seq<char>, Seq<char>)>) -> PRes<
    Seq<(Seq<char>, Seq<char>)>,
>
    decreases measure(t, p),
    when 0 <= p <= t.len()
{
    match spec_expect(t, p, TokenKind::IDENTIFIER) {
        PRes::Done(name, q1) => match spec_expect(t, q1, TokenKind::COLON) {
            PRes::Done(_, q2) => match spec_expect(t, q2, TokenKind::IDENTIFIER) {
                PRes::Done(ty, q3) => {
                    let acc2 = acc.push((name.value, ty.value));
                    if !tok_at(t, q3) {
                        PRes::Panic
                    } else if t[q3].kind == TokenKind::COMMA {
                        spec_params(t, q3 + 1, acc2)
                    } else {
                        PRes::Done(acc2, q3)
                    }
                },
                PRes::Fail(e, q) => PRes::Fail(e, q),
                PRes::Panic => PRes::Panic,
            },
            PRes::Fail(e, q) => PRes::Fail(e, q),
            PRes::Panic => PRes::Panic,
        },
        PRes::Fail(e, q) => PRes::Fail(e, q),
        PRes::Panic => PRes::Panic,
    }
}

/// An optional `: type` annotation.
pub open spec fn spec_opt_type(t: Seq<SpecToken>, p: int) -> PRes<Option<Seq<char>>> {
    if !tok_at(t, p) {
        PRes::Panic
    } else if t[p].kind == TokenKind::COLON {
        match spec_expect(t, p + 1, TokenKind::IDENTIFIER) {
            PRes::Done(ty, q) => PRes::Done(Some(ty.value), q),
            PRes::Fail(e, q) => PRes::Fail(e, q),
            PRes::Panic => PRes::Panic,
        }
    } else {
        PRes::Done(None, p)
    }
}

pub open spec fn spec_unary(t: Seq<SpecToken>, p: int) -> PRes<NodeV>
    decreases measure(t, p), 1int,
{
    if !tok_at(t, p) {
        PRes::Panic
    } else {
        let tk = t[p];
        if tk.kind == TokenKind::FLOAT {
            if float_syntax(tk.value) {
                PRes::Done(NodeV::Float(tk.value), p + 1)
            } else {
                PRes::Panic
            }
        } else if tk.kind == TokenKind::TRUE || tk.kind == TokenKind::FALSE {
            PRes::Done(NodeV::Bool(tk.kind), p + 1)
        } else if tk.kind == TokenKind::NUMB {
            match parse_i64(tk.value) {
                Some(n) => PRes::Done(NodeV::Number(n), p + 1),
                None => PRes::Panic,
            }
        } else if tk.kind == TokenKind::IDENTIFIER {
            let q = p + 1;
            if !tok_at(t, q) {
                PRes::Panic
            } else if t[q].kind == TokenKind::LEFTPAREN {
                let q1 = q + 1;
                if !tok_at(t, q1) {
                    PRes::Panic
                } else {
                    let args = if t[q1].kind != TokenKind::RIGHTPAREN {
                        spec_args(t, q1, Seq::empty())
                    } else {
                        PRes::Done(Seq::empty(), q1)
                    };
                    match args {
                        PRes::Done(a, q2) => match spec_expect(t, q2, TokenKind::RIGHTPAREN) {
                            PRes::Done(_, q3) => PRes::Done(
                                NodeV::FunctionCall(
                                    a,
                                    trim_bangs(tk.value),
                                    if ends_with_bang(tk.value) {
                                        CallType::Macro
                                    } else {
                                        CallType::Fn
                                    },
                                    None,
                                ),
                                q3,
                            ),
                            PRes::Fail(e, q3) => PRes::Fail(e, q3),
                            PRes::Panic => PRes::Panic,
                        },
                        PRes::Fail(e, q2) => PRes::Fail(e, q2),
                        PRes::Panic => PRes::Panic,
                    }
                }
            } else {
                PRes::Done(NodeV::VariableAccess(tk.value), q)
            }
        } else if tk.kind == TokenKind::LEFTPAREN {
            match spec_expr(t, p + 1) {
                PRes::Done(e, q) => match spec_expect(t, q, TokenKind::RIGHTPAREN) {
                    PRes::Done(_, q2) => PRes::Done(e, q2),
                    PRes::Fail(e2, q2) => PRes::Fail(e2, q2),
                    PRes::Panic => PRes::Panic,
                },
                PRes::Fail(e, q) => PRes::Fail(e, q),
                PRes::Panic => PRes::Panic,
            }
        } else if tk.kind == TokenKind::STRING {
            PRes::Done(NodeV::Str(tk.value), p + 1)
        } else {
            PRes::Fail(PErr::Unexpected(tk.value, TokenKind::VALUE), p)
        }
    }
}

/// Call arguments: expressions separated by commas (at least one).
pub open spec fn spec_args(t: Seq<SpecToken>, p: int, acc: Seq<NodeV>) -> PRes<Seq<NodeV>>
    decreases measure(t, p), 9int,
{
    match spec_expr(t, p) {
        PRes::Done(e, q) => if !tok_at(t, q) {
            PRes::Panic
        } else if t[q].kind == TokenKind::COMMA {
            if adv_ok(t, p, q) {
                spec_args(t, q + 1, acc.push(e))
            } else {
                PRes::Panic
            }
        } else {
            PRes::Done(acc.push(e), q)
        },
        PRes::Fail(e, q) => PRes::Fail(e, q),
        PRes::Panic => PRes::Panic,
    }
}

pub open spec fn is_factor_op(k: TokenKind) -> bool {
    k == TokenKind::TIMES || k == TokenKind::DIVIDE || k == TokenKind::MODULO
}

pub open spec fn is_term_op(k: TokenKind) -> bool {
    k == TokenKind::MINUS || k == TokenKind::PLUS
}

pub open spec fn is_comparison_op(k: TokenKind) -> bool {
    k == TokenKind::GREATER || k == TokenKind::LESS || k == TokenKind::EQUAL
}

pub open spec fn binop(l: NodeV, r: NodeV, k: TokenKind) -> NodeV {
    NodeV::BinaryOp(Box::new(l), Box::new(r), k)
}

pub open spec fn spec_factor_loop(t: Seq<SpecToken>, p: int, left: NodeV) -> PRes<NodeV>
    decreases measure(t, p), 2int,
{
    if !tok_at(t, p) {
        PRes::Panic
    } else if is_factor_op(t[p].kind) {
        match spec_unary(t, p + 1) {
            PRes::Done(r, q) => if adv_ok(t, p + 1, q) {
                spec_factor_loop(t, q, binop(left, r, t[p].kind))
            } else {
                PRes::Panic
            },
            PRes::Fail(e, q) => PRes::Fail(e, q),
            PRes::Panic => PRes::Panic,
        }
    } else {
        PRes::Done(left, p)
    }
}

pub open spec fn spec_factor(t: Seq<SpecToken>, p: int) -> PRes<NodeV>
    decreases measure(t, p), 3int,
{
    match spec_unary(t, p) {
        PRes::Done(f, q) => if adv_ok(t, p, q) {
            spec_factor_loop(t, q, f)
        } else {
            PRes::Panic
        },
        PRes::Fail(e, q) => PRes::Fail(e, q),
        PRes::Panic => PRes::Panic,
    }
}

pub open spec fn spec_term_loop(t: Seq<SpecToken>, p: int, left: NodeV) -> PRes<NodeV>
    decreases measure(t, p), 4int,
{
    if !tok_at(t, p) {
        PRes::Panic
    } else if is_term_op(t[p].kind) {
        match spec_factor(t, p + 1) {
            PRes::Done(r, q) => if adv_ok(t, p + 1, q) {
                spec_term_loop(t, q, binop(left, r, t[p].kind))
            } else {
                PRes::Panic
            },
            PRes::Fail(e, q) => PRes::Fail(e, q),
            PRes::Panic => PRes::Panic,
        }
    } else {
        PRes::Done(left, p)
    }
}

pub open spec fn spec_term(t: Seq<SpecToken>, p: int) -> PRes<NodeV>
    decreases measure(t, p), 5int,
{
    match spec_factor(t, p) {
        PRes::Done(f, q) => if adv_ok(t, p, q) {
            spec_term_loop(t, q, f)
        } else {
            PRes::Panic
        },
        PRes::Fail(e, q) => PRes::Fail(e, q),
        PRes::Panic => PRes::Panic,
    }
}

pub open spec fn spec_comparison_loop(t: Seq<SpecToken>, p: int, left: NodeV) -> PRes<NodeV>
    decreases measure(t, p), 6int,
{
    if !tok_at(t, p) {
        PRes::Panic
    } else if is_comparison_op(t[p].kind) {
        match spec_term(t, p + 1) {
            PRes::Done(r, q) => if adv_ok(t, p + 1, q) {
                spec_comparison_loop(t, q, binop(left, r, t[p].kind))
            } else {
                PRes::Panic
            },
            PRes::Fail(e, q) => PRes::Fail(e, q),
            PRes::Panic => PRes::Panic,
        }
    } else {
        PRes::Done(left, p)
    }
}

pub open spec fn spec_comparison(t: Seq<SpecToken>, p: int) -> PRes<NodeV>
    decreases measure(t, p), 7int,
{
    match spec_term(t, p) {
        PRes::Done(f, q) => if adv_ok(t, p, q) {
            spec_comparison_loop(t, q, f)
        } else {
            PRes::Panic
        },
        PRes::Fail(e, q) => PRes::Fail(e, q),
        PRes::Panic => PRes::Panic,
    }
}

pub open spec fn spec_expr(t: Seq<SpecToken>, p: int) -> PRes<NodeV>
    decreases measure(t, p), 8int,
{
    spec_comparison(t, p)
}

/// `a op b` at the factor level, with `op` one of `*`, `/`, `%` and no further factor
/// operator after `b`, is one binary node that carries `op`, the token between the
/// operands.
pub proof fn lemma_factor_pair(t: Seq<SpecToken>, p: int, a: NodeV, p1: int, b: NodeV, p2: int)
    requires
        0 <= p <= p1,
        p1 + 1 <= p2 < t.len(),
        spec_unary(t, p) == PRes::Done(a, p1),
        t[p1].kind == TokenKind::TIMES || t[p1].kind == TokenKind::DIVIDE || t[p1].kind
            == TokenKind::MODULO,
        spec_unary(t, p1 + 1) == PRes::Done(b, p2),
        !(t[p2].kind == TokenKind::TIMES || t[p2].kind == TokenKind::DIVIDE || t[p2].kind
            == TokenKind::MODULO),
    ensures
        spec_factor(t, p) == PRes::Done(NodeV::BinaryOp(Box::new(a), Box::new(b), t[p1].kind), p2),
{
    assert(spec_factor_loop(t, p2, NodeV::BinaryOp(Box::new(a), Box::new(b), t[p1].kind)) == PRes::Done(
        NodeV::BinaryOp(Box::new(a), Box::new(b), t[p1].kind),
        p2,
    ));
}

/// `a op b` at the term level, with `op` one of `+`, `-` and no further term operator
/// after `b`, is one binary node that carries `op`; each side is a whole factor, so `*`,
/// `/` and `%` bind tighter.
pub proof fn lemma_term_pair(t: Seq<SpecToken>, p: int, a: NodeV, p1: int, b: NodeV, p2: int)
    requires
        0 <= p <= p1,
        p1 + 1 <= p2 < t.len(),
        spec_factor(t, p) == PRes::Done(a, p1),
        t[p1].kind == TokenKind::PLUS || t[p1].kind == TokenKind::MINUS,
        spec_factor(t, p1 + 1) == PRes::Done(b, p2),
        !(t[p2].kind == TokenKind::PLUS || t[p2].kind == TokenKind::MINUS),
    ensures
        spec_term(t, p) == PRes::Done(NodeV::BinaryOp(Box::new(a), Box::new(b), t[p1].kind), p2),
{
    assert(spec_term_loop(t, p2, NodeV::BinaryOp(Box::new(a), Box::new(b), t[p1].kind)) == PRes::Done(
        NodeV::BinaryOp(Box::new(a), Box::new(b), t[p1].kind),
        p2,
    ));
}

/// `a op b` at the comparison level, with `op` one of `>`, `<`, `==` and no further
/// comparison after `b`, is one binary node that carries `op`; each side is a whole term.
pub proof fn lemma_comparison_pair(t: Seq<SpecToken>, p: int, a: NodeV, p1: int, b: NodeV, p2: int)
    requires
        0 <= p <= p1,
        p1 + 1 <= p2 < t.len(),
        spec_term(t, p) == PRes::Done(a, p1),
        t[p1].kind == TokenKind::GREATER || t[p1].kind == TokenKind::LESS || t[p1].kind
            == TokenKind::EQUAL,
        spec_term(t, p1 + 1) == PRes::Done(b, p2),
        !(t[p2].kind == TokenKind::GREATER || t[p2].kind == TokenKind::LESS || t[p2].kind
            == TokenKind::EQUAL),
    ensures
        spec_comparison(t, p) == PRes::Done(NodeV::BinaryOp(Box::new(a), Box::new(b), t[p1].kind), p2),
{
    assert(spec_comparison_loop(t, p2, NodeV::BinaryOp(Box::new(a), Box::new(b), t[p1].kind))
        == PRes::Done(NodeV::BinaryOp(Box::new(a), Box::new(b), t[p1].kind), p2));
}

/// Operators of one level group to the left: after `left`, an operator of the level
/// followed by its right operand `b` makes `left op b` the new left side, carrying the
/// operator token.
pub proof fn lemma_operators_group_left(t: Seq<SpecToken>, p: int, left: NodeV, b: NodeV, q: int)
    requires
        0 <= p,
        p + 1 <= q <= t.len(),
        p < t.len(),
    ensures
        (t[p].kind == TokenKind::TIMES || t[p].kind == TokenKind::DIVIDE || t[p].kind == TokenKind::MODULO)
            && spec_unary(t, p + 1) == PRes::Done(b, q) ==> spec_factor_loop(t, p, left)
            == spec_factor_loop(t, q, NodeV::BinaryOp(Box::new(left), Box::new(b), t[p].kind)),
        (t[p].kind == TokenKind::PLUS || t[p].kind == TokenKind::MINUS) && spec_factor(t, p + 1)
            == PRes::Done(b, q) ==> spec_term_loop(t, p, left) == spec_term_loop(
            t,
            q,
            NodeV::BinaryOp(Box::new(left), Box::new(b), t[p].kind),
        ),
        (t[p].kind == TokenKind::GREATER || t[p].kind == TokenKind::LESS || t[p].kind
            == TokenKind::EQUAL) && spec_term(t, p + 1) == PRes::Done(b, q) ==> spec_comparison_loop(
            t,
            p,
            left,
        ) == spec_comparison_loop(t, q, NodeV::BinaryOp(Box::new(left), Box::new(b), t[p].kind)),
{
}

pub open spec fn spec_var_decl(t: Seq<SpecToken>, p: int, is_pub: bool) -> PRes<NodeV>
    decreases measure(t, p), 10int,
{
    if !tok_at(t, p) {
        PRes::Panic
    } else {
        let is_const = t[p].kind == TokenKind::CONST;
        match spec_expect(t, p + 1, TokenKind::IDENTIFIER) {
            PRes::Done(id, q1) => match spec_opt_type(t, q1) {
                PRes::Done(vt, q2) => if !tok_at(t, q2) {
                    PRes::Panic
                } else if t[q2].kind == TokenKind::ASSIGN {
                    match spec_expr(t, q2 + 1) {
                        PRes::Done(v, q3) => PRes::Done(
                            NodeV::VariableDefine(id.value, vt, Some(Box::new(v)), is_const, is_pub),
                            q3,
                        ),
                        PRes::Fail(e, q3) => PRes::Fail(e, q3),
                        PRes::Panic => PRes::Panic,
                    }
                } else {
                    PRes::Done(NodeV::VariableDefine(id.value, vt, None, is_const, is_pub), q2)
                },
                PRes::Fail(e, q) => PRes::Fail(e, q),
                PRes::Panic => PRes::Panic,
            },
            PRes::Fail(e, q) => PRes::Fail(e, q),
            PRes::Panic => PRes::Panic,
        }
    }
}

/// The error raised when a block meets the end of the tokens.
pub open spec fn eof_in_block() -> PErr {
    PErr::Unexpected("EOF"@, TokenKind::SEMICOLON)
}

/// Statements up to (not including) a closing brace.
pub open spec fn spec_stmt_list(t: Seq<SpecToken>, p: int, acc: Seq<NodeV>, eof_check: bool) -> PRes<
    Seq<NodeV>,
>
    decreases measure(t, p), 15int,
{
    if !tok_at(t, p) {
        PRes::Panic
    } else if t[p].kind == TokenKind::CLOSINGBRACE {
        PRes::Done(acc, p)
    } else if eof_check && t[p].kind == TokenKind::EOF {
        PRes::Fail(eof_in_block(), p)
    } else {
        match spec_stmt(t, p) {
            PRes::Done(n, q) => if adv_ok(t, p + 1, q) {
                spec_stmt_list(t, q, acc.push(n), eof_check)
            } else {
                PRes::Panic
            },
            PRes::Fail(e, q) => PRes::Fail(e, q),
            PRes::Panic => PRes::Panic,
        }
    }
}

/// Statements up to a closing brace, which is consumed.
pub open spec fn spec_block(t: Seq<SpecToken>, p: int, eof_check: bool) -> PRes<Seq<NodeV>>
    decreases measure(t, p), 16int,
{
    match spec_stmt_list(t, p, Seq::empty(), eof_check) {
        PRes::Done(body, q) => match spec_expect(t, q, TokenKind::CLOSINGBRACE) {
            PRes::Done(_, q2) => PRes::Done(body, q2),
            PRes::Fail(e, q2) => PRes::Fail(e, q2),
            PRes::Panic => PRes::Panic,
        },
        PRes::Fail(e, q) => PRes::Fail(e, q),
        PRes::Panic => PRes::Panic,
    }
}

/// A function definition; `t[p]` is the `fnc` keyword.
pub open spec fn spec_fn_def(t: Seq<SpecToken>, p: int) -> PRes<NodeV>
    decreases measure(t, p), 11int,
{
    match spec_expect(t, p + 1, TokenKind::IDENTIFIER) {
        PRes::Done(id, q1) => match spec_expect(t, q1, TokenKind::LEFTPAREN) {
            PRes::Done(_, q2) => if !tok_at(t, q2) {
                PRes::Panic
            } else {
                let params = if t[q2].kind != TokenKind::RIGHTPAREN {
                    spec_params(t, q2, Seq::empty())
                } else {
                    PRes::Done(Seq::empty(), q2)
                };
                match params {
                    PRes::Done(args, q3) => match spec_expect(t, q3, TokenKind::RIGHTPAREN) {
                        PRes::Done(_, q4) => match spec_opt_type(t, q4) {
                            PRes::Done(rt, q5) => match spec_expect(t, q5, TokenKind::OPENINGBRACE) {
                                PRes::Done(_, q6) => if adv_ok(t, p + 1, q6) {
                                    match spec_block(t, q6, false) {
                                        PRes::Done(body, q7) => PRes::Done(
                                            NodeV::FunctionDefine(id.value, rt, body, args),
                                            q7,
                                        ),
                                        PRes::Fail(e, q7) => PRes::Fail(e, q7),
                                        PRes::Panic => PRes::Panic,
                                    }
                                } else {
                                    PRes::Panic
                                },
                                PRes::Fail(e, q) => PRes::Fail(e, q),
                                PRes::Panic => PRes::Panic,
                            },
                            PRes::Fail(e, q) => PRes::Fail(e, q),
                            PRes::Panic => PRes::Panic,
                        },
                        PRes::Fail(e, q) => PRes::Fail(e, q),
                        PRes::Panic => PRes::Panic,
                    },
                    PRes::Fail(e, q) => PRes::Fail(e, q),
                    PRes::Panic => PRes::Panic,
                }
            },
            PRes::Fail(e, q) => PRes::Fail(e, q),
            PRes::Panic => PRes::Panic,
        },
        PRes::Fail(e, q) => PRes::Fail(e, q),
        PRes::Panic => PRes::Panic,
    }
}

/// `(condition) { body }` as after `if` or `while`; `p` is just after the keyword.
pub open spec fn spec_cond_block(t: Seq<SpecToken>, p: int) -> PRes<(NodeV, Seq<NodeV>)>
    decreases measure(t, p), 12int,
{
    match spec_expect(t, p, TokenKind::LEFTPAREN) {
        PRes::Done(_, q1) => match spec_expr(t, q1) {
            PRes::Done(cond, q2) => match spec_expect(t, q2, TokenKind::RIGHTPAREN) {
                PRes::Done(_, q3) => match spec_expect(t, q3, TokenKind::OPENINGBRACE) {
                    PRes::Done(_, q4) => if adv_ok(t, p + 1, q4) {
                        match spec_block(t, q4, true) {
                            PRes::Done(body, q5) => PRes::Done((cond, body), q5),
                            PRes::Fail(e, q5) => PRes::Fail(e, q5),
                            PRes::Panic => PRes::Panic,
                        }
                    } else {
                        PRes::Panic
                    },
                    PRes::Fail(e, q) => PRes::Fail(e, q),
                    PRes::Panic => PRes::Panic,
                },
                PRes::Fail(e, q) => PRes::Fail(e, q),
                PRes::Panic => PRes::Panic,
            },
            PRes::Fail(e, q) => PRes::Fail(e, q),
            PRes::Panic => PRes::Panic,
        },
        PRes::Fail(e, q) => PRes::Fail(e, q),
        PRes::Panic => PRes::Panic,
    }
}

/// Runs a first routine for its outcome, then expects a semicolon; the semicolon's error
/// wins, else the first outcome is returned at the position after the semicolon.
pub open spec fn then_semicolon(t: Seq<SpecToken>, r: PRes<NodeV>) -> PRes<NodeV> {
    match r {
        PRes::Panic => PRes::Panic,
        PRes::Done(v, q) => match spec_expect(t, q, TokenKind::SEMICOLON) {
            PRes::Done(_, q2) => PRes::Done(v, q2),
            PRes::Fail(e, q2) => PRes::Fail(e, q2),
            PRes::Panic => PRes::Panic,
        },
        PRes::Fail(e, q) => match spec_expect(t, q, TokenKind::SEMICOLON) {
            PRes::Done(_, q2) => PRes::Fail(e, q2),
            PRes::Fail(e2, q2) => PRes::Fail(e2, q2),
            PRes::Panic => PRes::Panic,
        },
    }
}

/// Like `then_semicolon`, but an error of the first routine is returned at once.
pub open spec fn ok_then_semicolon(t: Seq<SpecToken>, r: PRes<NodeV>) -> PRes<NodeV> {
    match r {
        PRes::Done(v, q) => match spec_expect(t, q, TokenKind::SEMICOLON) {
            PRes::Done(_, q2) => PRes::Done(v, q2),
            PRes::Fail(e, q2) => PRes::Fail(e, q2),
            PRes::Panic => PRes::Panic,
        },
        other => other,
    }
}

/// `loop { body }`; `t[p]` is the keyword.
pub open spec fn spec_loop_stmt(t: Seq<SpecToken>, p: int) -> PRes<NodeV>
    decreases measure(t, p), 13int,
{
    match spec_expect(t, p + 1, TokenKind::OPENINGBRACE) {
        PRes::Done(_, q) => if adv_ok(t, p + 1, q) {
            match spec_block(t, q, true) {
                PRes::Done(body, q2) => PRes::Done(NodeV::Loop(body), q2),
                PRes::Fail(e, q2) => PRes::Fail(e, q2),
                PRes::Panic => PRes::Panic,
            }
        } else {
            PRes::Panic
        },
        PRes::Fail(e, q) => PRes::Fail(e, q),
        PRes::Panic => PRes::Panic,
    }
}

/// `return;` or `return value;`; `t[p]` is the keyword.
pub open spec fn spec_return_stmt(t: Seq<SpecToken>, p: int) -> PRes<NodeV>
    decreases measure(t, p), 13int,
{
    let q = p + 1;
    if !tok_at(t, q) {
        PRes::Panic
    } else if t[q].kind == TokenKind::SEMICOLON {
        PRes::Done(NodeV::Return(None), q + 1)
    } else {
        match spec_expr(t, q) {
            PRes::Done(v, q2) => ok_then_semicolon(
                t,
                PRes::Done(NodeV::Return(Some(Box::new(v))), q2),
            ),
            PRes::Fail(e, q2) => PRes::Fail(e, q2),
            PRes::Panic => PRes::Panic,
        }
    }
}

/// `exp` followed by a variable or function definition; `t[p]` is the keyword.
pub open spec fn spec_exp_stmt(t: Seq<SpecToken>, p: int) -> PRes<NodeV>
    decreases measure(t, p), 13int,
{
    let q = p + 1;
    if !tok_at(t, q) {
        PRes::Panic
    } else if t[q].kind == TokenKind::CONST || t[q].kind == TokenKind::VAR {
        ok_then_semicolon(t, spec_var_decl(t, q, true))
    } else if t[q].kind == TokenKind::FNC {
        spec_fn_def(t, q)
    } else {
        PRes::Fail(PErr::Unexpected(t[q].value, TokenKind::VAR), q)
    }
}

/// `name = value;`; `t[p]` is the name and `t[p + 1]` the `=`.
pub open spec fn spec_assign_stmt(t: Seq<SpecToken>, p: int) -> PRes<NodeV>
    decreases measure(t, p), 13int,
{
    if !tok_at(t, p + 1) {
        PRes::Panic
    } else {
        match spec_expr(t, p + 2) {
            PRes::Done(v, q) => ok_then_semicolon(
                t,
                PRes::Done(NodeV::VariableAssign(t[p].value, Box::new(v)), q),
            ),
            PRes::Fail(e, q) => PRes::Fail(e, q),
            PRes::Panic => PRes::Panic,
        }
    }
}

/// `if (condition) { ... }` with an optional `else { ... }`; `t[p]` is the keyword.
pub open spec fn spec_if_stmt(t: Seq<SpecToken>, p: int) -> PRes<NodeV>
    decreases measure(t, p), 13int,
{
    if !tok_at(t, p) {
        PRes::Panic
    } else {
        match spec_cond_block(t, p + 1) {
        PRes::Done(cb, q5) => if !tok_at(t, q5) {
            PRes::Panic
        } else if t[q5].kind == TokenKind::ELSE {
            match spec_expect(t, q5 + 1, TokenKind::OPENINGBRACE) {
                PRes::Done(_, q6) => if adv_ok(t, p + 1, q6) {
                    match spec_block(t, q6, true) {
                        PRes::Done(eb, q7) => PRes::Done(
                            NodeV::If(Box::new(cb.0), cb.1, Some(eb)),
                            q7,
                        ),
                        PRes::Fail(e, q7) => PRes::Fail(e, q7),
                        PRes::Panic => PRes::Panic,
                    }
                } else {
                    PRes::Panic
                },
                PRes::Fail(e, q) => PRes::Fail(e, q),
                PRes::Panic => PRes::Panic,
            }
        } else {
            PRes::Done(NodeV::If(Box::new(cb.0), cb.1, None), q5)
        },
        PRes::Fail(e, q) => PRes::Fail(e, q),
        PRes::Panic => PRes::Panic,
        }
    }
}

/// `while (condition) { ... }`; `t[p]` is the keyword.
pub open spec fn spec_while_stmt(t: Seq<SpecToken>, p: int) -> PRes<NodeV>
    decreases measure(t, p), 13int,
{
    if !tok_at(t, p) {
        PRes::Panic
    } else {
        match spec_cond_block(t, p + 1) {
            PRes::Done(cb, q) => PRes::Done(NodeV::While(Box::new(cb.0), cb.1), q),
            PRes::Fail(e, q) => PRes::Fail(e, q),
            PRes::Panic => PRes::Panic,
        }
    }
}

/// Whether the statement at `t[p]` is an assignment (an identifier followed by `=`), or
/// the look-ahead past it is out of range.
pub open spec fn assign_ahead(t: Seq<SpecToken>, p: int) -> bool {
    t[p].kind == TokenKind::IDENTIFIER && (p + 1 >= t.len() || t[p + 1].kind == TokenKind::ASSIGN)
}

pub open spec fn spec_stmt(t: Seq<SpecToken>, p: int) -> PRes<NodeV>
    decreases measure(t, p), 14int,
{
    if !tok_at(t, p) {
        PRes::Panic
    } else {
        let k = t[p].kind;
        if k == TokenKind::LOOP {
            spec_loop_stmt(t, p)
        } else if k == TokenKind::RETURN {
            spec_return_stmt(t, p)
        } else if k == TokenKind::EXP {
            spec_exp_stmt(t, p)
        } else if k == TokenKind::VAR || k == TokenKind::CONST {
            then_semicolon(t, spec_var_decl(t, p, false))
        } else if assign_ahead(t, p) {
            spec_assign_stmt(t, p)
        } else if k == TokenKind::IF {
            spec_if_stmt(t, p)
        } else if k == TokenKind::WHILE {
            spec_while_stmt(t, p)
        } else if k == TokenKind::FNC {
            spec_fn_def(t, p)
        } else {
            then_semicolon(t, spec_expr(t, p))
        }
    }
}

} // verus!

verus! {

/// The import statement at the top of a module; `t[p]` is the `use` keyword.
pub open spec fn spec_import(t: Seq<SpecToken>, p: int) -> PRes<NodeV> {
    match spec_expect(t, p + 1, TokenKind::STRING) {
        PRes::Done(name, q) => match spec_expect(t, q, TokenKind::SEMICOLON) {
            PRes::Done(_, q2) => PRes::Done(NodeV::Import(name.value), q2),
            PRes::Fail(e, q2) => PRes::Fail(e, q2),
            PRes::Panic => PRes::Panic,
        },
        PRes::Fail(e, q) => PRes::Fail(e, q),
        PRes::Panic => PRes::Panic,
    }
}

/// A statement at the top of a module, and whether the parser stays in the import
/// section after it (only after an import).
pub open spec fn spec_top_stmt(t: Seq<SpecToken>, p: int) -> (PRes<NodeV>, bool) {
    if tok_at(t, p) && t[p].kind == TokenKind::USE {
        (spec_import(t, p), true)
    } else {
        (spec_stmt(t, p), false)
    }
}

/// Statements up to the end-of-file token.
pub open spec fn spec_main_loop(t: Seq<SpecToken>, p: int, acc: Seq<NodeV>) -> PRes<Seq<NodeV>>
    decreases measure(t, p),
    when 0 <= p <= t.len()
{
    if !tok_at(t, p) {
        PRes::Panic
    } else if t[p].kind == TokenKind::EOF {
        PRes::Done(acc, p)
    } else {
        match spec_stmt(t, p) {
            PRes::Done(n, q) => if adv_ok(t, p + 1, q) {
                spec_main_loop(t, q, acc.push(n))
            } else {
                PRes::Panic
            },
            PRes::Fail(e, q) => PRes::Fail(e, q),
            PRes::Panic => PRes::Panic,
        }
    }
}

/// Statements while the parser is in the import section, then the rest; also whether
/// it is still in the import section at the end.
pub open spec fn spec_top_loop(t: Seq<SpecToken>, p: int, acc: Seq<NodeV>) -> (
    PRes<Seq<NodeV>>,
    bool,
)
    decreases measure(t, p),
    when 0 <= p <= t.len()
{
    if !tok_at(t, p) {
        (PRes::Panic, true)
    } else if t[p].kind == TokenKind::EOF {
        (PRes::Done(acc, p), true)
    } else {
        let (r, stay) = spec_top_stmt(t, p);
        match r {
            PRes::Done(n, q) => if !adv_ok(t, p + 1, q) {
                (PRes::Panic, stay)
            } else if stay {
                spec_top_loop(t, q, acc.push(n))
            } else {
                (spec_main_loop(t, q, acc.push(n)), false)
            },
            PRes::Fail(e, q) => (PRes::Fail(e, q), stay),
            PRes::Panic => (PRes::Panic, stay),
        }
    }
}

/// The statements of the program and whether the parser ends in the import section.
pub open spec fn spec_program_stmts(t: Seq<SpecToken>, p: int, on_top: bool) -> (
    PRes<Seq<NodeV>>,
    bool,
) {
    if on_top {
        spec_top_loop(t, p, Seq::empty())
    } else {
        (spec_main_loop(t, p, Seq::empty()), false)
    }
}

/// What `Parser::parse` returns.
pub open spec fn spec_parse(t: Seq<SpecToken>, p: int, on_top: bool) -> PRes<NodeV> {
    match spec_program_stmts(t, p, on_top).0 {
        PRes::Done(ns, q) => PRes::Done(NodeV::Program(ns), q),
        PRes::Fail(e, q) => PRes::Fail(e, q),
        PRes::Panic => PRes::Panic,
    }
}

/// `r` is what the specification `s` says, and the parser stands at position `q`.
pub open spec fn agrees<T, V>(r: Result<T, ParserError>, q: int, s: PRes<V>, f: spec_fn(T) -> V) -> bool {
    match s {
        PRes::Done(v, q2) => (r matches Ok(x) && f(x) == v) && q == q2,
        PRes::Fail(e, q2) => (r matches Err(x) && x@ == e) && q == q2,
        PRes::Panic => false,
    }
}

pub open spec fn view_node() -> spec_fn(Node) -> NodeV {
    |n: Node| n@
}

pub open spec fn view_nodes() -> spec_fn(Vec<Node>) -> Seq<NodeV> {
    |v: Vec<Node>| nodes_view(v@)
}

pub open spec fn view_token() -> spec_fn(Token) -> SpecToken {
    |t: Token| t@
}

pub open spec fn params_view(v: Seq<FunctionArgs>) -> Seq<(Seq<char>, Seq<char>)> {
    v.map_values(|a: FunctionArgs| (a.name@, a.argument_type@))
}

pub open spec fn view_params() -> spec_fn(Vec<FunctionArgs>) -> Seq<(Seq<char>, Seq<char>)> {
    |v: Vec<FunctionArgs>| params_view(v@)
}

pub open spec fn view_opt_str() -> spec_fn(Option<String>) -> Option<Seq<char>> {
    |o: Option<String>| crate::ast::opt_str_view(o)
}

impl Parser {
    pub open spec fn tv(&self) -> Seq<SpecToken> {
        tokens_view(self.tokens@)
    }

    pub open spec fn pos(&self) -> int {
        self.token_idx as int
    }

    /// The parser only moved forward, over the same tokens.
    pub open spec fn moved(&self, old: &Parser) -> bool {
        &&& self.tokens == old.tokens
        &&& self.on_top_statement == old.on_top_statement
        &&& old.token_idx <= self.token_idx <= self.tokens@.len()
    }
}

fn err_unexpected(found: String, expected: TokenKind) -> (e: ParserError)
    ensures
        e@ == PErr::Unexpected(found@, expected),
{
    ParserError::UnexpectedToken { found, expected }
}

/// `name` without its trailing `!`s, and whether it had one.
fn split_bangs(name: &String) -> (r: (bool, String))
    ensures
        r.0 == ends_with_bang(name@),
        r.1@ == trim_bangs(name@),
{
    let v = chars_of(name.as_str());
    let mut end = v.len();
    assert(v@.subrange(0, end as int) =~= v@);
    while end > 0 && v[end - 1] == '!'
        invariant
            end <= v@.len(),
            v@ == name@,
            trim_bangs(v@.subrange(0, end as int)) == trim_bangs(v@),
        decreases end,
    {
        assert(v@.subrange(0, end as int).drop_last() =~= v@.subrange(0, end - 1));
        end = end - 1;
    }
    let ends = v.len() > 0 && v[v.len() - 1] == '!';
    (ends, string_from_range(&v, 0, end))
}

impl Parser {
    pub fn new(token_list: Vec<Token>) -> (p: Self)
        ensures
            p.tokens == token_list,
            p.token_idx == 0,
            p.on_top_statement,
    {
        Self { tokens: token_list, token_idx: 0, on_top_statement: true }
    }

    pub fn current_token(&self) -> (t: &Token)
        requires
            self.token_idx < self.tokens@.len(),
        ensures
            *t == self.tokens@[self.token_idx as int],
    {
        &self.tokens[self.token_idx]
    }

    pub fn advance(&mut self)
        requires
            old(self).token_idx < usize::MAX,
        ensures
            final(self).token_idx == old(self).token_idx + 1,
            final(self).tokens == old(self).tokens,
            final(self).on_top_statement == old(self).on_top_statement,
    {
        self.token_idx += 1;
    }

    fn cur_kind(&self) -> (k: TokenKind)
        requires
            self.token_idx < self.tokens@.len(),
        ensures
            k == self.tv()[self.pos()].kind,
    {
        self.tokens[self.token_idx].token_kind
    }

    fn cur_value(&self) -> (s: String)
        requires
            self.token_idx < self.tokens@.len(),
        ensures
            s@ == self.tv()[self.pos()].value,
    {
        self.tokens[self.token_idx].token_value.clone()
    }

    fn peek(&self) -> (k: TokenKind)
        requires
            self.token_idx + 1 < self.tokens.len(),
        ensures
            k == self.tv()[self.pos() + 1].kind,
    {
        let idx = self.token_idx + 1;
        self.tokens[idx].token_kind
    }

    fn expect(&mut self, token_kind: TokenKind) -> (r: Result<Token, ParserError>)
        requires
            !(spec_expect(old(self).tv(), old(self).pos(), token_kind) is Panic),
            old(self).tokens@.len() < usize::MAX,
        ensures
            final(self).moved(old(self)),
            agrees(
                r,
                final(self).pos(),
                spec_expect(old(self).tv(), old(self).pos(), token_kind),
                view_token(),
            ),
    {
        if self.cur_kind() == token_kind {
            let token = self.current_token().duplicate();
            self.advance();
            Ok(token)
        } else {
            Err(err_unexpected(self.cur_value(), token_kind))
        }
    }

    fn parse_opt_type(&mut self) -> (r: Result<Option<String>, ParserError>)
        requires
            !(spec_opt_type(old(self).tv(), old(self).pos()) is Panic),
            old(self).tokens@.len() < usize::MAX,
        ensures
            final(self).moved(old(self)),
            agrees(
                r,
                final(self).pos(),
                spec_opt_type(old(self).tv(), old(self).pos()),
                view_opt_str(),
            ),
    {
        if self.cur_kind() == TokenKind::COLON {
            self.advance();
            match self.expect(TokenKind::IDENTIFIER) {
                Ok(t) => Ok(Some(t.token_value)),
                Err(e) => Err(e),
            }
        } else {
            Ok(None)
        }
    }
}

} // verus!

verus! {

impl Parser {
    fn parse_unary(&mut self) -> (r: Result<Node, ParserError>)
        requires
            !(spec_unary(old(self).tv(), old(self).pos()) is Panic),
            old(self).tokens@.len() < usize::MAX,
        ensures
            final(self).moved(old(self)),
            agrees(r, final(self).pos(), spec_unary(old(self).tv(), old(self).pos()), view_node()),
            r is Ok ==> final(self).pos() > old(self).pos(),
        decreases old(self).tv().len() - old(self).pos(), 1int,
    {
        let ghost t = self.tv();
        let ghost p = self.pos();
        let k = self.cur_kind();
        if k == TokenKind::FLOAT {
            let literal = self.cur_value();
            self.advance();
            Ok(Node::Float(FloatNode { literal }))
        } else if k == TokenKind::TRUE || k == TokenKind::FALSE {
            self.advance();
            Ok(Node::Bool(BoolNode { value: k }))
        } else if k == TokenKind::NUMB {
            let text = self.cur_value();
            let v = chars_of(text.as_str());
            assert(v@.subrange(0, v@.len() as int) =~= v@);
            let number = match parse_i64_range(&v, 0, v.len()) {
                Some(n) => n,
                None => {
                    assert(false);
                    0
                },
            };
            self.advance();
            Ok(Node::Number(NumberNode { number }))
        } else if k == TokenKind::IDENTIFIER {
            let value = self.cur_value();
            self.advance();
            if self.cur_kind() == TokenKind::LEFTPAREN {
                self.advance();
                let mut args: Vec<Node> = Vec::new();
                if self.cur_kind() != TokenKind::RIGHTPAREN {
                    let ghost q1 = self.pos();
                    loop
                        invariant_except_break
                            spec_args(t, q1, Seq::empty()) == spec_args(
                                t,
                                self.pos(),
                                nodes_view(args@),
                            ),
                        invariant
                            self.moved(old(self)),
                            p + 2 <= self.pos(),
                            p == old(self).pos(),
                            t == self.tv(),
                            q1 == p + 2,
                            self.tokens@.len() < usize::MAX,
                            !(spec_args(t, q1, Seq::empty()) is Panic),
                            spec_unary(t, p) == match spec_args(t, q1, Seq::empty()) {
                                PRes::Done(a, q2) => match spec_expect(
                                    t,
                                    q2,
                                    TokenKind::RIGHTPAREN,
                                ) {
                                    PRes::Done(_, q3) => PRes::Done(
                                        NodeV::FunctionCall(
                                            a,
                                            trim_bangs(value@),
                                            if ends_with_bang(value@) {
                                                CallType::Macro
                                            } else {
                                                CallType::Fn
                                            },
                                            None,
                                        ),
                                        q3,
                                    ),
                                    PRes::Fail(e, q3) => PRes::Fail(e, q3),
                                    PRes::Panic => PRes::Panic,
                                },
                                PRes::Fail(e, q2) => PRes::Fail(e, q2),
                                PRes::Panic => PRes::Panic,
                            },
                        ensures
                            self.moved(old(self)),
                            spec_args(t, q1, Seq::empty()) == PRes::Done(
                                nodes_view(args@),
                                self.pos(),
                            ),
                        decreases self.tv().len() - self.pos(),
                    {
                        let ghost before = self.pos();
                        let e = match self.parse_expr() {
                            Ok(e) => e,
                            Err(err) => {
                                return Err(err);
                            },
                        };
                        proof {
                            lemma_nodes_view_push(args@, e);
                        }
                        args.push(e);
                        if self.cur_kind() == TokenKind::COMMA {
                            self.advance();
                        } else {
                            break ;
                        }
                    }
                }
                match self.expect(TokenKind::RIGHTPAREN) {
                    Ok(_) => {},
                    Err(e) => {
                        return Err(e);
                    },
                }
                let (is_macro, name) = split_bangs(&value);
                let call_type = if is_macro {
                    CallType::Macro
                } else {
                    CallType::Fn
                };
                Ok(Node::FunctionCall(FunctionCallNode { args, name, call_type, return_type: None }))
            } else {
                Ok(Node::VariableAccess(VariableAccessNode { variable_name: value }))
            }
        } else if k == TokenKind::LEFTPAREN {
            self.advance();
            let value = match self.parse_expr() {
                Ok(v) => v,
                Err(e) => {
                    return Err(e);
                },
            };
            match self.expect(TokenKind::RIGHTPAREN) {
                Ok(_) => {},
                Err(e) => {
                    return Err(e);
                },
            }
            Ok(value)
        } else if k == TokenKind::STRING {
            let value = self.cur_value();
            self.advance();
            Ok(Node::Str(StringNode { value }))
        } else {
            Err(err_unexpected(self.cur_value(), TokenKind::VALUE))
        }
    }

    fn parse_expr(&mut self) -> (r: Result<Node, ParserError>)
        requires
            !(spec_expr(old(self).tv(), old(self).pos()) is Panic),
            old(self).tokens@.len() < usize::MAX,
        ensures
            final(self).moved(old(self)),
            agrees(r, final(self).pos(), spec_expr(old(self).tv(), old(self).pos()), view_node()),
            r is Ok ==> final(self).pos() > old(self).pos(),
        decreases old(self).tv().len() - old(self).pos(), 8int,
    {
        self.parse_comparison()
    }

    fn parse_comparison(&mut self) -> (r: Result<Node, ParserError>)
        requires
            !(spec_comparison(old(self).tv(), old(self).pos()) is Panic),
            old(self).tokens@.len() < usize::MAX,
        ensures
            final(self).moved(old(self)),
            agrees(
                r,
                final(self).pos(),
                spec_comparison(old(self).tv(), old(self).pos()),
                view_node(),
            ),
            r is Ok ==> final(self).pos() > old(self).pos(),
        decreases old(self).tv().len() - old(self).pos(), 7int,
    {
        let ghost t = self.tv();
        let ghost p = self.pos();
        let mut factor = match self.parse_term() {
            Ok(f) => f,
            Err(e) => {
                return Err(e);
            },
        };
        while self.cur_kind() == TokenKind::GREATER || self.cur_kind() == TokenKind::LESS
            || self.cur_kind() == TokenKind::EQUAL
            invariant
                self.moved(old(self)),
                p < self.pos(),
                p == old(self).pos(),
                t == self.tv(),
                self.tokens@.len() < usize::MAX,
                spec_comparison(t, p) == spec_comparison_loop(t, self.pos(), factor@),
                !(spec_comparison(t, p) is Panic),
            decreases self.tv().len() - self.pos(),
        {
            let operator = self.cur_kind();
            self.advance();
            let right = match self.parse_term() {
                Ok(r) => r,
                Err(e) => {
                    return Err(e);
                },
            };
            factor = Node::BinaryOp(
                BinaryOpNode { left: Box::new(factor), right: Box::new(right), op_tok: operator },
            );
        }
        Ok(factor)
    }

    fn parse_term(&mut self) -> (r: Result<Node, ParserError>)
        requires
            !(spec_term(old(self).tv(), old(self).pos()) is Panic),
            old(self).tokens@.len() < usize::MAX,
        ensures
            final(self).moved(old(self)),
            agrees(r, final(self).pos(), spec_term(old(self).tv(), old(self).pos()), view_node()),
            r is Ok ==> final(self).pos() > old(self).pos(),
        decreases old(self).tv().len() - old(self).pos(), 5int,
    {
        let ghost t = self.tv();
        let ghost p = self.pos();
        let mut factor = match self.parse_factor() {
            Ok(f) => f,
            Err(e) => {
                return Err(e);
            },
        };
        while self.cur_kind() == TokenKind::MINUS || self.cur_kind() == TokenKind::PLUS
            invariant
                self.moved(old(self)),
                p < self.pos(),
                p == old(self).pos(),
                t == self.tv(),
                self.tokens@.len() < usize::MAX,
                spec_term(t, p) == spec_term_loop(t, self.pos(), factor@),
                !(spec_term(t, p) is Panic),
            decreases self.tv().len() - self.pos(),
        {
            let operator = self.cur_kind();
            self.advance();
            let right = match self.parse_factor() {
                Ok(r) => r,
                Err(e) => {
                    return Err(e);
                },
            };
            factor = Node::BinaryOp(
                BinaryOpNode { left: Box::new(factor), right: Box::new(right), op_tok: operator },
            );
        }
        Ok(factor)
    }

    fn parse_factor(&mut self) -> (r: Result<Node, ParserError>)
        requires
            !(spec_factor(old(self).tv(), old(self).pos()) is Panic),
            old(self).tokens@.len() < usize::MAX,
        ensures
            final(self).moved(old(self)),
            agrees(r, final(self).pos(), spec_factor(old(self).tv(), old(self).pos()), view_node()),
            r is Ok ==> final(self).pos() > old(self).pos(),
        decreases old(self).tv().len() - old(self).pos(), 3int,
    {
        let ghost t = self.tv();
        let ghost p = self.pos();
        let mut factor = match self.parse_unary() {
            Ok(f) => f,
            Err(e) => {
                return Err(e);
            },
        };
        while self.cur_kind() == TokenKind::TIMES || self.cur_kind() == TokenKind::DIVIDE
            || self.cur_kind() == TokenKind::MODULO
            invariant
                self.moved(old(self)),
                p < self.pos(),
                p == old(self).pos(),
                t == self.tv(),
                self.tokens@.len() < usize::MAX,
                spec_factor(t, p) == spec_factor_loop(t, self.pos(), factor@),
                !(spec_factor(t, p) is Panic),
            decreases self.tv().len() - self.pos(),
        {
            let operator = self.cur_kind();
            self.advance();
            let right = match self.parse_unary() {
                Ok(r) => r,
                Err(e) => {
                    return Err(e);
                },
            };
            factor = Node::BinaryOp(
                BinaryOpNode { left: Box::new(factor), right: Box::new(right), op_tok: operator },
            );
        }
        Ok(factor)
    }
}

} // verus!

verus! {

pub open spec fn view_cond_block() -> spec_fn((Node, Vec<Node>)) -> (NodeV, Seq<NodeV>) {
    |x: (Node, Vec<Node>)| (x.0@, nodes_view(x.1@))
}

impl Parser {
    fn parse_var_decl_stmt(&mut self, is_pub: bool) -> (r: Result<Node, ParserError>)
        requires
            !(spec_var_decl(old(self).tv(), old(self).pos(), is_pub) is Panic),
            old(self).tokens@.len() < usize::MAX,
        ensures
            final(self).moved(old(self)),
            agrees(
                r,
                final(self).pos(),
                spec_var_decl(old(self).tv(), old(self).pos(), is_pub),
                view_node(),
            ),
            r is Ok ==> final(self).pos() > old(self).pos(),
        decreases old(self).tv().len() - old(self).pos(), 10int,
    {
        let is_const = self.cur_kind() == TokenKind::CONST;
        self.advance();
        let id = match self.expect(TokenKind::IDENTIFIER) {
            Ok(t) => t.token_value,
            Err(e) => {
                return Err(e);
            },
        };
        let value_type = match self.parse_opt_type() {
            Ok(v) => v,
            Err(e) => {
                return Err(e);
            },
        };
        if self.cur_kind() == TokenKind::ASSIGN {
            self.advance();
            let value = match self.parse_expr() {
                Ok(v) => v,
                Err(e) => {
                    return Err(e);
                },
            };
            Ok(
                Node::VariableDefine(
                    VariableDefineNode {
                        var_name: id,
                        value_type,
                        value: Some(Box::new(value)),
                        is_const,
                        is_public: is_pub,
                    },
                ),
            )
        } else {
            Ok(
                Node::VariableDefine(
                    VariableDefineNode {
                        var_name: id,
                        value_type,
                        value: None,
                        is_const,
                        is_public: is_pub,
                    },
                ),
            )
        }
    }

    fn parse_params(&mut self) -> (r: Result<Vec<FunctionArgs>, ParserError>)
        requires
            !(spec_params(old(self).tv(), old(self).pos(), Seq::empty()) is Panic),
            old(self).pos() <= old(self).tv().len(),
            old(self).tokens@.len() < usize::MAX,
        ensures
            final(self).moved(old(self)),
            agrees(
                r,
                final(self).pos(),
                spec_params(old(self).tv(), old(self).pos(), Seq::empty()),
                view_params(),
            ),
    {
        let ghost t = self.tv();
        let ghost p = self.pos();
        let mut args: Vec<FunctionArgs> = Vec::new();
        assert(params_view(args@) =~= Seq::empty());
        loop
            invariant_except_break
                spec_params(t, p, Seq::empty()) == spec_params(t, self.pos(), params_view(args@)),
            invariant
                self.moved(old(self)),
                p <= self.pos(),
                p == old(self).pos(),
                t == self.tv(),
                self.tokens@.len() < usize::MAX,
                !(spec_params(t, p, Seq::empty()) is Panic),
            ensures
                self.moved(old(self)),
                spec_params(t, p, Seq::empty()) == PRes::Done(params_view(args@), self.pos()),
            decreases self.tv().len() - self.pos(),
        {
            let name = match self.expect(TokenKind::IDENTIFIER) {
                Ok(t) => t.token_value,
                Err(e) => {
                    return Err(e);
                },
            };
            match self.expect(TokenKind::COLON) {
                Ok(_) => {},
                Err(e) => {
                    return Err(e);
                },
            }
            let ty = match self.expect(TokenKind::IDENTIFIER) {
                Ok(t) => t.token_value,
                Err(e) => {
                    return Err(e);
                },
            };
            let ghost before = params_view(args@);
            args.push(FunctionArgs { name, argument_type: ty });
            assert(params_view(args@) =~= before.push((name@, ty@)));
            if self.cur_kind() == TokenKind::COMMA {
                self.advance();
                continue ;
            }
            break ;
        }
        Ok(args)
    }

    fn parse_block(&mut self, eof_check: bool) -> (r: Result<Vec<Node>, ParserError>)
        requires
            !(spec_block(old(self).tv(), old(self).pos(), eof_check) is Panic),
            old(self).tokens@.len() < usize::MAX,
        ensures
            final(self).moved(old(self)),
            agrees(
                r,
                final(self).pos(),
                spec_block(old(self).tv(), old(self).pos(), eof_check),
                view_nodes(),
            ),
        decreases old(self).tv().len() - old(self).pos(), 16int,
    {
        let ghost t = self.tv();
        let ghost p = self.pos();
        let mut body: Vec<Node> = Vec::new();
        assert(nodes_view(body@) =~= Seq::empty());
        loop
            invariant_except_break
                spec_stmt_list(t, p, Seq::empty(), eof_check) == spec_stmt_list(
                    t,
                    self.pos(),
                    nodes_view(body@),
                    eof_check,
                ),
            invariant
                self.moved(old(self)),
                p <= self.pos(),
                p == old(self).pos(),
                t == self.tv(),
                self.tokens@.len() < usize::MAX,
                !(spec_stmt_list(t, p, Seq::empty(), eof_check) is Panic),
                !(spec_block(t, p, eof_check) is Panic),
                spec_block(t, p, eof_check) == match spec_stmt_list(
                    t,
                    p,
                    Seq::empty(),
                    eof_check,
                ) {
                    PRes::Done(b, q) => match spec_expect(t, q, TokenKind::CLOSINGBRACE) {
                        PRes::Done(_, q2) => PRes::Done(b, q2),
                        PRes::Fail(e, q2) => PRes::Fail(e, q2),
                        PRes::Panic => PRes::Panic,
                    },
                    PRes::Fail(e, q) => PRes::Fail(e, q),
                    PRes::Panic => PRes::Panic,
                },
            ensures
                self.moved(old(self)),
                spec_stmt_list(t, p, Seq::empty(), eof_check) == PRes::Done(
                    nodes_view(body@),
                    self.pos(),
                ),
            decreases self.tv().len() - self.pos(),
        {
            let k = self.cur_kind();
            if k == TokenKind::CLOSINGBRACE {
                break ;
            }
            if eof_check && k == TokenKind::EOF {
                return Err(err_unexpected(owned("EOF"), TokenKind::SEMICOLON));
            }
            let n = match self.parse_stmt() {
                Ok(n) => n,
                Err(e) => {
                    return Err(e);
                },
            };
            proof {
                lemma_nodes_view_push(body@, n);
            }
            body.push(n);
        }
        match self.expect(TokenKind::CLOSINGBRACE) {
            Ok(_) => Ok(body),
            Err(e) => Err(e),
        }
    }

    fn parse_fn_def(&mut self) -> (r: Result<Node, ParserError>)
        requires
            !(spec_fn_def(old(self).tv(), old(self).pos()) is Panic),
            old(self).pos() < old(self).tv().len(),
            old(self).tokens@.len() < usize::MAX,
        ensures
            final(self).moved(old(self)),
            agrees(r, final(self).pos(), spec_fn_def(old(self).tv(), old(self).pos()), view_node()),
            r is Ok ==> final(self).pos() > old(self).pos(),
        decreases old(self).tv().len() - old(self).pos(), 11int,
    {
        let mut args: Vec<FunctionArgs> = Vec::new();
        self.advance();
        let id = match self.expect(TokenKind::IDENTIFIER) {
            Ok(t) => t.token_value,
            Err(e) => {
                return Err(e);
            },
        };
        match self.expect(TokenKind::LEFTPAREN) {
            Ok(_) => {},
            Err(e) => {
                return Err(e);
            },
        }
        if self.cur_kind() != TokenKind::RIGHTPAREN {
            args = match self.parse_params() {
                Ok(a) => a,
                Err(e) => {
                    return Err(e);
                },
            };
        }
        assert(args@.len() == 0 ==> params_view(args@) =~= Seq::empty());
        match self.expect(TokenKind::RIGHTPAREN) {
            Ok(_) => {},
            Err(e) => {
                return Err(e);
            },
        }
        let return_type = match self.parse_opt_type() {
            Ok(v) => v,
            Err(e) => {
                return Err(e);
            },
        };
        match self.expect(TokenKind::OPENINGBRACE) {
            Ok(_) => {},
            Err(e) => {
                return Err(e);
            },
        }
        let body = match self.parse_block(false) {
            Ok(b) => b,
            Err(e) => {
                return Err(e);
            },
        };
        Ok(Node::FunctionDefine(FunctionDefineNode { id, return_type, body, args }))
    }

    fn parse_cond_block(&mut self) -> (r: Result<(Node, Vec<Node>), ParserError>)
        requires
            !(spec_cond_block(old(self).tv(), old(self).pos()) is Panic),
            old(self).tokens@.len() < usize::MAX,
        ensures
            final(self).moved(old(self)),
            agrees(
                r,
                final(self).pos(),
                spec_cond_block(old(self).tv(), old(self).pos()),
                view_cond_block(),
            ),
            r is Ok ==> final(self).pos() > old(self).pos(),
        decreases old(self).tv().len() - old(self).pos(), 12int,
    {
        match self.expect(TokenKind::LEFTPAREN) {
            Ok(_) => {},
            Err(e) => {
                return Err(e);
            },
        }
        let condition = match self.parse_expr() {
            Ok(c) => c,
            Err(e) => {
                return Err(e);
            },
        };
        match self.expect(TokenKind::RIGHTPAREN) {
            Ok(_) => {},
            Err(e) => {
                return Err(e);
            },
        }
        match self.expect(TokenKind::OPENINGBRACE) {
            Ok(_) => {},
            Err(e) => {
                return Err(e);
            },
        }
        let body = match self.parse_block(true) {
            Ok(b) => b,
            Err(e) => {
                return Err(e);
            },
        };
        Ok((condition, body))
    }

    fn parse_loop_stmt(&mut self) -> (r: Result<Node, ParserError>)
        requires
            !(spec_loop_stmt(old(self).tv(), old(self).pos()) is Panic),
            old(self).pos() < old(self).tv().len(),
            old(self).tokens@.len() < usize::MAX,
        ensures
            final(self).moved(old(self)),
            agrees(r, final(self).pos(), spec_loop_stmt(old(self).tv(), old(self).pos()), view_node()),
            r is Ok ==> final(self).pos() > old(self).pos(),
        decreases old(self).tv().len() - old(self).pos(), 13int,
    {
        self.advance();
        match self.expect(TokenKind::OPENINGBRACE) {
            Ok(_) => {},
            Err(e) => {
                return Err(e);
            },
        }
        let body = match self.parse_block(true) {
            Ok(b) => b,
            Err(e) => {
                return Err(e);
            },
        };
        Ok(Node::Loop(LoopNode { body }))
    }

    fn parse_return_stmt(&mut self) -> (r: Result<Node, ParserError>)
        requires
            !(spec_return_stmt(old(self).tv(), old(self).pos()) is Panic),
            old(self).pos() < old(self).tv().len(),
            old(self).tokens@.len() < usize::MAX,
        ensures
            final(self).moved(old(self)),
            agrees(
                r,
                final(self).pos(),
                spec_return_stmt(old(self).tv(), old(self).pos()),
                view_node(),
            ),
            r is Ok ==> final(self).pos() > old(self).pos(),
        decreases old(self).tv().len() - old(self).pos(), 13int,
    {
        self.advance();
        if self.cur_kind() == TokenKind::SEMICOLON {
            match self.expect(TokenKind::SEMICOLON) {
                Ok(_) => {},
                Err(e) => {
                    return Err(e);
                },
            }
            Ok(Node::Return(ReturnNode { returns: None }))
        } else {
            let value = match self.parse_expr() {
                Ok(v) => v,
                Err(e) => {
                    return Err(e);
                },
            };
            match self.expect(TokenKind::SEMICOLON) {
                Ok(_) => {},
                Err(e) => {
                    return Err(e);
                },
            }
            Ok(Node::Return(ReturnNode { returns: Some(Box::new(value)) }))
        }
    }

    fn parse_exp_stmt(&mut self) -> (r: Result<Node, ParserError>)
        requires
            !(spec_exp_stmt(old(self).tv(), old(self).pos()) is Panic),
            old(self).pos() < old(self).tv().len(),
            old(self).tokens@.len() < usize::MAX,
        ensures
            final(self).moved(old(self)),
            agrees(r, final(self).pos(), spec_exp_stmt(old(self).tv(), old(self).pos()), view_node()),
            r is Ok ==> final(self).pos() > old(self).pos(),
        decreases old(self).tv().len() - old(self).pos(), 13int,
    {
        self.advance();
        let k2 = self.cur_kind();
        if k2 == TokenKind::CONST || k2 == TokenKind::VAR {
            let value = match self.parse_var_decl_stmt(true) {
                Ok(v) => v,
                Err(e) => {
                    return Err(e);
                },
            };
            match self.expect(TokenKind::SEMICOLON) {
                Ok(_) => {},
                Err(e) => {
                    return Err(e);
                },
            }
            Ok(value)
        } else if k2 == TokenKind::FNC {
            self.parse_fn_def()
        } else {
            Err(err_unexpected(self.cur_value(), TokenKind::VAR))
        }
    }

    fn parse_assign_stmt(&mut self) -> (r: Result<Node, ParserError>)
        requires
            !(spec_assign_stmt(old(self).tv(), old(self).pos()) is Panic),
            old(self).pos() + 1 < old(self).tv().len(),
            old(self).tv()[old(self).pos() + 1].kind == TokenKind::ASSIGN,
            old(self).tokens@.len() < usize::MAX,
        ensures
            final(self).moved(old(self)),
            agrees(
                r,
                final(self).pos(),
                spec_assign_stmt(old(self).tv(), old(self).pos()),
                view_node(),
            ),
            r is Ok ==> final(self).pos() > old(self).pos(),
        decreases old(self).tv().len() - old(self).pos(), 13int,
    {
        let id = self.cur_value();
        self.advance();
        match self.expect(TokenKind::ASSIGN) {
            Ok(_) => {},
            Err(e) => {
                return Err(e);
            },
        }
        let value = match self.parse_expr() {
            Ok(v) => v,
            Err(e) => {
                return Err(e);
            },
        };
        match self.expect(TokenKind::SEMICOLON) {
            Ok(_) => {},
            Err(e) => {
                return Err(e);
            },
        }
        Ok(Node::VariableAssign(VariableAssignNode { name: id, value: Box::new(value) }))
    }

    fn parse_if_stmt(&mut self) -> (r: Result<Node, ParserError>)
        requires
            !(spec_if_stmt(old(self).tv(), old(self).pos()) is Panic),
            old(self).pos() < old(self).tv().len(),
            old(self).tokens@.len() < usize::MAX,
        ensures
            final(self).moved(old(self)),
            agrees(r, final(self).pos(), spec_if_stmt(old(self).tv(), old(self).pos()), view_node()),
            r is Ok ==> final(self).pos() > old(self).pos(),
        decreases old(self).tv().len() - old(self).pos(), 13int,
    {
        self.advance();
        let (condition, then_branch) = match self.parse_cond_block() {
            Ok(cb) => cb,
            Err(e) => {
                return Err(e);
            },
        };
        if self.cur_kind() == TokenKind::ELSE {
            self.advance();
            match self.expect(TokenKind::OPENINGBRACE) {
                Ok(_) => {},
                Err(e) => {
                    return Err(e);
                },
            }
            let else_body = match self.parse_block(true) {
                Ok(b) => b,
                Err(e) => {
                    return Err(e);
                },
            };
            Ok(
                Node::If(
                    IfStatement {
                        condition: Box::new(condition),
                        then_branch,
                        else_branch: Some(else_body),
                    },
                ),
            )
        } else {
            Ok(
                Node::If(
                    IfStatement { condition: Box::new(condition), then_branch, else_branch: None },
                ),
            )
        }
    }

    fn parse_while_stmt(&mut self) -> (r: Result<Node, ParserError>)
        requires
            !(spec_while_stmt(old(self).tv(), old(self).pos()) is Panic),
            old(self).pos() < old(self).tv().len(),
            old(self).tokens@.len() < usize::MAX,
        ensures
            final(self).moved(old(self)),
            agrees(r, final(self).pos(), spec_while_stmt(old(self).tv(), old(self).pos()), view_node()),
            r is Ok ==> final(self).pos() > old(self).pos(),
        decreases old(self).tv().len() - old(self).pos(), 13int,
    {
        self.advance();
        let (condition, body) = match self.parse_cond_block() {
            Ok(cb) => cb,
            Err(e) => {
                return Err(e);
            },
        };
        Ok(Node::While(WhileStatement { condition: Box::new(condition), body }))
    }

    fn parse_stmt(&mut self) -> (r: Result<Node, ParserError>)
        requires
            !(spec_stmt(old(self).tv(), old(self).pos()) is Panic),
            old(self).tokens@.len() < usize::MAX,
        ensures
            final(self).moved(old(self)),
            agrees(r, final(self).pos(), spec_stmt(old(self).tv(), old(self).pos()), view_node()),
            r is Ok ==> final(self).pos() > old(self).pos(),
        decreases old(self).tv().len() - old(self).pos(), 14int,
    {
        let k = self.cur_kind();
        if k == TokenKind::LOOP {
            self.parse_loop_stmt()
        } else if k == TokenKind::RETURN {
            self.parse_return_stmt()
        } else if k == TokenKind::EXP {
            self.parse_exp_stmt()
        } else if k == TokenKind::VAR || k == TokenKind::CONST {
            let value = self.parse_var_decl_stmt(false);
            match self.expect(TokenKind::SEMICOLON) {
                Ok(_) => {},
                Err(e) => {
                    return Err(e);
                },
            }
            value
        } else if k == TokenKind::IDENTIFIER && self.peek() == TokenKind::ASSIGN {
            self.parse_assign_stmt()
        } else if k == TokenKind::IF {
            self.parse_if_stmt()
        } else if k == TokenKind::WHILE {
            self.parse_while_stmt()
        } else if k == TokenKind::FNC {
            self.parse_fn_def()
        } else {
            let expr = self.parse_expr();
            match self.expect(TokenKind::SEMICOLON) {
                Ok(_) => {},
                Err(e) => {
                    return Err(e);
                },
            }
            expr
        }
    }
}

} // verus!

verus! {

impl Parser {
    fn parse_top_statement(&mut self) -> (r: Result<Node, ParserError>)
        requires
            !(spec_top_stmt(old(self).tv(), old(self).pos()).0 is Panic),
            old(self).pos() < old(self).tv().len(),
            old(self).tokens@.len() < usize::MAX,
        ensures
            final(self).tokens == old(self).tokens,
            old(self).token_idx <= final(self).token_idx <= final(self).tokens@.len(),
            final(self).on_top_statement == (old(self).on_top_statement && spec_top_stmt(
                old(self).tv(),
                old(self).pos(),
            ).1),
            agrees(
                r,
                final(self).pos(),
                spec_top_stmt(old(self).tv(), old(self).pos()).0,
                view_node(),
            ),
            r is Ok ==> final(self).pos() > old(self).pos(),
    {
        if self.cur_kind() == TokenKind::USE {
            self.advance();
            let name_to_use = match self.expect(TokenKind::STRING) {
                Ok(t) => t.token_value,
                Err(e) => {
                    return Err(e);
                },
            };
            match self.expect(TokenKind::SEMICOLON) {
                Ok(_) => {},
                Err(e) => {
                    return Err(e);
                },
            }
            Ok(Node::Import(ImportNode { module: name_to_use }))
        } else {
            self.on_top_statement = false;
            self.parse_stmt()
        }
    }

    /// Parses the whole token list into a program: imports first, then statements,
    /// up to the end-of-file token.
    pub fn parse(&mut self) -> (r: Result<Node, ParserError>)
        requires
            !(spec_parse(old(self).tv(), old(self).pos(), old(self).on_top_statement) is Panic),
            old(self).token_idx <= old(self).tokens@.len(),
            old(self).tokens@.len() < usize::MAX,
        ensures
            final(self).tokens == old(self).tokens,
            agrees(
                r,
                final(self).pos(),
                spec_parse(old(self).tv(), old(self).pos(), old(self).on_top_statement),
                view_node(),
            ),
            final(self).on_top_statement == spec_program_stmts(
                old(self).tv(),
                old(self).pos(),
                old(self).on_top_statement,
            ).1,
    {
        let ghost t = self.tv();
        let ghost p = self.pos();
        let ghost goal = spec_program_stmts(t, p, self.on_top_statement);
        let mut program_nodes: Vec<Node> = Vec::new();
        assert(nodes_view(program_nodes@) =~= Seq::empty());
        while self.on_top_statement && self.cur_kind() != TokenKind::EOF
            invariant
                self.tokens == old(self).tokens,
                t == self.tv(),
                p <= self.pos() <= self.tv().len(),
                self.tokens@.len() < usize::MAX,
                !(goal.0 is Panic),
                goal == spec_program_stmts(old(self).tv(), old(self).pos(), old(self).on_top_statement),
                p == old(self).pos(),
                self.on_top_statement ==> goal == spec_top_loop(
                    t,
                    self.pos(),
                    nodes_view(program_nodes@),
                ),
                !self.on_top_statement ==> goal == (
                    spec_main_loop(t, self.pos(), nodes_view(program_nodes@)),
                    false,
                ),
            decreases self.tv().len() - self.pos(),
        {
            let n = match self.parse_top_statement() {
                Ok(n) => n,
                Err(e) => {
                    return Err(e);
                },
            };
            proof {
                lemma_nodes_view_push(program_nodes@, n);
            }
            program_nodes.push(n);
        }
        while self.cur_kind() != TokenKind::EOF
            invariant
                self.tokens == old(self).tokens,
                t == self.tv(),
                p <= self.pos() <= self.tv().len(),
                self.tokens@.len() < usize::MAX,
                !(goal.0 is Panic),
                goal == spec_program_stmts(old(self).tv(), old(self).pos(), old(self).on_top_statement),
                p == old(self).pos(),
                self.on_top_statement ==> goal == spec_top_loop(
                    t,
                    self.pos(),
                    nodes_view(program_nodes@),
                ),
                self.on_top_statement ==> self.pos() < t.len() && t[self.pos()].kind
                    == TokenKind::EOF,
                !self.on_top_statement ==> goal == (
                    spec_main_loop(t, self.pos(), nodes_view(program_nodes@)),
                    false,
                ),
            decreases self.tv().len() - self.pos(),
        {
            let n = match self.parse_stmt() {
                Ok(n) => n,
                Err(e) => {
                    return Err(e);
                },
            };
            proof {
                lemma_nodes_view_push(program_nodes@, n);
            }
            program_nodes.push(n);
        }
        Ok(Node::Program(ProgramNode { program_nodes }))
    }
}

} // verus!
