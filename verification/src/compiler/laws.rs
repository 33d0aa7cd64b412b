//! What compiling keeps: scopes opened by a statement are closed by it.
use vstd::prelude::*;
use crate::ast::NodeV;
use crate::context::{ctx_enter_scope, ctx_exit_scope, ctx_get_fn, ctx_get_variable, CtxV};
use crate::instructions::InstrV;
use super::model::{
    binop_type, drops, emit, is_binary_op, numeric, sc_call_args, sc_compile, sc_print_args, sc_seq,
    tag_of, with_ctx, without_macro, CompilerV, Outcome,
};
use crate::errors::compiler_errors::CErr;
use crate::tokens::TokenKind;
use crate::types::ComptimeValueType;

verus! {

/// `b` has as many scopes as `a`, the same function scope, and the same scopes but the
/// innermost.
pub open spec fn scopes_kept(a: CtxV, b: CtxV) -> bool {
    &&& b.scopes.len() == a.scopes.len()
    &&& b.last_fn_context == a.last_fn_context
    &&& forall|i: int| 0 <= i < a.scopes.len() - 1 ==> #[trigger] b.scopes[i] == a.scopes[i]
}

/// Compiling a node changes no scope but the innermost one, and opens or closes none.
pub proof fn lemma_compile_keeps_scopes(s: CompilerV, n: NodeV)
    ensures
        sc_compile(s, n) matches Outcome::Done(s1, _) ==> scopes_kept(s.ctx, s1.ctx),
    decreases n,
{
    match n {
        NodeV::BinaryOp(l, r, op) => {
            lemma_compile_keeps_scopes(s, *l);
            if let Outcome::Done(s1, _) = sc_compile(s, *l) {
                lemma_compile_keeps_scopes(s1, *r);
            }
        },
        NodeV::VariableDefine(name, written, value, is_const, _) => {
            if let Some(v) = value {
                lemma_compile_keeps_scopes(s, *v);
            }
        },
        NodeV::VariableAssign(name, value) => {
            lemma_compile_keeps_scopes(s, *value);
        },
        NodeV::FunctionCall(args, name, call_type, _) => {
            let t = without_macro(s, name);
            lemma_print_args_keeps_scopes(t, args, InstrV::WriteLnLastOnStack);
            lemma_print_args_keeps_scopes(t, args, InstrV::WriteLastOnStack);
            if args.len() > 0 {
                lemma_compile_keeps_scopes(t, args[0]);
            }
            if let Ok(f) = ctx_get_fn(s.ctx, name) {
                lemma_call_args_keeps_scopes(s, args, f.args, name);
            }
        },
        NodeV::Return(value) => {
            if let Some(v) = value {
                lemma_compile_keeps_scopes(s, *v);
            }
        },
        NodeV::Loop(body) => {
            lemma_seq_keeps_scopes(s, body);
        },
        NodeV::If(cond, then_branch, else_branch) => {
            lemma_compile_keeps_scopes(s, *cond);
            if let Outcome::Done(s1, _) = sc_compile(s, *cond) {
                let s2 = emit(s1, InstrV::JumpIfFalse(0));
                let s2e = with_ctx(s2, ctx_enter_scope(s2.ctx));
                lemma_seq_keeps_scopes(s2e, then_branch);
                if let Outcome::Done(s3, _) = sc_seq(s2e, then_branch) {
                    let s4 = with_ctx(s3, ctx_exit_scope(s3.ctx));
                    assert(s4.ctx.scopes =~= s1.ctx.scopes);
                    let s5 = emit(s4, InstrV::Jump(0));
                    let s6 = CompilerV {
                        out: s5.out.update(
                            s1.out.len() as int,
                            InstrV::JumpIfFalse(s5.out.len() as usize),
                        ),
                        ..s5
                    };
                    let s7 = with_ctx(s6, ctx_enter_scope(s6.ctx));
                    assert(ctx_exit_scope(s7.ctx).scopes =~= s1.ctx.scopes);
                    if let Some(e) = else_branch {
                        lemma_seq_keeps_scopes(s7, e);
                        if let Outcome::Done(s8, _) = sc_seq(s7, e) {
                            assert(ctx_exit_scope(s8.ctx).scopes =~= s1.ctx.scopes);
                        }
                    }
                }
            }
        },
        NodeV::While(cond, body) => {
            lemma_compile_keeps_scopes(s, *cond);
            if let Outcome::Done(s1, _) = sc_compile(s, *cond) {
                let s2 = emit(s1, InstrV::JumpIfFalse(0));
                let s2e = with_ctx(s2, ctx_enter_scope(s2.ctx));
                lemma_seq_keeps_scopes(s2e, body);
                if let Outcome::Done(s3, _) = sc_seq(s2e, body) {
                    if s3.ctx.scopes.len() > 0 {
                        let s4 = CompilerV {
                            out: s3.out + drops(s3.ctx.scopes.last()),
                            ctx: ctx_exit_scope(s3.ctx),
                            ..s3
                        };
                        assert(s4.ctx.scopes =~= s1.ctx.scopes);
                        lemma_compile_keeps_scopes(s4, *cond);
                    }
                }
            }
        },
        _ => {},
    }
}

/// The branches of an `if` leave the scopes as they found them.
pub proof fn lemma_if_branches_close(s1: CompilerV, then_branch: Seq<NodeV>, else_branch: Option<Seq<NodeV>>)
    ensures
        ({
            let s2 = emit(s1, InstrV::JumpIfFalse(0));
            let s2e = with_ctx(s2, ctx_enter_scope(s2.ctx));
            sc_seq(s2e, then_branch) matches Outcome::Done(s3, _) ==> s3.ctx.scopes.len() > 0 && ({
                let s4 = with_ctx(s3, ctx_exit_scope(s3.ctx));
                let s5 = emit(s4, InstrV::Jump(0));
                let s6 = CompilerV {
                    out: s5.out.update(s1.out.len() as int, InstrV::JumpIfFalse(s5.out.len() as usize)),
                    ..s5
                };
                let s7 = with_ctx(s6, ctx_enter_scope(s6.ctx));
                &&& s4.ctx.scopes == s1.ctx.scopes
                &&& s4.ctx.last_fn_context == s1.ctx.last_fn_context
                &&& (else_branch matches Some(e) ==> (sc_seq(s7, e) matches Outcome::Done(s8, _)
                    ==> s8.ctx.scopes.len() > 0 && ctx_exit_scope(s8.ctx).scopes == s1.ctx.scopes
                    && s8.ctx.last_fn_context == s1.ctx.last_fn_context))
                &&& s7.ctx.scopes.len() > 0
                &&& ctx_exit_scope(s7.ctx).scopes == s1.ctx.scopes
            })
        }),
{
    let s2 = emit(s1, InstrV::JumpIfFalse(0));
    let s2e = with_ctx(s2, ctx_enter_scope(s2.ctx));
    lemma_seq_keeps_scopes(s2e, then_branch);
    if let Outcome::Done(s3, _) = sc_seq(s2e, then_branch) {
        let s4 = with_ctx(s3, ctx_exit_scope(s3.ctx));
        assert(s4.ctx.scopes =~= s1.ctx.scopes);
        let s5 = emit(s4, InstrV::Jump(0));
        let s6 = CompilerV {
            out: s5.out.update(s1.out.len() as int, InstrV::JumpIfFalse(s5.out.len() as usize)),
            ..s5
        };
        let s7 = with_ctx(s6, ctx_enter_scope(s6.ctx));
        assert(ctx_exit_scope(s7.ctx).scopes =~= s1.ctx.scopes);
        if let Some(e) = else_branch {
            lemma_seq_keeps_scopes(s7, e);
            if let Outcome::Done(s8, _) = sc_seq(s7, e) {
                assert(ctx_exit_scope(s8.ctx).scopes =~= s1.ctx.scopes);
            }
        }
    }
}

pub proof fn lemma_seq_keeps_scopes(s: CompilerV, v: Seq<NodeV>)
    ensures
        sc_seq(s, v) matches Outcome::Done(s1, _) ==> scopes_kept(s.ctx, s1.ctx),
    decreases v,
{
    if v.len() > 0 {
        lemma_compile_keeps_scopes(s, v[0]);
        if let Outcome::Done(s1, _) = sc_compile(s, v[0]) {
            lemma_seq_keeps_scopes(s1, v.drop_first());
        }
    }
}

pub proof fn lemma_call_args_keeps_scopes(
    s: CompilerV,
    args: Seq<NodeV>,
    params: Seq<(Seq<char>, Seq<char>)>,
    fname: Seq<char>,
)
    ensures
        sc_call_args(s, args, params, fname) matches Outcome::Done(s1, _) ==> scopes_kept(s.ctx, s1.ctx),
    decreases args,
{
    if args.len() > 0 && params.len() > 0 {
        lemma_compile_keeps_scopes(s, args[0]);
        if let Outcome::Done(s1, t) = sc_compile(s, args[0]) {
            let s2 = emit(s1, InstrV::SaveVar(tag_of(params[0].0, fname)));
            lemma_call_args_keeps_scopes(s2, args.drop_first(), params.drop_first(), fname);
        }
    }
}

pub proof fn lemma_print_args_keeps_scopes(s: CompilerV, args: Seq<NodeV>, print: InstrV)
    ensures
        sc_print_args(s, args, print) matches Outcome::Done(s1, _) ==> scopes_kept(s.ctx, s1.ctx),
    decreases args,
{
    if args.len() > 0 {
        lemma_compile_keeps_scopes(s, args[0]);
        if let Outcome::Done(s1, t) = sc_compile(s, args[0]) {
            lemma_print_args_keeps_scopes(emit(s1, print), args.drop_first(), print);
        }
    }
}

/// What the branches of an `if` declare is gone once the `if` is compiled: every name
/// denotes what it denoted after the condition.
pub proof fn lemma_if_hides_branch_variables(
    s: CompilerV,
    cond: NodeV,
    then_branch: Seq<NodeV>,
    else_branch: Option<Seq<NodeV>>,
    name: Seq<char>,
)
    requires
        sc_compile(s, NodeV::If(Box::new(cond), then_branch, else_branch)) is Done,
    ensures
        sc_compile(s, cond) matches Outcome::Done(s1, _) && ({
            let s_end = sc_compile(s, NodeV::If(Box::new(cond), then_branch, else_branch))->Done_0;
            &&& s_end.ctx.scopes == s1.ctx.scopes
            &&& ctx_get_variable(s_end.ctx, name) == ctx_get_variable(s1.ctx, name)
        }),
{
    if let Outcome::Done(s1, _) = sc_compile(s, cond) {
        lemma_if_branches_close(s1, then_branch, else_branch);
    }
}

/// What the body of a `while` declares is gone once the loop is compiled: the scopes are
/// those the condition left.
pub proof fn lemma_while_hides_body_variables(s: CompilerV, cond: NodeV, body: Seq<NodeV>, name: Seq<char>)
    requires
        sc_compile(s, NodeV::While(Box::new(cond), body)) is Done,
    ensures
        sc_compile(s, cond) matches Outcome::Done(s1, _) && ({
            let s_end = sc_compile(s, NodeV::While(Box::new(cond), body))->Done_0;
            &&& scopes_kept(s1.ctx, s_end.ctx)
            &&& s_end.ctx.scopes.len() == s1.ctx.scopes.len()
        }),
{
    if let Outcome::Done(s1, _) = sc_compile(s, cond) {
        let s2 = emit(s1, InstrV::JumpIfFalse(0));
        let s2e = with_ctx(s2, ctx_enter_scope(s2.ctx));
        lemma_seq_keeps_scopes(s2e, body);
        if let Outcome::Done(s3, _) = sc_seq(s2e, body) {
            if s3.ctx.scopes.len() > 0 {
                let s4 = CompilerV {
                    out: s3.out + drops(s3.ctx.scopes.last()),
                    ctx: ctx_exit_scope(s3.ctx),
                    ..s3
                };
                assert(s4.ctx.scopes =~= s1.ctx.scopes);
                lemma_compile_keeps_scopes(s4, cond);
            }
        }
    }
}

/// The condition of an `if` must be a boolean: any other type is refused, naming both.
pub proof fn lemma_if_condition_is_bool(
    s: CompilerV,
    cond: NodeV,
    then_branch: Seq<NodeV>,
    else_branch: Option<Seq<NodeV>>,
)
    requires
        sc_compile(s, cond) matches Outcome::Done(_, t) && t != ComptimeValueType::Bool,
    ensures
        sc_compile(s, NodeV::If(Box::new(cond), then_branch, else_branch)) == Outcome::Fail::<
            ComptimeValueType,
        >(
            sc_compile(s, cond)->Done_0,
            CErr::TypeMismatch(ComptimeValueType::Bool, sc_compile(s, cond)->Done_1),
        ),
{
}

/// The condition of a `while` must be a boolean: any other type is refused, naming both.
pub proof fn lemma_while_condition_is_bool(s: CompilerV, cond: NodeV, body: Seq<NodeV>)
    requires
        sc_compile(s, cond) matches Outcome::Done(_, t) && t != ComptimeValueType::Bool,
    ensures
        sc_compile(s, NodeV::While(Box::new(cond), body)) == Outcome::Fail::<ComptimeValueType>(
            sc_compile(s, cond)->Done_0,
            CErr::TypeMismatch(ComptimeValueType::Bool, sc_compile(s, cond)->Done_1),
        ),
{
}

/// A constant needs a value, and a variable needs a type or a value.
pub proof fn lemma_definitions_need_a_type(s: CompilerV, name: Seq<char>, public: bool, written: Option<Seq<char>>)
    ensures
        sc_compile(s, NodeV::VariableDefine(name, written, None, true, public)) == Outcome::Fail::<
            ComptimeValueType,
        >(s, CErr::ConstantWithoutValue(name)),
        sc_compile(s, NodeV::VariableDefine(name, None, None, false, public)) == Outcome::Fail::<
            ComptimeValueType,
        >(s, CErr::CannotInferType(name)),
{
}

/// A variable keeps its type: a value of another type cannot be assigned to it, and a
/// constant cannot be assigned at all.
pub proof fn lemma_assignment_keeps_type(s: CompilerV, name: Seq<char>, value: NodeV)
    requires
        ctx_get_variable(s.ctx, name) is Some,
    ensures
        ({
            let v = ctx_get_variable(s.ctx, name)->0;
            let r = sc_compile(s, NodeV::VariableAssign(name, Box::new(value)));
            &&& v.is_const ==> r == Outcome::Fail::<ComptimeValueType>(s, CErr::ConstReassignment(name))
            &&& (!v.is_const && (sc_compile(s, value) matches Outcome::Done(s1, t) && t
                != v.value_type)) ==> r == Outcome::Fail::<ComptimeValueType>(
                sc_compile(s, value)->Done_0,
                CErr::TypeMismatch(v.value_type, sc_compile(s, value)->Done_1),
            )
        }),
{
}

/// Only numbers take part in arithmetic and comparisons, apart from joining two strings
/// with `+` and comparing two values of one type with `==`; comparisons give booleans.
pub proof fn lemma_operands_go_together(op: TokenKind, l: ComptimeValueType, r: ComptimeValueType)
    requires
        is_binary_op(op),
        binop_type(op, l, r) is Ok,
    ensures
        op == TokenKind::EQUAL ==> l == r && binop_type(op, l, r) == Ok::<ComptimeValueType, CErr>(
            ComptimeValueType::Bool,
        ),
        op == TokenKind::PLUS ==> numeric(l, r) is Some || (l is StringValue && r is StringValue),
        (op == TokenKind::MINUS || op == TokenKind::TIMES || op == TokenKind::DIVIDE || op
            == TokenKind::MODULO) ==> numeric(l, r) is Some,
        (op == TokenKind::GREATER || op == TokenKind::LESS) ==> numeric(l, r) is Some && binop_type(
            op,
            l,
            r,
        ) == Ok::<ComptimeValueType, CErr>(ComptimeValueType::Bool),
        !(l is Bool && op != TokenKind::EQUAL),
{
}

} // verus!
