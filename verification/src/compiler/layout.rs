//! Where compiled statements put their jumps.
use vstd::prelude::*;
use crate::assoc::assoc_get;
use crate::ast::{CallType, NodeV};
use crate::macros::MacroKind;
use crate::context::{ctx_add_variable, ctx_enter_scope, ctx_exit_scope, ctx_get_variable, lemma_get_after_add, VarV};
use crate::instructions::InstrV;
use crate::tokens::TokenKind;
use crate::types::ComptimeValueType;
use super::model::{
    drops, emit, extends, lemma_compile_grows, lemma_seq_grows, sc_compile, sc_print_args, sc_seq,
    with_ctx, without_macro, CompilerV, Outcome,
};

verus! {

/// The state in which a branch or loop body starts: the jump placeholder emitted after
/// the condition, and a new scope.
pub open spec fn body_start(s1: CompilerV) -> CompilerV {
    let s2 = emit(s1, InstrV::JumpIfFalse(0));
    with_ctx(s2, ctx_enter_scope(s2.ctx))
}

/// The state in which the `else` branch starts, `s3` being the state after the `then`
/// branch: the jump over the `else` branch is placed and the first jump is aimed at it.
pub open spec fn else_start(s1: CompilerV, s3: CompilerV) -> CompilerV {
    let s4 = with_ctx(s3, ctx_exit_scope(s3.ctx));
    let s5 = emit(s4, InstrV::Jump(0));
    let s6 = CompilerV {
        out: s5.out.update(s1.out.len() as int, InstrV::JumpIfFalse(s5.out.len() as usize)),
        ..s5
    };
    with_ctx(s6, ctx_enter_scope(s6.ctx))
}

/// The code of an `if`: the condition `C`, a conditional jump to the start of the `else`
/// branch, the `then` branch `T`, a jump to the end, and the `else` branch `E` (empty when
/// there is none). `C`, `T` and `E` are exactly what the condition and the branches
/// compile to, and the condition is a boolean.
pub proof fn lemma_if_layout(
    s: CompilerV,
    cond: NodeV,
    then_branch: Seq<NodeV>,
    else_branch: Option<Seq<NodeV>>,
)
    requires
        sc_compile(s, NodeV::If(Box::new(cond), then_branch, else_branch)) is Done,
    ensures
        ({
            let c = sc_compile(s, cond);
            let s1 = c->Done_0;
            let b = sc_seq(body_start(s1), then_branch);
            let s3 = b->Done_0;
            let n = NodeV::If(Box::new(cond), then_branch, else_branch);
            let f = sc_compile(s, n)->Done_0;
            let t_code = s3.out.skip(s1.out.len() + 1int);
            let a: int = s3.out.len() + 1int;
            let e_code = match else_branch {
                Some(e) => sc_seq(else_start(s1, s3), e)->Done_0.out.skip(a),
                None => Seq::<InstrV>::empty(),
            };
            &&& c is Done
            &&& c->Done_1 == ComptimeValueType::Bool
            &&& extends(s.out, s1.out)
            &&& b is Done
            &&& sc_compile(s, n)->Done_1 == ComptimeValueType::Void
            &&& f.out == s1.out + seq![InstrV::JumpIfFalse(a as usize)] + t_code + seq![
                InstrV::Jump(f.out.len() as usize),
            ] + e_code
        }),
{
    let n = NodeV::If(Box::new(cond), then_branch, else_branch);
    lemma_compile_grows(s, cond);
    let s1 = sc_compile(s, cond)->Done_0;
    let s2e = body_start(s1);
    lemma_seq_grows(s2e, then_branch);
    let s3 = sc_seq(s2e, then_branch)->Done_0;
    let s4 = with_ctx(s3, ctx_exit_scope(s3.ctx));
    let s5 = emit(s4, InstrV::Jump(0));
    let s7 = else_start(s1, s3);
    let jf = s1.out.len() as int;
    let a: int = s3.out.len() + 1int;
    let t_code = s3.out.skip(s1.out.len() + 1int);
    let f = sc_compile(s, n)->Done_0;
    assert(s3.out =~= s1.out + seq![InstrV::JumpIfFalse(0)] + t_code);
    let s8 = match else_branch {
        Some(e) => sc_seq(s7, e)->Done_0,
        None => s7,
    };
    if let Some(e) = else_branch {
        lemma_seq_grows(s7, e);
    }
    let e_code = s8.out.skip(a);
    assert(s8.out =~= s7.out + e_code);
    assert(s7.out =~= s1.out + seq![InstrV::JumpIfFalse(a as usize)] + t_code + seq![InstrV::Jump(0)]);
    assert(f.out =~= s8.out.update(s3.out.len() as int, InstrV::Jump(s8.out.len() as usize)));
    assert(f.out =~= s1.out + seq![InstrV::JumpIfFalse(a as usize)] + t_code + seq![
        InstrV::Jump(f.out.len() as usize),
    ] + e_code);
}

/// The state after a loop body, `s3` being the state at its end: the body's variables are
/// dropped and its scope closed.
pub open spec fn body_exit(s3: CompilerV) -> CompilerV {
    CompilerV { out: s3.out + drops(s3.ctx.scopes.last()), ctx: ctx_exit_scope(s3.ctx), ..s3 }
}

/// The code of a `while`: the condition `C`, a conditional jump past the loop, the body
/// `B`, the drops of the body's variables, the condition again, and a jump back to the
/// start of the body while it holds. `C`, `B` and the second condition are exactly what
/// compiling them gives, and the condition is a boolean.
pub proof fn lemma_while_layout(s: CompilerV, cond: NodeV, body: Seq<NodeV>)
    requires
        sc_compile(s, NodeV::While(Box::new(cond), body)) is Done,
    ensures
        ({
            let c = sc_compile(s, cond);
            let s1 = c->Done_0;
            let b = sc_seq(body_start(s1), body);
            let s3 = b->Done_0;
            let s4 = body_exit(s3);
            let c2 = sc_compile(s4, cond);
            let n = NodeV::While(Box::new(cond), body);
            let f = sc_compile(s, n)->Done_0;
            let b_code = s3.out.skip(s1.out.len() + 1int);
            let c2_code = c2->Done_0.out.skip(s4.out.len() as int);
            &&& c is Done
            &&& c->Done_1 == ComptimeValueType::Bool
            &&& extends(s.out, s1.out)
            &&& b is Done
            &&& s3.ctx.scopes.len() > 0
            &&& c2 is Done
            &&& sc_compile(s, n)->Done_1 == ComptimeValueType::Void
            &&& f.out == s1.out + seq![InstrV::JumpIfFalse(f.out.len() as usize)] + b_code + drops(
                s3.ctx.scopes.last(),
            ) + c2_code + seq![InstrV::JumpIfTrue((s1.out.len() + 1) as usize)]
        }),
{
    let n = NodeV::While(Box::new(cond), body);
    lemma_compile_grows(s, cond);
    let s1 = sc_compile(s, cond)->Done_0;
    let s2e = body_start(s1);
    lemma_seq_grows(s2e, body);
    let s3 = sc_seq(s2e, body)->Done_0;
    let s4 = body_exit(s3);
    lemma_compile_grows(s4, cond);
    let s5 = sc_compile(s4, cond)->Done_0;
    let b_code = s3.out.skip(s1.out.len() + 1int);
    let c2_code = s5.out.skip(s4.out.len() as int);
    let f = sc_compile(s, n)->Done_0;
    assert(s3.out =~= s1.out + seq![InstrV::JumpIfFalse(0)] + b_code);
    assert(s5.out =~= s4.out + c2_code);
    let s6 = emit(s5, InstrV::JumpIfTrue((s1.out.len() + 1) as usize));
    assert(f.out =~= s6.out.update(s1.out.len() as int, InstrV::JumpIfFalse(s6.out.len() as usize)));
    assert(f.out =~= s1.out + seq![InstrV::JumpIfFalse(f.out.len() as usize)] + b_code + drops(
        s3.ctx.scopes.last(),
    ) + c2_code + seq![InstrV::JumpIfTrue((s1.out.len() + 1) as usize)]);
}

/// A binary operation compiles to the code of its left operand, the code of its right
/// operand, and then the one instruction that performs the operator: `+` `Add`, `-`
/// `Sub`, `*` `Mul`, `/` `Div`, `%` `Modulo`, `>` `GreaterThan`, `<` `LessThan` and `==`
/// `Equal`. Its type is `int` for integers on both sides, `flt` when a side is a float
/// (for `+ - * /`), text for two texts joined by `+`, and `bool` for comparisons.
pub proof fn lemma_binary_code(s: CompilerV, l: NodeV, r: NodeV, op: TokenKind)
    requires
        sc_compile(s, NodeV::BinaryOp(Box::new(l), Box::new(r), op)) is Done,
    ensures
        ({
            let c1 = sc_compile(s, l);
            let c2 = sc_compile(c1->Done_0, r);
            let lt = c1->Done_1;
            let rt = c2->Done_1;
            let out = c2->Done_0.out;
            let f = sc_compile(s, NodeV::BinaryOp(Box::new(l), Box::new(r), op));
            let code = f->Done_0.out;
            let t = f->Done_1;
            let arith = op == TokenKind::PLUS || op == TokenKind::MINUS || op == TokenKind::TIMES
                || op == TokenKind::DIVIDE;
            &&& c1 is Done
            &&& c2 is Done
            &&& extends(s.out, c1->Done_0.out)
            &&& extends(c1->Done_0.out, out)
            &&& op == TokenKind::PLUS ==> code == out.push(InstrV::Add)
            &&& op == TokenKind::MINUS ==> code == out.push(InstrV::Sub)
            &&& op == TokenKind::TIMES ==> code == out.push(InstrV::Mul)
            &&& op == TokenKind::DIVIDE ==> code == out.push(InstrV::Div)
            &&& op == TokenKind::MODULO ==> code == out.push(InstrV::Modulo)
            &&& op == TokenKind::GREATER ==> code == out.push(InstrV::GreaterThan)
            &&& op == TokenKind::LESS ==> code == out.push(InstrV::LessThan)
            &&& op == TokenKind::EQUAL ==> code == out.push(InstrV::Equal)
            &&& (arith || op == TokenKind::MODULO) && lt == ComptimeValueType::Int && rt
                == ComptimeValueType::Int ==> t == ComptimeValueType::Int
            &&& arith && (lt == ComptimeValueType::Float || rt == ComptimeValueType::Float) ==> t
                == ComptimeValueType::Float
            &&& op == TokenKind::PLUS && lt == ComptimeValueType::StringValue ==> t
                == ComptimeValueType::StringValue
            &&& (op == TokenKind::GREATER || op == TokenKind::LESS || op == TokenKind::EQUAL) ==> t
                == ComptimeValueType::Bool
        }),
{
    lemma_compile_grows(s, l);
    let s1 = sc_compile(s, l)->Done_0;
    lemma_compile_grows(s1, r);
}

/// What a macro's argument compiles to while the macro is out of the registry.
pub open spec fn macro_arg_out(s: CompilerV, a: NodeV, name: Seq<char>) -> Seq<InstrV> {
    sc_compile(without_macro(s, name), a)->Done_0.out
}

pub open spec fn macro_arg_type(s: CompilerV, a: NodeV, name: Seq<char>) -> ComptimeValueType {
    sc_compile(without_macro(s, name), a)->Done_1
}

/// The type and the code of a one-argument macro call.
pub open spec fn macro_result(s: CompilerV, a: NodeV, name: Seq<char>, rt: Option<ComptimeValueType>) -> (ComptimeValueType, Seq<InstrV>) {
    let f = sc_compile(s, NodeV::FunctionCall(seq![a], name, CallType::Macro, rt));
    (f->Done_1, f->Done_0.out)
}

/// The types a print can show: integers, floats and texts.
pub open spec fn printable_type(t: ComptimeValueType) -> bool {
    t == ComptimeValueType::Int || t == ComptimeValueType::Float || t == ComptimeValueType::StringValue
}

/// The built-in macros called with one argument `a`: `readInput!` prints `a` (which must
/// be printable) without a line break, then reads a line, and its value is a text;
/// `processExit!` takes an integer and exits with it; `writeLn!` and `write!` print `a`,
/// with and without a line break, and have no value. The macro stays registered once the
/// call has compiled.
pub proof fn lemma_macro_calls(s: CompilerV, a: NodeV, name: Seq<char>, rt: Option<ComptimeValueType>)
    requires
        sc_compile(s, NodeV::FunctionCall(seq![a], name, CallType::Macro, rt)) is Done,
    ensures
        sc_compile(without_macro(s, name), a) is Done,
        sc_compile(s, NodeV::FunctionCall(seq![a], name, CallType::Macro, rt))->Done_0.macros == s.macros,
        assoc_get(s.macros, name) == Some(MacroKind::ReadInput) ==> macro_result(s, a, name, rt)
            == (ComptimeValueType::StringValue, macro_arg_out(s, a, name).push(InstrV::WriteLastOnStack).push(
            InstrV::ReadInput,
        )) && printable_type(macro_arg_type(s, a, name)),
        assoc_get(s.macros, name) == Some(MacroKind::ProcessExit) ==> macro_result(s, a, name, rt)
            == (ComptimeValueType::Void, macro_arg_out(s, a, name).push(InstrV::ProcessExit))
            && macro_arg_type(s, a, name) == ComptimeValueType::Int,
        assoc_get(s.macros, name) == Some(MacroKind::WriteLn) ==> macro_result(s, a, name, rt)
            == (ComptimeValueType::Void, macro_arg_out(s, a, name).push(InstrV::WriteLnLastOnStack))
            && printable_type(macro_arg_type(s, a, name)),
        assoc_get(s.macros, name) == Some(MacroKind::Write) ==> macro_result(s, a, name, rt)
            == (ComptimeValueType::Void, macro_arg_out(s, a, name).push(InstrV::WriteLastOnStack))
            && printable_type(macro_arg_type(s, a, name)),
{
    let tm = without_macro(s, name);
    let args = seq![a];
    assert(args[0] == a);
    assert(args.drop_first() =~= Seq::<NodeV>::empty());
    assert(sc_print_args(tm, args, InstrV::WriteLnLastOnStack) is Done ==> sc_compile(tm, args[0]) is Done);
    assert(sc_print_args(tm, args, InstrV::WriteLastOnStack) is Done ==> sc_compile(tm, args[0]) is Done);
    if let Outcome::Done(s1, t) = sc_compile(tm, a) {
        assert(sc_print_args(emit(s1, InstrV::WriteLnLastOnStack), args.drop_first(), InstrV::WriteLnLastOnStack)
            == Outcome::<()>::Done(emit(s1, InstrV::WriteLnLastOnStack), ()));
        assert(sc_print_args(emit(s1, InstrV::WriteLastOnStack), args.drop_first(), InstrV::WriteLastOnStack)
            == Outcome::<()>::Done(emit(s1, InstrV::WriteLastOnStack), ()));
    }
}


/// Variables: `var x = e` compiles to the code of `e` and a store into `x`'s own name in
/// the code, `x` joined by `_` to the function it belongs to, after which `x` denotes a
/// variable of `e`'s type with that name, constant exactly when declared `const`; reading
/// a variable in scope compiles to a load of its name in the code and has its type;
/// `x = e` compiles to the code of `e` and a store into `x`'s name.
pub proof fn lemma_variable_code(
    s: CompilerV,
    name: Seq<char>,
    e: NodeV,
    is_const: bool,
    is_pub: bool,
)
    ensures
        ({
            let d = sc_compile(s, NodeV::VariableDefine(name, None, Some(Box::new(e)), is_const, is_pub));
            let c = sc_compile(s, e);
            let tag = name + "_"@ + s.current_fn;
            d is Done ==> {
                &&& c is Done
                &&& d->Done_0.out == c->Done_0.out.push(InstrV::SaveVar(tag))
                &&& ctx_get_variable(d->Done_0.ctx, name) == Some(
                    VarV { value_type: c->Done_1, tag, is_const },
                )
            }
        }),
        ({
            let a = sc_compile(s, NodeV::VariableAccess(name));
            ctx_get_variable(s.ctx, name) matches Some(v) ==> a == Outcome::Done(
                CompilerV { out: s.out.push(InstrV::LoadVar(v.tag)), ..s },
                v.value_type,
            )
        }),
        ({
            let w = sc_compile(s, NodeV::VariableAssign(name, Box::new(e)));
            let c = sc_compile(s, e);
            ctx_get_variable(s.ctx, name) matches Some(v) ==> (w is Done ==> c is Done && w->Done_0.out
                == c->Done_0.out.push(InstrV::SaveVar(v.tag)) && c->Done_1 == v.value_type)
        }),
{
    if let Outcome::Done(s1, t) = sc_compile(s, e) {
        if s1.ctx.scopes.len() > 0 {
            let tag = name + "_"@ + s.current_fn;
            let v = VarV { value_type: t, tag, is_const };
            lemma_compile_grows(s, e);
            if let (c2, Ok(_)) = ctx_add_variable(s1.ctx, name, v) {
                lemma_get_after_add(s1.ctx, name, v);
            }
        }
    }
}

} // verus!
