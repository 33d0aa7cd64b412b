//! What compiling a syntax tree does, as a function of the tree and the compiler's state.
//!
//! Each function gives the outcome of one step: the new state and a result, the error and
//! the state reached when it was found, or `Abort` where compiling stops without an answer
//! (a construct the compiler does not implement, or a broken internal assumption).
use vstd::prelude::*;
use crate::assoc::{assoc_get, assoc_put, find_last};
use crate::ast::NodeV;
use crate::context::{
    ctx_add_function, ctx_add_variable, ctx_enter_function_scope, ctx_enter_scope,
    ctx_exit_function_scope, ctx_exit_scope, ctx_get_fn, ctx_get_variable, spec_get_type, CtxV, FnV,
    VarV,
};
use crate::errors::compiler_errors::CErr;
use crate::instructions::{InstrV, NumberConstV};
use crate::linker::{SymbolType, SymbolV};
use crate::macros::{macro_type, MacroKind};
use crate::tokens::TokenKind;
use crate::types::ComptimeValueType;

verus! {

/// The compiler's state.
pub struct CompilerV {
    pub ctx: CtxV,
    pub out: Seq<InstrV>,
    pub macros: Seq<(Seq<char>, MacroKind)>,
    pub current_fn: Seq<char>,
    pub symbols: Seq<(Seq<char>, SymbolV)>,
    pub function_types: Seq<(Seq<char>, ComptimeValueType)>,
    pub variables_type: Seq<(Seq<char>, ComptimeValueType)>,
    pub imports: Seq<Seq<char>>,
    pub calls: Seq<(Seq<char>, Seq<usize>)>,
}

pub enum Outcome<T> {
    Done(CompilerV, T),
    Fail(CompilerV, CErr),
    Abort,
}

pub open spec fn emit(s: CompilerV, i: InstrV) -> CompilerV {
    CompilerV { out: s.out.push(i), ..s }
}

pub open spec fn with_ctx(s: CompilerV, c: CtxV) -> CompilerV {
    CompilerV { ctx: c, ..s }
}

/// The name a variable has in the generated code: its own name and its owner's.
pub open spec fn tag_of(name: Seq<char>, owner: Seq<char>) -> Seq<char> {
    name + "_"@ + owner
}

/// The type of an arithmetic result on numbers: integer when both sides are.
pub open spec fn numeric(l: ComptimeValueType, r: ComptimeValueType) -> Option<ComptimeValueType> {
    match (l, r) {
        (ComptimeValueType::Int, ComptimeValueType::Int) => Some(ComptimeValueType::Int),
        (ComptimeValueType::Float, ComptimeValueType::Float) => Some(ComptimeValueType::Float),
        (ComptimeValueType::Int, ComptimeValueType::Float) => Some(ComptimeValueType::Float),
        (ComptimeValueType::Float, ComptimeValueType::Int) => Some(ComptimeValueType::Float),
        _ => None,
    }
}

/// What the print macros accept.
pub open spec fn printable(t: ComptimeValueType) -> bool {
    t is Int || t is Float || t is StringValue
}

pub open spec fn op_text(op: TokenKind) -> Seq<char> {
    match op {
        TokenKind::PLUS => "+"@,
        TokenKind::MINUS => "-"@,
        TokenKind::TIMES => "*"@,
        TokenKind::DIVIDE => "/"@,
        TokenKind::MODULO => "%"@,
        TokenKind::GREATER => ">"@,
        TokenKind::LESS => "<"@,
        _ => "=="@,
    }
}

pub open spec fn op_instr(op: TokenKind) -> InstrV {
    match op {
        TokenKind::PLUS => InstrV::Add,
        TokenKind::MINUS => InstrV::Sub,
        TokenKind::TIMES => InstrV::Mul,
        TokenKind::DIVIDE => InstrV::Div,
        TokenKind::MODULO => InstrV::Modulo,
        TokenKind::GREATER => InstrV::GreaterThan,
        TokenKind::LESS => InstrV::LessThan,
        _ => InstrV::Equal,
    }
}

pub open spec fn is_binary_op(op: TokenKind) -> bool {
    op == TokenKind::PLUS || op == TokenKind::MINUS || op == TokenKind::TIMES || op
        == TokenKind::DIVIDE || op == TokenKind::MODULO || op == TokenKind::GREATER || op
        == TokenKind::LESS || op == TokenKind::EQUAL
}

/// The type of `l op r`, and the error for operands that do not go together. Errors name
/// the operands as the emitted code meets them: the right one first, except for `==`.
pub open spec fn binop_type(op: TokenKind, l: ComptimeValueType, r: ComptimeValueType) -> Result<ComptimeValueType, CErr> {
    let bad = Err(CErr::InvalidBinaryOp(op_text(op), r, l));
    if op == TokenKind::PLUS {
        if l is StringValue && r is StringValue {
            Ok(ComptimeValueType::StringValue)
        } else {
            match numeric(l, r) {
                Some(t) => Ok(t),
                None => bad,
            }
        }
    } else if op == TokenKind::MINUS || op == TokenKind::TIMES || op == TokenKind::DIVIDE {
        match numeric(l, r) {
            Some(t) => Ok(t),
            None => bad,
        }
    } else if op == TokenKind::MODULO {
        if l is Int && r is Int {
            Ok(ComptimeValueType::Int)
        } else {
            bad
        }
    } else if op == TokenKind::GREATER || op == TokenKind::LESS {
        if numeric(l, r) is Some {
            Ok(ComptimeValueType::Bool)
        } else {
            bad
        }
    } else if l == r {
        Ok(ComptimeValueType::Bool)
    } else {
        Err(CErr::InvalidBinaryOp("=="@, l, r))
    }
}

/// The instruction that puts a variable's default value on the stack.
pub open spec fn default_value(t: ComptimeValueType) -> Option<InstrV> {
    match t {
        ComptimeValueType::StringValue => Some(InstrV::PushString(seq![])),
        ComptimeValueType::Int => Some(InstrV::PushNumber(NumberConstV::Bits(0))),
        ComptimeValueType::Float => Some(InstrV::PushNumber(NumberConstV::Bits(0))),
        ComptimeValueType::Bool => Some(InstrV::PushBool(false)),
        _ => None,
    }
}

/// The type a definition gives its variable, from the type written and the type of the
/// value; a definition without a value first gets the default value of its type.
pub open spec fn define_type(
    s: CompilerV,
    name: Seq<char>,
    written: Option<Seq<char>>,
    inferred: Option<ComptimeValueType>,
) -> Outcome<ComptimeValueType> {
    let declared = match written {
        Some(t) => match spec_get_type(t) {
            Ok(d) => Ok(Some(d)),
            Err(e) => Err(e),
        },
        None => Ok(None),
    };
    match declared {
        Err(e) => Outcome::Fail(s, e),
        Ok(declared) => match (declared, inferred) {
            (Some(d), Some(i)) => if d == i {
                Outcome::Done(s, d)
            } else {
                Outcome::Fail(s, CErr::TypeMismatch(d, i))
            },
            (Some(d), None) => match default_value(d) {
                Some(i) => Outcome::Done(emit(s, i), d),
                None => Outcome::Abort,
            },
            (None, Some(i)) => Outcome::Done(s, i),
            (None, None) => Outcome::Fail(s, CErr::CannotInferType(name)),
        },
    }
}

/// Declares the defined variable and stores the value on the stack into it.
pub open spec fn define_finish(s: CompilerV, name: Seq<char>, t: ComptimeValueType, is_const: bool) -> Outcome<ComptimeValueType> {
    let tag = tag_of(name, s.current_fn);
    if s.ctx.scopes.len() == 0 {
        Outcome::Abort
    } else {
        match ctx_add_variable(s.ctx, name, VarV { value_type: t, tag, is_const }) {
            (c, Ok(_)) => Outcome::Done(emit(with_ctx(s, c), InstrV::SaveVar(tag)), ComptimeValueType::Void),
            (_, Err(e)) => Outcome::Fail(s, e),
        }
    }
}

/// What a name denotes when it is read: a variable in scope first, then a module symbol.
pub open spec fn access(s: CompilerV, name: Seq<char>) -> Outcome<ComptimeValueType> {
    match ctx_get_variable(s.ctx, name) {
        Some(v) => Outcome::Done(emit(s, InstrV::LoadVar(v.tag)), v.value_type),
        None => match assoc_get(s.symbols, name) {
            Some(sym) => match sym.value_type {
                Some(t) => Outcome::Done(emit(s, InstrV::LoadVar(sym.tag)), t),
                None => Outcome::Fail(s, CErr::CannotInferType(name)),
            },
            None => Outcome::Fail(s, CErr::UndefinedVariable(name)),
        },
    }
}

/// What an assignment target is: whether it is constant, its type and its tag.
pub open spec fn assign_target(s: CompilerV, name: Seq<char>) -> Option<Result<(bool, ComptimeValueType, Seq<char>), CErr>> {
    match ctx_get_variable(s.ctx, name) {
        Some(v) => Some(Ok((v.is_const, v.value_type, v.tag))),
        None => match assoc_get(s.symbols, name) {
            Some(sym) => match sym.value_type {
                Some(t) => Some(Ok((sym.is_constant, t, sym.tag))),
                None => None,
            },
            None => Some(Err(CErr::UndefinedVariable(name))),
        },
    }
}

/// Records that the instruction at `at` calls `name`.
pub open spec fn record_call(calls: Seq<(Seq<char>, Seq<usize>)>, name: Seq<char>, at: usize) -> Seq<(Seq<char>, Seq<usize>)> {
    let before = match assoc_get(calls, name) {
        Some(v) => v,
        None => seq![],
    };
    assoc_put(calls, name, before.push(at))
}

/// After the arguments: the return address, the call, and the callee's result type.
pub open spec fn call_finish(s: CompilerV, name: Seq<char>) -> Outcome<ComptimeValueType> {
    if s.out.len() + 2 > usize::MAX {
        Outcome::Abort
    } else {
        let s1 = emit(s, InstrV::PushJmpAdress((s.out.len() + 2) as usize));
        let s2 = emit(s1, InstrV::Call(name));
        let s3 = CompilerV { calls: record_call(s2.calls, name, (s2.out.len() - 1) as usize), ..s2 };
        match ctx_get_fn(s3.ctx, name) {
            Ok(f) => Outcome::Done(s3, f.return_type),
            Err(e) => Outcome::Fail(s3, e),
        }
    }
}

/// The instructions that forget the variables of a scope when it is closed.
pub open spec fn drops(scope: Seq<(Seq<char>, VarV)>) -> Seq<InstrV> {
    scope.map_values(|e: (Seq<char>, VarV)| InstrV::Drop(e.0))
}

/// The state while a macro call is compiled: the macro is taken out of the registry, so
/// the call's own arguments cannot use it. It is put back once the call has compiled; a
/// call that fails leaves it out.
pub open spec fn without_macro(s: CompilerV, name: Seq<char>) -> CompilerV {
    CompilerV { macros: s.macros.remove(find_last(s.macros, name)), ..s }
}

/// Compiles one node. Prefix expressions, arrays and structures are not implemented and
/// abort; so does a whole program, which `sc_program` compiles (nested inside statements it
/// would compile the function bodies again from within one of them).
pub open spec fn sc_compile(s: CompilerV, n: NodeV) -> Outcome<ComptimeValueType>
    decreases n,
{
    match n {
        NodeV::Number(x) => Outcome::Done(
            emit(s, InstrV::PushNumber(NumberConstV::Int(x))),
            ComptimeValueType::Int,
        ),
        NodeV::Float(lit) => Outcome::Done(
            emit(s, InstrV::PushNumber(NumberConstV::Literal(lit))),
            ComptimeValueType::Float,
        ),
        NodeV::Str(v) => Outcome::Done(emit(s, InstrV::PushString(v)), ComptimeValueType::StringValue),
        NodeV::Bool(v) => Outcome::Done(
            emit(s, InstrV::PushBool(v == TokenKind::TRUE)),
            ComptimeValueType::Bool,
        ),
        NodeV::BinaryOp(l, r, op) => if !is_binary_op(op) {
            Outcome::Abort
        } else {
            match sc_compile(s, *l) {
                Outcome::Done(s1, lt) => match sc_compile(s1, *r) {
                    Outcome::Done(s2, rt) => match binop_type(op, lt, rt) {
                        Ok(t) => Outcome::Done(emit(s2, op_instr(op)), t),
                        Err(e) => Outcome::Fail(s2, e),
                    },
                    other => other,
                },
                other => other,
            }
        },
        NodeV::VariableAccess(name) => access(s, name),
        NodeV::VariableDefine(name, written, value, is_const, _) => if is_const && value is None {
            Outcome::Fail(s, CErr::ConstantWithoutValue(name))
        } else {
            let inferred = match value {
                Some(v) => match sc_compile(s, *v) {
                    Outcome::Done(s1, t) => Outcome::Done(s1, Some(t)),
                    Outcome::Fail(s1, e) => Outcome::Fail(s1, e),
                    Outcome::Abort => Outcome::Abort,
                },
                None => Outcome::Done(s, None),
            };
            match inferred {
                Outcome::Done(s1, i) => match define_type(s1, name, written, i) {
                    Outcome::Done(s2, t) => define_finish(s2, name, t, is_const),
                    other => other,
                },
                Outcome::Fail(s1, e) => Outcome::Fail(s1, e),
                Outcome::Abort => Outcome::Abort,
            }
        },
        NodeV::VariableAssign(name, value) => match assign_target(s, name) {
            None => Outcome::Abort,
            Some(Err(e)) => Outcome::Fail(s, e),
            Some(Ok((is_const, expected, tag))) => if is_const {
                Outcome::Fail(s, CErr::ConstReassignment(name))
            } else {
                match sc_compile(s, *value) {
                    Outcome::Done(s1, t) => if t != expected {
                        Outcome::Fail(s1, CErr::TypeMismatch(expected, t))
                    } else {
                        Outcome::Done(emit(s1, InstrV::SaveVar(tag)), t)
                    },
                    other => other,
                }
            },
        },
        NodeV::FunctionCall(args, name, call_type, _) => match call_type {
            crate::ast::CallType::Macro => match assoc_get(s.macros, name) {
                None => Outcome::Fail(s, CErr::UnknownMacro(name)),
                Some(k) => {
                    let t = without_macro(s, name);
                    let inner = match k {
                        MacroKind::WriteLn => match sc_print_args(t, args, InstrV::WriteLnLastOnStack) {
                            Outcome::Done(s1, _) => Outcome::Done(s1, ComptimeValueType::Void),
                            Outcome::Fail(s1, e) => Outcome::Fail(s1, e),
                            Outcome::Abort => Outcome::Abort,
                        },
                        MacroKind::Write => match sc_print_args(t, args, InstrV::WriteLastOnStack) {
                            Outcome::Done(s1, _) => Outcome::Done(s1, ComptimeValueType::Void),
                            Outcome::Fail(s1, e) => Outcome::Fail(s1, e),
                            Outcome::Abort => Outcome::Abort,
                        },
                        _ => if args.len() != 1 {
                            Outcome::Fail(t, CErr::WrongMacroArgCount(1, args.len() as usize))
                        } else {
                            match sc_compile(t, args[0]) {
                                Outcome::Done(s1, a) => if k is ProcessExit {
                                    if a != ComptimeValueType::Int {
                                        Outcome::Fail(s1, CErr::TypeMismatch(ComptimeValueType::Int, a))
                                    } else {
                                        Outcome::Done(emit(s1, InstrV::ProcessExit), ComptimeValueType::Void)
                                    }
                                } else if !printable(a) {
                                    Outcome::Fail(s1, CErr::ExpectedPrintable(a))
                                } else {
                                    Outcome::Done(
                                        emit(emit(s1, InstrV::WriteLastOnStack), InstrV::ReadInput),
                                        macro_type(k),
                                    )
                                },
                                other => other,
                            }
                        },
                    };
                    match inner {
                        Outcome::Done(s1, r) => Outcome::Done(CompilerV { macros: s.macros, ..s1 }, r),
                        other => other,
                    }
                },
            },
            crate::ast::CallType::Fn => match ctx_get_fn(s.ctx, name) {
                Err(e) => Outcome::Fail(s, e),
                Ok(f) => if args.len() != f.args.len() {
                    Outcome::Fail(
                        s,
                        CErr::UnexpectedFunctionArguments(
                            name,
                            f.args.len() as usize,
                            args.len() as usize,
                        ),
                    )
                } else {
                    match sc_call_args(s, args, f.args, name) {
                        Outcome::Done(s1, _) => call_finish(s1, name),
                        Outcome::Fail(s1, e) => Outcome::Fail(s1, e),
                        Outcome::Abort => Outcome::Abort,
                    }
                },
            },
        },
        NodeV::Import(_) => Outcome::Done(s, ComptimeValueType::Void),
        NodeV::Return(value) => if s.ctx.function_depth > 0 {
            match value {
                Some(v) => match sc_compile(s, *v) {
                    Outcome::Done(s1, t) => if t != s1.ctx.return_type {
                        Outcome::Abort
                    } else {
                        Outcome::Done(emit(s1, InstrV::JumpOnLastOnStack), ComptimeValueType::Void)
                    },
                    other => other,
                },
                None => if s.ctx.return_type != ComptimeValueType::Void {
                    Outcome::Abort
                } else {
                    Outcome::Done(emit(s, InstrV::JumpOnLastOnStack), ComptimeValueType::Void)
                },
            }
        } else {
            Outcome::Fail(s, CErr::CannotReturnOutisdeOfFunction)
        },
        NodeV::Loop(body) => match sc_seq(s, body) {
            Outcome::Done(s1, _) => Outcome::Done(
                emit(s1, InstrV::Jump(s.out.len() as usize)),
                ComptimeValueType::Void,
            ),
            Outcome::Fail(s1, e) => Outcome::Fail(s1, e),
            Outcome::Abort => Outcome::Abort,
        },
        NodeV::If(cond, then_branch, else_branch) => match sc_compile(s, *cond) {
            Outcome::Done(s1, t) => if t != ComptimeValueType::Bool {
                Outcome::Fail(s1, CErr::TypeMismatch(ComptimeValueType::Bool, t))
            } else {
                let jf = s1.out.len() as int;
                let s2 = emit(s1, InstrV::JumpIfFalse(0));
                match sc_seq(with_ctx(s2, ctx_enter_scope(s2.ctx)), then_branch) {
                    Outcome::Done(s3, _) => if s3.ctx.scopes.len() == 0 {
                        Outcome::Abort
                    } else {
                        let s4 = with_ctx(s3, ctx_exit_scope(s3.ctx));
                        let jend = s4.out.len() as int;
                        let s5 = emit(s4, InstrV::Jump(0));
                        let s6 = CompilerV {
                            out: s5.out.update(jf, InstrV::JumpIfFalse(s5.out.len() as usize)),
                            ..s5
                        };
                        let s7 = with_ctx(s6, ctx_enter_scope(s6.ctx));
                        let after_else = match else_branch {
                            Some(e) => sc_seq(s7, e),
                            None => Outcome::Done(s7, ()),
                        };
                        match after_else {
                            Outcome::Done(s8, _) => if s8.ctx.scopes.len() == 0 {
                                Outcome::Abort
                            } else {
                                let s9 = with_ctx(s8, ctx_exit_scope(s8.ctx));
                                Outcome::Done(
                                    CompilerV {
                                        out: s9.out.update(jend, InstrV::Jump(s9.out.len() as usize)),
                                        ..s9
                                    },
                                    ComptimeValueType::Void,
                                )
                            },
                            Outcome::Fail(s8, e) => Outcome::Fail(s8, e),
                            Outcome::Abort => Outcome::Abort,
                        }
                    },
                    Outcome::Fail(s3, e) => Outcome::Fail(s3, e),
                    Outcome::Abort => Outcome::Abort,
                }
            },
            other => other,
        },
        NodeV::While(cond, body) => match sc_compile(s, *cond) {
            Outcome::Done(s1, t) => if t != ComptimeValueType::Bool {
                Outcome::Fail(s1, CErr::TypeMismatch(ComptimeValueType::Bool, t))
            } else {
                let jf = s1.out.len() as int;
                let s2 = emit(s1, InstrV::JumpIfFalse(0));
                let start = s2.out.len();
                match sc_seq(with_ctx(s2, ctx_enter_scope(s2.ctx)), body) {
                    Outcome::Done(s3, _) => if s3.ctx.scopes.len() == 0 {
                        Outcome::Abort
                    } else {
                        let s4 = CompilerV {
                            out: s3.out + drops(s3.ctx.scopes.last()),
                            ctx: ctx_exit_scope(s3.ctx),
                            ..s3
                        };
                        match sc_compile(s4, *cond) {
                            Outcome::Done(s5, _) => {
                                let s6 = emit(s5, InstrV::JumpIfTrue(start as usize));
                                Outcome::Done(
                                    CompilerV {
                                        out: s6.out.update(jf, InstrV::JumpIfFalse(s6.out.len() as usize)),
                                        ..s6
                                    },
                                    ComptimeValueType::Void,
                                )
                            },
                            other => other,
                        }
                    },
                    Outcome::Fail(s3, e) => Outcome::Fail(s3, e),
                    Outcome::Abort => Outcome::Abort,
                }
            },
            other => other,
        },
        NodeV::FunctionDefine(id, written, body, args) => match written {
            None => Outcome::Fail(s, CErr::NeedToHaveSpecifiedReturnType(id)),
            Some(t) => match spec_get_type(t) {
                Err(e) => Outcome::Fail(s, e),
                Ok(rt) => match ctx_add_function(s.ctx, id, FnV { args, return_type: rt, body }) {
                    (c, Ok(_)) => Outcome::Done(with_ctx(s, c), ComptimeValueType::Void),
                    (_, Err(e)) => Outcome::Fail(s, e),
                },
            },
        },
        _ => Outcome::Abort,
    }
}

/// Compiles nodes one after another; the first failure ends it.
pub open spec fn sc_seq(s: CompilerV, v: Seq<NodeV>) -> Outcome<()>
    decreases v,
{
    if v.len() == 0 {
        Outcome::Done(s, ())
    } else {
        match sc_compile(s, v[0]) {
            Outcome::Done(s1, _) => sc_seq(s1, v.drop_first()),
            Outcome::Fail(s1, e) => Outcome::Fail(s1, e),
            Outcome::Abort => Outcome::Abort,
        }
    }
}

/// Compiles the arguments of a call: each value is stored into the parameter's variable
/// and must have the parameter's type.
pub open spec fn sc_call_args(
    s: CompilerV,
    args: Seq<NodeV>,
    params: Seq<(Seq<char>, Seq<char>)>,
    fname: Seq<char>,
) -> Outcome<()>
    decreases args,
{
    if args.len() == 0 || params.len() == 0 {
        Outcome::Done(s, ())
    } else {
        match sc_compile(s, args[0]) {
            Outcome::Done(s1, t) => {
                let s2 = emit(s1, InstrV::SaveVar(tag_of(params[0].0, fname)));
                match spec_get_type(params[0].1) {
                    Err(e) => Outcome::Fail(s2, e),
                    Ok(pt) => if t != pt {
                        Outcome::Fail(s2, CErr::TypeMismatch(pt, t))
                    } else {
                        sc_call_args(s2, args.drop_first(), params.drop_first(), fname)
                    },
                }
            },
            Outcome::Fail(s1, e) => Outcome::Fail(s1, e),
            Outcome::Abort => Outcome::Abort,
        }
    }
}

/// Compiles the arguments of a print macro, each followed by the print instruction.
pub open spec fn sc_print_args(s: CompilerV, args: Seq<NodeV>, print: InstrV) -> Outcome<()>
    decreases args,
{
    if args.len() == 0 {
        Outcome::Done(s, ())
    } else {
        match sc_compile(s, args[0]) {
            Outcome::Done(s1, t) => if !printable(t) {
                Outcome::Fail(s1, CErr::ExpectedPrintable(t))
            } else {
                sc_print_args(emit(s1, print), args.drop_first(), print)
            },
            Outcome::Fail(s1, e) => Outcome::Fail(s1, e),
            Outcome::Abort => Outcome::Abort,
        }
    }
}


// ---------------------------------------------------------------------------
// Compiling only adds code
// ---------------------------------------------------------------------------

/// `b` is `a` with code added after it.
pub open spec fn extends(a: Seq<InstrV>, b: Seq<InstrV>) -> bool {
    &&& b.len() >= a.len()
    &&& forall|i: int| 0 <= i < a.len() ==> #[trigger] b[i] == a[i]
}

/// Compiling a node keeps the code before it as it was and adds its own after it.
pub proof fn lemma_compile_grows(s: CompilerV, n: NodeV)
    ensures
        sc_compile(s, n) matches Outcome::Done(s1, _) ==> extends(s.out, s1.out) && s1.macros
            == s.macros && s1.current_fn == s.current_fn,
    decreases n,
{
    match n {
        NodeV::BinaryOp(l, r, op) => {
            lemma_compile_grows(s, *l);
            if let Outcome::Done(s1, _) = sc_compile(s, *l) {
                lemma_compile_grows(s1, *r);
            }
        },
        NodeV::VariableDefine(name, written, value, is_const, _) => {
            if let Some(v) = value {
                lemma_compile_grows(s, *v);
            }
        },
        NodeV::VariableAssign(name, value) => {
            lemma_compile_grows(s, *value);
        },
        NodeV::FunctionCall(args, name, call_type, _) => {
            let t = without_macro(s, name);
            lemma_print_args_grows(t, args, InstrV::WriteLnLastOnStack);
            lemma_print_args_grows(t, args, InstrV::WriteLastOnStack);
            if args.len() > 0 {
                lemma_compile_grows(t, args[0]);
            }
            if let Ok(f) = ctx_get_fn(s.ctx, name) {
                lemma_call_args_grows(s, args, f.args, name);
            }
        },
        NodeV::Return(value) => {
            if let Some(v) = value {
                lemma_compile_grows(s, *v);
            }
        },
        NodeV::Loop(body) => {
            lemma_seq_grows(s, body);
        },
        NodeV::If(cond, then_branch, else_branch) => {
            lemma_compile_grows(s, *cond);
            if let Outcome::Done(s1, t) = sc_compile(s, *cond) {
                let s2 = emit(s1, InstrV::JumpIfFalse(0));
                let s2e = with_ctx(s2, ctx_enter_scope(s2.ctx));
                lemma_seq_grows(s2e, then_branch);
                if let Outcome::Done(s3, _) = sc_seq(s2e, then_branch) {
                    let s4 = with_ctx(s3, ctx_exit_scope(s3.ctx));
                    let s5 = emit(s4, InstrV::Jump(0));
                    let s6 = CompilerV {
                        out: s5.out.update(s1.out.len() as int, InstrV::JumpIfFalse(s5.out.len() as usize)),
                        ..s5
                    };
                    let s7 = with_ctx(s6, ctx_enter_scope(s6.ctx));
                    if let Some(e) = else_branch {
                        lemma_seq_grows(s7, e);
                    }
                }
            }
        },
        NodeV::While(cond, body) => {
            lemma_compile_grows(s, *cond);
            if let Outcome::Done(s1, t) = sc_compile(s, *cond) {
                let s2 = emit(s1, InstrV::JumpIfFalse(0));
                let s2e = with_ctx(s2, ctx_enter_scope(s2.ctx));
                lemma_seq_grows(s2e, body);
                if let Outcome::Done(s3, _) = sc_seq(s2e, body) {
                    if s3.ctx.scopes.len() > 0 {
                        let s4 = CompilerV {
                            out: s3.out + drops(s3.ctx.scopes.last()),
                            ctx: ctx_exit_scope(s3.ctx),
                            ..s3
                        };
                        lemma_compile_grows(s4, *cond);
                    }
                }
            }
        },
        _ => {},
    }
}

pub proof fn lemma_seq_grows(s: CompilerV, v: Seq<NodeV>)
    ensures
        sc_seq(s, v) matches Outcome::Done(s1, _) ==> extends(s.out, s1.out) && s1.macros
            == s.macros && s1.current_fn == s.current_fn,
    decreases v,
{
    if v.len() > 0 {
        lemma_compile_grows(s, v[0]);
        if let Outcome::Done(s1, _) = sc_compile(s, v[0]) {
            lemma_seq_grows(s1, v.drop_first());
        }
    }
}

pub proof fn lemma_call_args_grows(
    s: CompilerV,
    args: Seq<NodeV>,
    params: Seq<(Seq<char>, Seq<char>)>,
    fname: Seq<char>,
)
    ensures
        sc_call_args(s, args, params, fname) matches Outcome::Done(s1, _) ==> extends(s.out, s1.out) && s1.macros
            == s.macros && s1.current_fn == s.current_fn,
    decreases args,
{
    if args.len() > 0 && params.len() > 0 {
        lemma_compile_grows(s, args[0]);
        if let Outcome::Done(s1, t) = sc_compile(s, args[0]) {
            let s2 = emit(s1, InstrV::SaveVar(tag_of(params[0].0, fname)));
            lemma_call_args_grows(s2, args.drop_first(), params.drop_first(), fname);
        }
    }
}

pub proof fn lemma_print_args_grows(s: CompilerV, args: Seq<NodeV>, print: InstrV)
    ensures
        sc_print_args(s, args, print) matches Outcome::Done(s1, _) ==> extends(s.out, s1.out) && s1.macros
            == s.macros && s1.current_fn == s.current_fn,
    decreases args,
{
    if args.len() > 0 {
        lemma_compile_grows(s, args[0]);
        if let Outcome::Done(s1, t) = sc_compile(s, args[0]) {
            lemma_print_args_grows(emit(s1, print), args.drop_first(), print);
        }
    }
}


// ---------------------------------------------------------------------------
// Function bodies
// ---------------------------------------------------------------------------

/// Declares a function's parameters as variables of its scope.
pub open spec fn bind_params(s: CompilerV, params: Seq<(Seq<char>, Seq<char>)>, fname: Seq<char>) -> Outcome<()>
    decreases params.len(),
{
    if params.len() == 0 {
        Outcome::Done(s, ())
    } else {
        match spec_get_type(params[0].1) {
            Err(e) => Outcome::Fail(s, e),
            Ok(t) => if s.ctx.scopes.len() == 0 {
                Outcome::Abort
            } else {
                let v = VarV { value_type: t, tag: tag_of(params[0].0, fname), is_const: false };
                match ctx_add_variable(s.ctx, params[0].0, v) {
                    (c, Ok(_)) => bind_params(with_ctx(s, c), params.drop_first(), fname),
                    (_, Err(e)) => Outcome::Fail(s, e),
                }
            },
        }
    }
}

/// Compiles the bodies of `fns` one after another, each in a scope of its own where only
/// its parameters are visible, each ending with a return to the caller; `starts` gathers
/// where each body begins.
pub open spec fn sc_bodies(
    s: CompilerV,
    fns: Seq<(Seq<char>, FnV)>,
    starts: Seq<(Seq<char>, usize)>,
) -> Outcome<Seq<(Seq<char>, usize)>>
    decreases fns.len(),
{
    if fns.len() == 0 {
        Outcome::Done(s, starts)
    } else if s.ctx.function_depth == usize::MAX {
        Outcome::Abort
    } else {
        let name = fns[0].0;
        let f = fns[0].1;
        let start = s.out.len() as usize;
        let depth = s.ctx.function_depth;
        let c1 = ctx_enter_function_scope(s.ctx);
        let s1 = with_ctx(s, CtxV { function_depth: (depth + 1) as usize, ..c1 });
        match bind_params(s1, f.args, name) {
            Outcome::Done(s2, _) => {
                let s3 = with_ctx(s2, CtxV { return_type: f.return_type, ..s2.ctx });
                match sc_seq(s3, f.body) {
                    Outcome::Done(s4, _) => {
                        let s5 = emit(s4, InstrV::JumpOnLastOnStack);
                        let c6 = ctx_exit_function_scope(s5.ctx);
                        let s6 = with_ctx(
                            s5,
                            CtxV { return_type: ComptimeValueType::Void, function_depth: depth, ..c6 },
                        );
                        sc_bodies(s6, fns.drop_first(), starts.push((name, start)))
                    },
                    Outcome::Fail(s4, e) => Outcome::Fail(s4, e),
                    Outcome::Abort => Outcome::Abort,
                }
            },
            Outcome::Fail(s2, e) => Outcome::Fail(s2, e),
            Outcome::Abort => Outcome::Abort,
        }
    }
}

/// `out` with a jump to `addr` at each of `sites`; `None` if a site lies outside the code.
pub open spec fn patch_sites(out: Seq<InstrV>, sites: Seq<usize>, addr: usize) -> Option<Seq<InstrV>>
    decreases sites.len(),
{
    if sites.len() == 0 {
        Some(out)
    } else if sites[0] >= out.len() {
        None
    } else {
        patch_sites(out.update(sites[0] as int, InstrV::Jump(addr)), sites.drop_first(), addr)
    }
}

/// `out` with every recorded call of each compiled function replaced by a jump to the
/// start of its body.
pub open spec fn patch_calls(
    out: Seq<InstrV>,
    starts: Seq<(Seq<char>, usize)>,
    calls: Seq<(Seq<char>, Seq<usize>)>,
) -> Option<Seq<InstrV>>
    decreases starts.len(),
{
    if starts.len() == 0 {
        Some(out)
    } else {
        let sites = match assoc_get(calls, starts[0].0) {
            Some(v) => v,
            None => seq![],
        };
        match patch_sites(out, sites, starts[0].1) {
            Some(o) => patch_calls(o, starts.drop_first(), calls),
            None => None,
        }
    }
}

/// Appends the bodies of all declared functions after the main code, behind a jump that
/// skips them, and links every call to its body.
pub open spec fn sc_add_functions(s: CompilerV) -> Outcome<()> {
    let s1 = emit(s, InstrV::Jump(0));
    let placeholder = s1.out.len() - 1;
    match sc_bodies(s1, s1.ctx.functions, seq![]) {
        Outcome::Done(s2, starts) => match patch_calls(s2.out, starts, s2.calls) {
            Some(o) => Outcome::Done(
                CompilerV { out: o.update(placeholder, InstrV::Jump(o.len() as usize)), ..s2 },
                (),
            ),
            None => Outcome::Abort,
        },
        Outcome::Fail(s2, e) => Outcome::Fail(s2, e),
        Outcome::Abort => Outcome::Abort,
    }
}

/// Compiles a whole program: its statements, then the functions it declared.
pub open spec fn sc_program(s: CompilerV, nodes: Seq<NodeV>) -> Outcome<ComptimeValueType> {
    match sc_seq(s, nodes) {
        Outcome::Done(s1, _) => match sc_add_functions(s1) {
            Outcome::Done(s2, _) => Outcome::Done(s2, ComptimeValueType::Void),
            Outcome::Fail(s2, e) => Outcome::Fail(s2, e),
            Outcome::Abort => Outcome::Abort,
        },
        Outcome::Fail(s1, e) => Outcome::Fail(s1, e),
        Outcome::Abort => Outcome::Abort,
    }
}

pub proof fn lemma_bind_params_keeps_out(s: CompilerV, params: Seq<(Seq<char>, Seq<char>)>, fname: Seq<char>)
    ensures
        bind_params(s, params, fname) matches Outcome::Done(s1, _) ==> s1.out == s.out && s1.calls
            == s.calls,
    decreases params.len(),
{
    if params.len() > 0 {
        if let Ok(t) = spec_get_type(params[0].1) {
            if s.ctx.scopes.len() > 0 {
                let v = VarV { value_type: t, tag: tag_of(params[0].0, fname), is_const: false };
                if let (c, Ok(_)) = ctx_add_variable(s.ctx, params[0].0, v) {
                    lemma_bind_params_keeps_out(with_ctx(s, c), params.drop_first(), fname);
                }
            }
        }
    }
}

pub proof fn lemma_patch_sites_len(out: Seq<InstrV>, sites: Seq<usize>, addr: usize)
    ensures
        patch_sites(out, sites, addr) matches Some(o) ==> o.len() == out.len(),
    decreases sites.len(),
{
    if sites.len() > 0 && sites[0] < out.len() {
        lemma_patch_sites_len(out.update(sites[0] as int, InstrV::Jump(addr)), sites.drop_first(), addr);
    }
}

pub proof fn lemma_patch_calls_len(
    out: Seq<InstrV>,
    starts: Seq<(Seq<char>, usize)>,
    calls: Seq<(Seq<char>, Seq<usize>)>,
)
    ensures
        patch_calls(out, starts, calls) matches Some(o) ==> o.len() == out.len(),
    decreases starts.len(),
{
    if starts.len() > 0 {
        let sites = match assoc_get(calls, starts[0].0) {
            Some(v) => v,
            None => seq![],
        };
        lemma_patch_sites_len(out, sites, starts[0].1);
        if let Some(o) = patch_sites(out, sites, starts[0].1) {
            lemma_patch_calls_len(o, starts.drop_first(), calls);
        }
    }
}


// ---------------------------------------------------------------------------
// Types without code, and the symbols a module exports
// ---------------------------------------------------------------------------

/// The type of `l op r` as the type pass sees it: `==` is not among its operators, and
/// errors name the operands in source order.
pub open spec fn type_binop(op: TokenKind, l: ComptimeValueType, r: ComptimeValueType) -> Option<Result<ComptimeValueType, CErr>> {
    if !is_binary_op(op) || op == TokenKind::EQUAL {
        None
    } else {
        Some(
            match binop_type(op, l, r) {
                Ok(t) => Ok(t),
                Err(_) => Err(CErr::InvalidBinaryOp(op_text(op), l, r)),
            },
        )
    }
}

/// The type of a node's value, found without compiling it.
pub open spec fn sc_type(s: CompilerV, n: NodeV) -> Outcome<ComptimeValueType>
    decreases n,
{
    match n {
        NodeV::Number(_) => Outcome::Done(s, ComptimeValueType::Int),
        NodeV::Float(_) => Outcome::Done(s, ComptimeValueType::Float),
        NodeV::Str(_) => Outcome::Done(s, ComptimeValueType::StringValue),
        NodeV::Bool(_) => Outcome::Done(s, ComptimeValueType::Bool),
        NodeV::BinaryOp(l, r, op) => match sc_type(s, *l) {
            Outcome::Done(s1, lt) => match sc_type(s1, *r) {
                Outcome::Done(s2, rt) => match type_binop(op, lt, rt) {
                    Some(Ok(t)) => Outcome::Done(s2, t),
                    Some(Err(e)) => Outcome::Fail(s2, e),
                    None => Outcome::Abort,
                },
                other => other,
            },
            other => other,
        },
        NodeV::VariableDefine(name, written, value, _, _) => {
            let inferred = match value {
                Some(v) => match sc_type(s, *v) {
                    Outcome::Done(s1, t) => Outcome::Done(s1, Some(t)),
                    Outcome::Fail(s1, e) => Outcome::Fail(s1, e),
                    Outcome::Abort => Outcome::Abort,
                },
                None => Outcome::Done(s, None),
            };
            match inferred {
                Outcome::Done(s1, i) => define_type(s1, name, written, i),
                Outcome::Fail(s1, e) => Outcome::Fail(s1, e),
                Outcome::Abort => Outcome::Abort,
            }
        },
        NodeV::VariableAccess(name) => match assoc_get(s.variables_type, name) {
            Some(t) => Outcome::Done(s, t),
            None => match assoc_get(s.symbols, name) {
                Some(sym) => match sym.value_type {
                    Some(t) => Outcome::Done(s, t),
                    None => Outcome::Abort,
                },
                None => Outcome::Fail(s, CErr::UndefinedVariable(name)),
            },
        },
        NodeV::FunctionCall(_, name, call_type, _) => match call_type {
            crate::ast::CallType::Macro => match assoc_get(s.macros, name) {
                Some(k) => Outcome::Done(s, macro_type(k)),
                None => Outcome::Fail(s, CErr::UnknownMacro(name)),
            },
            crate::ast::CallType::Fn => match ctx_get_fn(s.ctx, name) {
                Ok(f) => Outcome::Done(s, f.return_type),
                Err(e) => Outcome::Fail(s, e),
            },
        },
        NodeV::Prefix(_, _) => Outcome::Abort,
        NodeV::Array(_) => Outcome::Abort,
        NodeV::StructDefine(_) => Outcome::Abort,
        _ => Outcome::Done(s, ComptimeValueType::Void),
    }
}

/// Records the symbols a tree defines at its top level.
pub open spec fn sc_lookup(s: CompilerV, n: NodeV) -> Outcome<()>
    decreases n, 1nat,
{
    match n {
        NodeV::Program(nodes) => sc_lookup_seq(s, nodes),
        NodeV::VariableDefine(name, _, _, is_const, _) => match sc_type(s, n) {
            Outcome::Done(s1, t) => {
                let sym = SymbolV {
                    value_type: Some(t),
                    symbol_type: SymbolType::Variable,
                    is_constant: is_const,
                    tag: tag_of(name, s1.current_fn),
                };
                Outcome::Done(CompilerV { symbols: assoc_put(s1.symbols, name, sym), ..s1 }, ())
            },
            Outcome::Fail(s1, e) => Outcome::Fail(s1, e),
            Outcome::Abort => Outcome::Abort,
        },
        NodeV::Prefix(_, _) => Outcome::Abort,
        _ => Outcome::Done(s, ()),
    }
}

pub open spec fn sc_lookup_seq(s: CompilerV, v: Seq<NodeV>) -> Outcome<()>
    decreases v, 0nat,
{
    if v.len() == 0 {
        Outcome::Done(s, ())
    } else {
        match sc_lookup(s, v[0]) {
            Outcome::Done(s1, _) => sc_lookup_seq(s1, v.drop_first()),
            Outcome::Fail(s1, e) => Outcome::Fail(s1, e),
            Outcome::Abort => Outcome::Abort,
        }
    }
}

/// Records the types of the variables a tree defines at its top level, and gives the
/// module symbols of those names their types.
pub open spec fn sc_check(s: CompilerV, n: NodeV) -> Outcome<()>
    decreases n, 1nat,
{
    match n {
        NodeV::Program(nodes) => sc_check_seq(s, nodes),
        NodeV::VariableDefine(name, _, _, _, _) => match sc_type(s, n) {
            Outcome::Done(s1, t) => {
                let symbols = match assoc_get(s1.symbols, name) {
                    Some(sym) => assoc_put(s1.symbols, name, SymbolV { value_type: Some(t), ..sym }),
                    None => s1.symbols,
                };
                Outcome::Done(
                    CompilerV {
                        variables_type: assoc_put(s1.variables_type, name, t),
                        symbols,
                        ..s1
                    },
                    (),
                )
            },
            Outcome::Fail(s1, e) => Outcome::Fail(s1, e),
            Outcome::Abort => Outcome::Abort,
        },
        NodeV::Array(_) => Outcome::Abort,
        NodeV::StructDefine(_) => Outcome::Abort,
        _ => Outcome::Done(s, ()),
    }
}

pub open spec fn sc_check_seq(s: CompilerV, v: Seq<NodeV>) -> Outcome<()>
    decreases v, 0nat,
{
    if v.len() == 0 {
        Outcome::Done(s, ())
    } else {
        match sc_check(s, v[0]) {
            Outcome::Done(s1, _) => sc_check_seq(s1, v.drop_first()),
            Outcome::Fail(s1, e) => Outcome::Fail(s1, e),
            Outcome::Abort => Outcome::Abort,
        }
    }
}

} // verus!
