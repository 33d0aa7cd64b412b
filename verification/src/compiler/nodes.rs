//! Compiling each kind of node.
use vstd::prelude::*;
use crate::assoc::{assoc_get, find_key, keyed, lemma_find_last_range};
use crate::ast::{
    copy_args, copy_nodes, lemma_nodes_view_index, lemma_nodes_view_len, node_view, nodes_view,
    CallType,
    FunctionArgs, Node,
};
use crate::context::{args_view, CompileTimeFunctionForCheck, ComptimeVariable};
use crate::errors::compiler_errors::CompileError;
use crate::instructions::{Instructions, NumberConst};
use crate::macros::MacroKind;
use crate::text::push_str;
use crate::tokens::TokenKind;
use crate::types::ComptimeValueType;
use super::model::{
    access, assign_target, binop_type, lemma_compile_grows, lemma_print_args_grows, lemma_seq_grows, call_finish, is_binary_op, numeric, op_instr, op_text,
    printable, record_call, sc_call_args, sc_compile, sc_print_args, sc_seq, tag_of, without_macro, CompilerV,
    Outcome,
};
use super::{ran, Compiler};

verus! {

fn numeric_type(l: &ComptimeValueType, r: &ComptimeValueType) -> (t: Option<ComptimeValueType>)
    ensures
        t == numeric(*l, *r),
{
    match (l, r) {
        (ComptimeValueType::Int, ComptimeValueType::Int) => Some(ComptimeValueType::Int),
        (ComptimeValueType::Float, ComptimeValueType::Float) => Some(ComptimeValueType::Float),
        (ComptimeValueType::Int, ComptimeValueType::Float) => Some(ComptimeValueType::Float),
        (ComptimeValueType::Float, ComptimeValueType::Int) => Some(ComptimeValueType::Float),
        _ => None,
    }
}

fn is_printable(t: &ComptimeValueType) -> (r: bool)
    ensures
        r == printable(*t),
{
    match t {
        ComptimeValueType::Int => true,
        ComptimeValueType::Float => true,
        ComptimeValueType::StringValue => true,
        _ => false,
    }
}

pub(crate) fn op_str(op: TokenKind) -> (s: &'static str)
    ensures
        s@ == op_text(op),
{
    match op {
        TokenKind::PLUS => "+",
        TokenKind::MINUS => "-",
        TokenKind::TIMES => "*",
        TokenKind::DIVIDE => "/",
        TokenKind::MODULO => "%",
        TokenKind::GREATER => ">",
        TokenKind::LESS => "<",
        _ => "==",
    }
}

fn op_instruction(op: TokenKind) -> (i: Instructions)
    ensures
        i@ == op_instr(op),
{
    match op {
        TokenKind::PLUS => Instructions::Add,
        TokenKind::MINUS => Instructions::Sub,
        TokenKind::TIMES => Instructions::Mul,
        TokenKind::DIVIDE => Instructions::Div,
        TokenKind::MODULO => Instructions::Modulo,
        TokenKind::GREATER => Instructions::GreaterThan,
        TokenKind::LESS => Instructions::LessThan,
        _ => Instructions::Equal,
    }
}

/// The type of `l op r`, or why the operands do not go together.
pub fn binary_op_type(op: TokenKind, l: ComptimeValueType, r: ComptimeValueType) -> (res: Result<ComptimeValueType, CompileError>)
    requires
        is_binary_op(op),
    ensures
        match res {
            Ok(t) => Ok(t),
            Err(e) => Err(e@),
        } == binop_type(op, l, r),
{
    if op == TokenKind::EQUAL {
        if l.same_as(&r) {
            return Ok(ComptimeValueType::Bool);
        }
        return Err(CompileError::InvalidBinaryOp { op: "==", left: l, right: r });
    }
    let num = numeric_type(&l, &r);
    let ok: Option<ComptimeValueType> = if op == TokenKind::PLUS {
        match (&l, &r) {
            (ComptimeValueType::StringValue, ComptimeValueType::StringValue) => Some(
                ComptimeValueType::StringValue,
            ),
            _ => num,
        }
    } else if op == TokenKind::MODULO {
        match (&l, &r) {
            (ComptimeValueType::Int, ComptimeValueType::Int) => Some(ComptimeValueType::Int),
            _ => None,
        }
    } else if op == TokenKind::GREATER || op == TokenKind::LESS {
        match num {
            Some(_) => Some(ComptimeValueType::Bool),
            None => None,
        }
    } else {
        num
    };
    match ok {
        Some(t) => Ok(t),
        None => Err(CompileError::InvalidBinaryOp { op: op_str(op), left: r, right: l }),
    }
}

impl Compiler {
    /// Compiles one node, appending its code; gives the type of its value.
    pub fn compile(&mut self, n: &Node) -> (r: Result<ComptimeValueType, CompileError>)
        requires
            !(sc_compile(old(self)@, n@) is Abort),
        ensures
            ran(final(self)@, r) == sc_compile(old(self)@, n@),
        decreases n, 1nat,
    {
        match n {
            Node::Number(x) => {
                self.emit_instr(Instructions::PushNumber(NumberConst::Int(x.number)));
                Ok(ComptimeValueType::Int)
            },
            Node::Float(x) => {
                self.emit_instr(Instructions::PushNumber(NumberConst::Literal(x.literal.clone())));
                Ok(ComptimeValueType::Float)
            },
            Node::Str(x) => {
                self.emit_instr(Instructions::PushString(x.value.clone()));
                Ok(ComptimeValueType::StringValue)
            },
            Node::Bool(x) => {
                self.emit_instr(Instructions::PushBool(x.value == TokenKind::TRUE));
                Ok(ComptimeValueType::Bool)
            },
            Node::VariableAccess(x) => self.compile_access(&x.variable_name),
            Node::Import(_) => Ok(ComptimeValueType::Void),
            Node::FunctionDefine(_) => self.compile_function_define(n),
            Node::BinaryOp(_) => self.compile_binary(n),
            Node::VariableDefine(_) => self.compile_define(n),
            Node::VariableAssign(_) => self.compile_assign(n),
            Node::FunctionCall(_) => self.compile_call(n),
            Node::Return(_) => self.compile_return(n),
            Node::Loop(_) => self.compile_loop(n),
            Node::If(_) => self.compile_if(n),
            Node::While(_) => self.compile_while(n),
            _ => {
                assert(false);
                Ok(ComptimeValueType::Void)
            },
        }
    }

    /// Compiles nodes one after another; the first error ends it.
    pub fn compile_seq(&mut self, v: &Vec<Node>) -> (r: Result<(), CompileError>)
        requires
            !(sc_seq(old(self)@, nodes_view(v@)) is Abort),
        ensures
            ran(final(self)@, r) == sc_seq(old(self)@, nodes_view(v@)),
        decreases v@, 0nat,
    {
        let ghost all = nodes_view(v@);
        let ghost s0 = self@;
        proof {
            lemma_nodes_view_len(v@);
        }
        assert(all.skip(0) =~= all);
        let mut i: usize = 0;
        while i < v.len()
            invariant
                all == nodes_view(v@),
                all.len() == v@.len(),
                s0 == old(self)@,
                i <= v@.len(),
                sc_seq(s0, all) == sc_seq(self@, all.skip(i as int)),
                !(sc_seq(s0, all) is Abort),
            decreases v@.len() - i,
        {
            proof {
                lemma_nodes_view_index(v@, i as int);
                assert(all.skip(i as int)[0] == all[i as int]);
                assert(all.skip(i as int).drop_first() =~= all.skip(i + 1));
                assert(decreases_to!(v@ => v@[i as int]));
            }
            match self.compile(&v[i]) {
                Ok(_) => {},
                Err(e) => {
                    return Err(e);
                },
            }
            i = i + 1;
        }
        assert(all.skip(i as int) =~= seq![]);
        Ok(())
    }

    fn compile_access(&mut self, name: &String) -> (r: Result<ComptimeValueType, CompileError>)
        ensures
            ran(final(self)@, r) == access(old(self)@, name@),
    {
        match self.context.get_variable(name.as_str()) {
            Some(v) => {
                let tag = v.tag.clone();
                let t = v.value_type.duplicate();
                self.emit_instr(Instructions::LoadVar(tag));
                return Ok(t);
            },
            None => {},
        }
        let found = find_key(&self.lookup.symbols, name.as_str());
        proof {
            lemma_find_last_range(keyed(self.lookup.symbols@), name@);
        }
        match found {
            Some(i) => {
                assert(keyed(self.lookup.symbols@)[i as int].1 == self.lookup.symbols@[i as int].1@);
                match &self.lookup.symbols[i].1.symbol_value_type {
                    Some(t) => {
                        let t = t.duplicate();
                        let tag = self.lookup.symbols[i].1.tag.clone();
                        self.emit_instr(Instructions::LoadVar(tag));
                        Ok(t)
                    },
                    None => Err(CompileError::CannotInferType { name: name.clone() }),
                }
            },
            None => Err(CompileError::UndefinedVariable { name: name.clone() }),
        }
    }

    fn compile_function_define(&mut self, n: &Node) -> (r: Result<ComptimeValueType, CompileError>)
        requires
            n is FunctionDefine,
        ensures
            ran(final(self)@, r) == sc_compile(old(self)@, n@),
    {
        let f = match n {
            Node::FunctionDefine(f) => f,
            _ => {
                return Ok(ComptimeValueType::Void);
            },
        };
        let written = match &f.return_type {
            Some(t) => t,
            None => {
                return Err(CompileError::NeedToHaveSpecifiedReturnType { function_name: f.id.clone() });
            },
        };
        let rt = match self.context.get_type(written.as_str()) {
            Ok(t) => t,
            Err(e) => {
                return Err(e);
            },
        };
        let fnc = CompileTimeFunctionForCheck {
            args: copy_args(&f.args),
            return_type: rt,
            body: copy_nodes(&f.body),
        };
        match self.context.add_function(f.id.clone(), fnc) {
            Ok(_) => Ok(ComptimeValueType::Void),
            Err(e) => Err(e),
        }
    }

    fn compile_binary(&mut self, n: &Node) -> (r: Result<ComptimeValueType, CompileError>)
        requires
            n is BinaryOp,
            !(sc_compile(old(self)@, n@) is Abort),
        ensures
            ran(final(self)@, r) == sc_compile(old(self)@, n@),
        decreases n, 0nat,
    {
        let b = match n {
            Node::BinaryOp(b) => b,
            _ => {
                return Ok(ComptimeValueType::Void);
            },
        };
        let lt = match self.compile(&*b.left) {
            Ok(t) => t,
            Err(e) => {
                return Err(e);
            },
        };
        let rt = match self.compile(&*b.right) {
            Ok(t) => t,
            Err(e) => {
                return Err(e);
            },
        };
        match binary_op_type(b.op_tok, lt, rt) {
            Ok(t) => {
                self.emit_instr(op_instruction(b.op_tok));
                Ok(t)
            },
            Err(e) => Err(e),
        }
    }

    fn compile_define(&mut self, n: &Node) -> (r: Result<ComptimeValueType, CompileError>)
        requires
            n is VariableDefine,
            !(sc_compile(old(self)@, n@) is Abort),
        ensures
            ran(final(self)@, r) == sc_compile(old(self)@, n@),
        decreases n, 0nat,
    {
        let d = match n {
            Node::VariableDefine(d) => d,
            _ => {
                return Ok(ComptimeValueType::Void);
            },
        };
        if d.is_const && d.value.is_none() {
            return Err(CompileError::ConstantWithoutValue { name: d.var_name.clone() });
        }
        let inferred: Option<ComptimeValueType> = match &d.value {
            Some(v) => match self.compile(&**v) {
                Ok(t) => Some(t),
                Err(e) => {
                    return Err(e);
                },
            },
            None => None,
        };
        let final_type = match self.settle_define_type(&d.var_name, &d.value_type, inferred) {
            Ok(t) => t,
            Err(e) => {
                return Err(e);
            },
        };
        let mut tag = d.var_name.clone();
        push_str(&mut tag, "_");
        push_str(&mut tag, self.current_fn.as_str());
        let saved = tag.clone();
        let var = ComptimeVariable { value_type: final_type, tag, is_const: d.is_const };
        match self.context.add_variable(d.var_name.clone(), var) {
            Ok(_) => {},
            Err(e) => {
                return Err(e);
            },
        }
        self.emit_instr(Instructions::SaveVar(saved));
        Ok(ComptimeValueType::Void)
    }

    fn find_assign_target(&self, name: &String) -> (r: Result<(bool, ComptimeValueType, String), CompileError>)
        requires
            assign_target(self@, name@) is Some,
        ensures
            match r {
                Ok((c, t, tag)) => assign_target(self@, name@) == Some(
                    Ok::<(bool, ComptimeValueType, Seq<char>), crate::errors::compiler_errors::CErr>(
                        (c, t, tag@),
                    ),
                ),
                Err(e) => assign_target(self@, name@) == Some(
                    Err::<(bool, ComptimeValueType, Seq<char>), crate::errors::compiler_errors::CErr>(
                        e@,
                    ),
                ),
            },
    {
        match self.context.get_variable(name.as_str()) {
            Some(v) => {
                return Ok((v.is_const, v.value_type.duplicate(), v.tag.clone()));
            },
            None => {},
        }
        let found = find_key(&self.lookup.symbols, name.as_str());
        proof {
            lemma_find_last_range(keyed(self.lookup.symbols@), name@);
        }
        match found {
            Some(i) => {
                assert(keyed(self.lookup.symbols@)[i as int].1 == self.lookup.symbols@[i as int].1@);
                let sym = &self.lookup.symbols[i].1;
                match &sym.symbol_value_type {
                    Some(t) => Ok((sym.is_constant, t.duplicate(), sym.tag.clone())),
                    None => Err(CompileError::UndefinedVariable { name: name.clone() }),
                }
            },
            None => Err(CompileError::UndefinedVariable { name: name.clone() }),
        }
    }

    fn compile_assign(&mut self, n: &Node) -> (r: Result<ComptimeValueType, CompileError>)
        requires
            n is VariableAssign,
            !(sc_compile(old(self)@, n@) is Abort),
        ensures
            ran(final(self)@, r) == sc_compile(old(self)@, n@),
        decreases n, 0nat,
    {
        let a = match n {
            Node::VariableAssign(a) => a,
            _ => {
                return Ok(ComptimeValueType::Void);
            },
        };
        let (is_const, expected, tag) = match self.find_assign_target(&a.name) {
            Ok(x) => x,
            Err(e) => {
                return Err(e);
            },
        };
        if is_const {
            return Err(CompileError::ConstReassignment { name: a.name.clone() });
        }
        let t = match self.compile(&*a.value) {
            Ok(t) => t,
            Err(e) => {
                return Err(e);
            },
        };
        if !t.same_as(&expected) {
            return Err(CompileError::TypeMismatch { expected, found: t });
        }
        self.emit_instr(Instructions::SaveVar(tag));
        Ok(t)
    }

    /// Records that the instruction at `at` calls `name`.
    fn record_call_at(&mut self, name: &String, at: usize)
        ensures
            final(self)@ == (CompilerV { calls: record_call(old(self)@.calls, name@, at), ..old(self)@ }),
    {
        let found = find_key(&self.function_call_addresses, name.as_str());
        proof {
            lemma_find_last_range(keyed(self.function_call_addresses@), name@);
        }
        match found {
            Some(j) => {
                let ghost before = self.function_call_addresses@;
                let mut addrs = self.function_call_addresses[j].1.clone();
                assert(addrs@ =~= before[j as int].1@);
                addrs.push(at);
                let key = self.function_call_addresses[j].0.clone();
                self.function_call_addresses.set(j, (key, addrs));
                proof {
                    let kb = keyed(before);
                    assert(kb[j as int].0 == name@);
                    assert(assoc_get(kb, name@) == Some(kb[j as int].1));
                    assert(keyed(self.function_call_addresses@) =~= kb.update(
                        j as int,
                        (name@, kb[j as int].1.push(at)),
                    ));
                    assert(record_call(kb, name@, at) == kb.update(
                        j as int,
                        (name@, kb[j as int].1.push(at)),
                    ));
                    assert(self@.calls == record_call(old(self)@.calls, name@, at));
                }
            },
            None => {
                let ghost before = self.function_call_addresses@;
                let mut addrs: Vec<usize> = Vec::new();
                addrs.push(at);
                self.function_call_addresses.push((name.clone(), addrs));
                proof {
                    assert(addrs@ =~= seq![at]);
                    assert(Seq::<usize>::empty().push(at) =~= seq![at]);
                    assert(keyed(self.function_call_addresses@) =~= keyed(before).push(
                        (name@, seq![at]),
                    ));
                }
            },
        }
    }

    fn call_finish_at(&mut self, name: &String) -> (r: Result<ComptimeValueType, CompileError>)
        requires
            !(call_finish(old(self)@, name@) is Abort),
        ensures
            ran(final(self)@, r) == call_finish(old(self)@, name@),
    {
        let len = self.out.len();
        self.emit_instr(Instructions::PushJmpAdress(len + 2));
        self.emit_instr(Instructions::Call(name.clone()));
        let at = self.out.len() - 1;
        self.record_call_at(name, at);
        match self.context.get_fn(name.as_str()) {
            Ok(f) => Ok(f.return_type),
            Err(e) => Err(e),
        }
    }

    fn call_args(&mut self, args: &Vec<Node>, params: &Vec<FunctionArgs>, fname: &String) -> (r: Result<(), CompileError>)
        requires
            !(sc_call_args(old(self)@, nodes_view(args@), args_view(params@), fname@) is Abort),
        ensures
            ran(final(self)@, r) == sc_call_args(
                old(self)@,
                nodes_view(args@),
                args_view(params@),
                fname@,
            ),
        decreases args@, 0nat,
    {
        let ghost a = nodes_view(args@);
        let ghost p = args_view(params@);
        let ghost s0 = self@;
        proof {
            lemma_nodes_view_len(args@);
        }
        assert(a.skip(0) =~= a);
        assert(p.skip(0) =~= p);
        let mut i: usize = 0;
        while i < args.len() && i < params.len()
            invariant
                a == nodes_view(args@),
                p == args_view(params@),
                a.len() == args@.len(),
                p.len() == params@.len(),
                s0 == old(self)@,
                i <= args@.len(),
                i <= params@.len(),
                sc_call_args(s0, a, p, fname@) == sc_call_args(
                    self@,
                    a.skip(i as int),
                    p.skip(i as int),
                    fname@,
                ),
                !(sc_call_args(s0, a, p, fname@) is Abort),
            decreases args@.len() - i,
        {
            proof {
                lemma_nodes_view_index(args@, i as int);
                assert(a.skip(i as int)[0] == a[i as int]);
                assert(p.skip(i as int)[0] == p[i as int]);
                assert(a.skip(i as int).drop_first() =~= a.skip(i + 1));
                assert(p.skip(i as int).drop_first() =~= p.skip(i + 1));
                assert(decreases_to!(args@ => args@[i as int]));
            }
            let t = match self.compile(&args[i]) {
                Ok(t) => t,
                Err(e) => {
                    return Err(e);
                },
            };
            let mut tag = params[i].name.clone();
            push_str(&mut tag, "_");
            push_str(&mut tag, fname.as_str());
            self.emit_instr(Instructions::SaveVar(tag));
            let pt = match self.context.get_type(params[i].argument_type.as_str()) {
                Ok(pt) => pt,
                Err(e) => {
                    return Err(e);
                },
            };
            if !t.same_as(&pt) {
                return Err(CompileError::TypeMismatch { expected: pt, found: t });
            }
            i = i + 1;
        }
        Ok(())
    }

    fn print_args(&mut self, args: &Vec<Node>, newline: bool) -> (r: Result<(), CompileError>)
        requires
            !(sc_print_args(
                old(self)@,
                nodes_view(args@),
                if newline {
                    crate::instructions::InstrV::WriteLnLastOnStack
                } else {
                    crate::instructions::InstrV::WriteLastOnStack
                },
            ) is Abort),
        ensures
            ran(final(self)@, r) == sc_print_args(
                old(self)@,
                nodes_view(args@),
                if newline {
                    crate::instructions::InstrV::WriteLnLastOnStack
                } else {
                    crate::instructions::InstrV::WriteLastOnStack
                },
            ),
        decreases args@, 0nat,
    {
        let ghost a = nodes_view(args@);
        let ghost pr = if newline {
            crate::instructions::InstrV::WriteLnLastOnStack
        } else {
            crate::instructions::InstrV::WriteLastOnStack
        };
        let ghost s0 = self@;
        proof {
            lemma_nodes_view_len(args@);
        }
        assert(a.skip(0) =~= a);
        let mut i: usize = 0;
        while i < args.len()
            invariant
                a == nodes_view(args@),
                a.len() == args@.len(),
                s0 == old(self)@,
                pr == (if newline {
                    crate::instructions::InstrV::WriteLnLastOnStack
                } else {
                    crate::instructions::InstrV::WriteLastOnStack
                }),
                i <= args@.len(),
                sc_print_args(s0, a, pr) == sc_print_args(self@, a.skip(i as int), pr),
                !(sc_print_args(s0, a, pr) is Abort),
            decreases args@.len() - i,
        {
            proof {
                lemma_nodes_view_index(args@, i as int);
                assert(a.skip(i as int)[0] == a[i as int]);
                assert(a.skip(i as int).drop_first() =~= a.skip(i + 1));
                assert(decreases_to!(args@ => args@[i as int]));
            }
            let t = match self.compile(&args[i]) {
                Ok(t) => t,
                Err(e) => {
                    return Err(e);
                },
            };
            if !is_printable(&t) {
                return Err(CompileError::ExpectedPrintable { found: t });
            }
            if newline {
                self.emit_instr(Instructions::WriteLnLastOnStack);
            } else {
                self.emit_instr(Instructions::WriteLastOnStack);
            }
            i = i + 1;
        }
        assert(a.skip(i as int) =~= seq![]);
        Ok(())
    }

    fn compile_call(&mut self, n: &Node) -> (r: Result<ComptimeValueType, CompileError>)
        requires
            n is FunctionCall,
            !(sc_compile(old(self)@, n@) is Abort),
        ensures
            ran(final(self)@, r) == sc_compile(old(self)@, n@),
        decreases n, 0nat,
    {
        let c = match n {
            Node::FunctionCall(c) => c,
            _ => {
                return Ok(ComptimeValueType::Void);
            },
        };
        proof {
            lemma_nodes_view_len(c.args@);
        }
        match c.call_type {
            CallType::Macro => {
                let found = find_key(&self.macros.macros, c.name.as_str());
                proof {
                    lemma_find_last_range(keyed(self.macros.macros@), c.name@);
                }
                let i = match found {
                    None => {
                        return Err(CompileError::UnknownMacro { name: c.name.clone() });
                    },
                    Some(i) => i,
                };
                let ghost s0 = self@;
                let ghost taken = without_macro(s0, c.name@);
                let entry = self.macros.macros.remove(i);
                proof {
                    assert(keyed(self.macros.macros@) =~= s0.macros.remove(i as int));
                    assert(self@ == taken);
                }
                let k = entry.1;
                let t = match k {
                    MacroKind::WriteLn => match self.print_args(&c.args, true) {
                        Ok(_) => {
                            proof {
                                lemma_print_args_grows(taken, nodes_view(c.args@), crate::instructions::InstrV::WriteLnLastOnStack);
                            }
                            ComptimeValueType::Void
                        },
                        Err(e) => {
                            return Err(e);
                        },
                    },
                    MacroKind::Write => match self.print_args(&c.args, false) {
                        Ok(_) => {
                            proof {
                                lemma_print_args_grows(taken, nodes_view(c.args@), crate::instructions::InstrV::WriteLastOnStack);
                            }
                            ComptimeValueType::Void
                        },
                        Err(e) => {
                            return Err(e);
                        },
                    },
                    _ => {
                        if c.args.len() != 1 {
                            return Err(
                                CompileError::WrongMacroArgCount { expected: 1, found: c.args.len() },
                            );
                        }
                        proof {
                            lemma_nodes_view_index(c.args@, 0);
                            lemma_compile_grows(taken, nodes_view(c.args@)[0]);
                        }
                        let a = match self.compile(&c.args[0]) {
                            Ok(a) => a,
                            Err(e) => {
                                return Err(e);
                            },
                        };
                        match k {
                            MacroKind::ProcessExit => {
                                if !a.same_as(&ComptimeValueType::Int) {
                                    return Err(
                                        CompileError::TypeMismatch {
                                            expected: ComptimeValueType::Int,
                                            found: a,
                                        },
                                    );
                                }
                                self.emit_instr(Instructions::ProcessExit);
                                ComptimeValueType::Void
                            },
                            _ => {
                                if !is_printable(&a) {
                                    return Err(CompileError::ExpectedPrintable { found: a });
                                }
                                self.emit_instr(Instructions::WriteLastOnStack);
                                self.emit_instr(Instructions::ReadInput);
                                k.my_type()
                            },
                        }
                    },
                };
                assert(keyed(self.macros.macros@) == s0.macros.remove(i as int));
                let ghost mid = self.macros.macros@;
                self.macros.macros.insert(i, entry);
                proof {
                    assert(keyed(self.macros.macros@) =~= keyed(mid).insert(i as int, s0.macros[i as int]));
                    assert(s0.macros.remove(i as int).insert(i as int, s0.macros[i as int]) =~= s0.macros);
                }
                Ok(t)
            },
            CallType::Fn => {
                let f = match self.context.get_fn(c.name.as_str()) {
                    Ok(f) => f,
                    Err(e) => {
                        return Err(e);
                    },
                };
                proof {
                    assert(args_view(f.args@).len() == f.args@.len());
                }
                if c.args.len() != f.args.len() {
                    return Err(
                        CompileError::UnexpectedFunctionArguments {
                            name: c.name.clone(),
                            expected: f.args.len(),
                            found: c.args.len(),
                        },
                    );
                }
                match self.call_args(&c.args, &f.args, &c.name) {
                    Ok(_) => {},
                    Err(e) => {
                        return Err(e);
                    },
                }
                self.call_finish_at(&c.name)
            },
        }
    }

    fn compile_return(&mut self, n: &Node) -> (r: Result<ComptimeValueType, CompileError>)
        requires
            n is Return,
            !(sc_compile(old(self)@, n@) is Abort),
        ensures
            ran(final(self)@, r) == sc_compile(old(self)@, n@),
        decreases n, 0nat,
    {
        let ret = match n {
            Node::Return(ret) => ret,
            _ => {
                return Ok(ComptimeValueType::Void);
            },
        };
        if self.context.function_depth > 0 {
            match &ret.returns {
                Some(v) => match self.compile(&**v) {
                    Ok(_) => {},
                    Err(e) => {
                        return Err(e);
                    },
                },
                None => {},
            }
            self.emit_instr(Instructions::JumpOnLastOnStack);
            Ok(ComptimeValueType::Void)
        } else {
            Err(CompileError::CannotReturnOutisdeOfFunction {  })
        }
    }

    fn compile_loop(&mut self, n: &Node) -> (r: Result<ComptimeValueType, CompileError>)
        requires
            n is Loop,
            !(sc_compile(old(self)@, n@) is Abort),
        ensures
            ran(final(self)@, r) == sc_compile(old(self)@, n@),
        decreases n, 0nat,
    {
        let l = match n {
            Node::Loop(l) => l,
            _ => {
                return Ok(ComptimeValueType::Void);
            },
        };
        let start = self.out.len();
        match self.compile_seq(&l.body) {
            Ok(_) => {},
            Err(e) => {
                return Err(e);
            },
        }
        self.emit_instr(Instructions::Jump(start));
        Ok(ComptimeValueType::Void)
    }

    fn compile_if(&mut self, n: &Node) -> (r: Result<ComptimeValueType, CompileError>)
        requires
            n is If,
            !(sc_compile(old(self)@, n@) is Abort),
        ensures
            ran(final(self)@, r) == sc_compile(old(self)@, n@),
        decreases n, 0nat,
    {
        let st = match n {
            Node::If(st) => st,
            _ => {
                return Ok(ComptimeValueType::Void);
            },
        };
        let t = match self.compile(&*st.condition) {
            Ok(t) => t,
            Err(e) => {
                return Err(e);
            },
        };
        if !t.same_as(&ComptimeValueType::Bool) {
            return Err(CompileError::TypeMismatch { expected: ComptimeValueType::Bool, found: t });
        }
        let jf = self.out.len();
        self.emit_instr(Instructions::JumpIfFalse(0));
        self.context.enter_scope();
        let ghost before_then = self@;
        match self.compile_seq(&st.then_branch) {
            Ok(_) => {},
            Err(e) => {
                return Err(e);
            },
        }
        proof {
            lemma_seq_grows(before_then, nodes_view(st.then_branch@));
        }
        self.context.exit_scope();
        let jend = self.out.len();
        self.emit_instr(Instructions::Jump(0));
        let else_start = self.out.len();
        self.patch(jf, Instructions::JumpIfFalse(else_start));
        self.context.enter_scope();
        let ghost before_else = self@;
        match &st.else_branch {
            Some(e) => {
                match self.compile_seq(e) {
                    Ok(_) => {},
                    Err(e) => {
                        return Err(e);
                    },
                }
                proof {
                    lemma_seq_grows(before_else, nodes_view(e@));
                }
            },
            None => {},
        }
        self.context.exit_scope();
        let end = self.out.len();
        self.patch(jend, Instructions::Jump(end));
        Ok(ComptimeValueType::Void)
    }

    fn compile_while(&mut self, n: &Node) -> (r: Result<ComptimeValueType, CompileError>)
        requires
            n is While,
            !(sc_compile(old(self)@, n@) is Abort),
        ensures
            ran(final(self)@, r) == sc_compile(old(self)@, n@),
        decreases n, 0nat,
    {
        let w = match n {
            Node::While(w) => w,
            _ => {
                return Ok(ComptimeValueType::Void);
            },
        };
        let t = match self.compile(&*w.condition) {
            Ok(t) => t,
            Err(e) => {
                return Err(e);
            },
        };
        if !t.same_as(&ComptimeValueType::Bool) {
            return Err(CompileError::TypeMismatch { expected: ComptimeValueType::Bool, found: t });
        }
        let jf = self.out.len();
        self.emit_instr(Instructions::JumpIfFalse(0));
        let start = self.out.len();
        self.context.enter_scope();
        let ghost before_body = self@;
        match self.compile_seq(&w.body) {
            Ok(_) => {},
            Err(e) => {
                return Err(e);
            },
        }
        proof {
            lemma_seq_grows(before_body, nodes_view(w.body@));
        }
        self.exit_scope();
        let ghost before_cond = self@;
        match self.compile(&*w.condition) {
            Ok(_) => {},
            Err(e) => {
                return Err(e);
            },
        }
        proof {
            lemma_compile_grows(before_cond, node_view(*w.condition));
        }
        self.emit_instr(Instructions::JumpIfTrue(start));
        let end = self.out.len();
        self.patch(jf, Instructions::JumpIfFalse(end));
        Ok(ComptimeValueType::Void)
    }
}

} // verus!
