//! The type pass over a tree, and the symbols a module makes visible.
use vstd::prelude::*;
use crate::assoc::{assoc_get, assoc_put, assoc_set, find_key, keyed, lemma_find_last_range};
use crate::ast::{opt_str_view, Node};
use crate::errors::compiler_errors::CompileError;
use crate::instructions::{Instructions, NumberConst};
use crate::linker::{Symbol, SymbolType, SymbolV};
use crate::text::push_str;
use crate::tokens::TokenKind;
use crate::types::ComptimeValueType;
use super::model::{
    define_type, is_binary_op, sc_check, sc_check_seq, sc_lookup, sc_lookup_seq, sc_type, tag_of,
    CompilerV, Outcome,
};
use super::nodes::{binary_op_type, op_str};
use super::{ran, Compiler};
use crate::ast::{lemma_nodes_view_index, lemma_nodes_view_len, nodes_view};

verus! {

impl Compiler {
    /// The type a definition gives its variable; a definition without a value first gets
    /// the default value of its type.
    pub(crate) fn settle_define_type(
        &mut self,
        name: &String,
        written: &Option<String>,
        inferred: Option<ComptimeValueType>,
    ) -> (r: Result<ComptimeValueType, CompileError>)
        requires
            !(define_type(old(self)@, name@, opt_str_view(*written), inferred) is Abort),
        ensures
            ran(final(self)@, r) == define_type(old(self)@, name@, opt_str_view(*written), inferred),
    {
        let declared: Option<ComptimeValueType> = match written {
            Some(t) => match self.context.get_type(t.as_str()) {
                Ok(x) => Some(x),
                Err(e) => {
                    return Err(e);
                },
            },
            None => None,
        };
        match (declared, inferred) {
            (Some(dt), Some(it)) => {
                if dt.same_as(&it) {
                    Ok(dt)
                } else {
                    Err(CompileError::TypeMismatch { expected: dt, found: it })
                }
            },
            (Some(dt), None) => {
                match dt {
                    ComptimeValueType::StringValue => self.emit_instr(
                        Instructions::PushString(String::new()),
                    ),
                    ComptimeValueType::Int => self.emit_instr(
                        Instructions::PushNumber(NumberConst::Bits(0)),
                    ),
                    ComptimeValueType::Float => self.emit_instr(
                        Instructions::PushNumber(NumberConst::Bits(0)),
                    ),
                    ComptimeValueType::Bool => self.emit_instr(Instructions::PushBool(false)),
                    _ => {},
                }
                Ok(dt)
            },
            (None, Some(it)) => Ok(it),
            (None, None) => Err(CompileError::CannotInferType { name: name.clone() }),
        }
    }

    /// The type of a node's value, found without compiling it.
    pub fn my_type(&mut self, n: &Node) -> (r: Result<ComptimeValueType, CompileError>)
        requires
            !(sc_type(old(self)@, n@) is Abort),
        ensures
            ran(final(self)@, r) == sc_type(old(self)@, n@),
        decreases n,
    {
        match n {
            Node::Number(_) => Ok(ComptimeValueType::Int),
            Node::Float(_) => Ok(ComptimeValueType::Float),
            Node::Str(_) => Ok(ComptimeValueType::StringValue),
            Node::Bool(_) => Ok(ComptimeValueType::Bool),
            Node::BinaryOp(b) => {
                let lt = match self.my_type(&*b.left) {
                    Ok(t) => t,
                    Err(e) => {
                        return Err(e);
                    },
                };
                let rt = match self.my_type(&*b.right) {
                    Ok(t) => t,
                    Err(e) => {
                        return Err(e);
                    },
                };
                match binary_op_type(b.op_tok, lt.duplicate(), rt.duplicate()) {
                    Ok(t) => Ok(t),
                    Err(_) => Err(CompileError::InvalidBinaryOp { op: op_str(b.op_tok), left: lt, right: rt }),
                }
            },
            Node::VariableDefine(d) => {
                let inferred: Option<ComptimeValueType> = match &d.value {
                    Some(v) => match self.my_type(&**v) {
                        Ok(t) => Some(t),
                        Err(e) => {
                            return Err(e);
                        },
                    },
                    None => None,
                };
                self.settle_define_type(&d.var_name, &d.value_type, inferred)
            },
            Node::VariableAccess(x) => {
                let found = find_key(&self.variables_type, x.variable_name.as_str());
                proof {
                    lemma_find_last_range(keyed(self.variables_type@), x.variable_name@);
                }
                match found {
                    Some(i) => {
                        return Ok(self.variables_type[i].1.duplicate());
                    },
                    None => {},
                }
                let found = find_key(&self.lookup.symbols, x.variable_name.as_str());
                proof {
                    lemma_find_last_range(keyed(self.lookup.symbols@), x.variable_name@);
                }
                match found {
                    Some(i) => {
                        assert(keyed(self.lookup.symbols@)[i as int].1 == self.lookup.symbols@[i as int].1@);
                        match &self.lookup.symbols[i].1.symbol_value_type {
                            Some(t) => Ok(t.duplicate()),
                            None => Ok(ComptimeValueType::Void),
                        }
                    },
                    None => Err(CompileError::UndefinedVariable { name: x.variable_name.clone() }),
                }
            },
            Node::FunctionCall(c) => match c.call_type {
                crate::ast::CallType::Macro => {
                    let found = find_key(&self.macros.macros, c.name.as_str());
                    proof {
                        lemma_find_last_range(keyed(self.macros.macros@), c.name@);
                    }
                    match found {
                        Some(i) => Ok(self.macros.macros[i].1.my_type()),
                        None => Err(CompileError::UnknownMacro { name: c.name.clone() }),
                    }
                },
                crate::ast::CallType::Fn => match self.context.get_fn(c.name.as_str()) {
                    Ok(f) => Ok(f.return_type),
                    Err(e) => Err(e),
                },
            },
            Node::Prefix(_) => {
                assert(false);
                Ok(ComptimeValueType::Void)
            },
            Node::Array(_) => {
                assert(false);
                Ok(ComptimeValueType::Void)
            },
            Node::StructDefine(_) => {
                assert(false);
                Ok(ComptimeValueType::Void)
            },
            _ => Ok(ComptimeValueType::Void),
        }
    }

    /// Records the symbols that a tree defines at its top level. A module named by an
    /// import is read by the caller, which records its tree the same way.
    pub fn add_to_lookup(&mut self, n: &Node) -> (r: Result<(), CompileError>)
        requires
            !(sc_lookup(old(self)@, n@) is Abort),
        ensures
            ran(final(self)@, r) == sc_lookup(old(self)@, n@),
        decreases n, 1nat,
    {
        match n {
            Node::Program(p) => self.add_to_lookup_seq(&p.program_nodes),
            Node::VariableDefine(d) => {
                let t = match self.my_type(n) {
                    Ok(t) => t,
                    Err(e) => {
                        return Err(e);
                    },
                };
                let mut tag = d.var_name.clone();
                push_str(&mut tag, "_");
                push_str(&mut tag, self.current_fn.as_str());
                let sym = Symbol {
                    symbol_value_type: Some(t),
                    symbol_type: SymbolType::Variable,
                    is_constant: d.is_const,
                    tag,
                };
                assoc_set(&mut self.lookup.symbols, &d.var_name, sym);
                Ok(())
            },
            Node::Prefix(_) => {
                assert(false);
                Ok(())
            },
            _ => Ok(()),
        }
    }

    fn add_to_lookup_seq(&mut self, v: &Vec<Node>) -> (r: Result<(), CompileError>)
        requires
            !(sc_lookup_seq(old(self)@, nodes_view(v@)) is Abort),
        ensures
            ran(final(self)@, r) == sc_lookup_seq(old(self)@, nodes_view(v@)),
        decreases v@, 0nat,
    {
        let ghost all = nodes_view(v@);
        proof {
            lemma_nodes_view_len(v@);
        }
        assert(all.skip(0) =~= all);
        let mut i: usize = 0;
        while i < v.len()
            invariant
                all == nodes_view(v@),
                all.len() == v@.len(),
                i <= v@.len(),
                sc_lookup_seq(old(self)@, all) == sc_lookup_seq(self@, all.skip(i as int)),
                !(sc_lookup_seq(old(self)@, all) is Abort),
            decreases v@.len() - i,
        {
            proof {
                lemma_nodes_view_index(v@, i as int);
                assert(all.skip(i as int)[0] == all[i as int]);
                assert(all.skip(i as int).drop_first() =~= all.skip(i + 1));
                assert(decreases_to!(v@ => v@[i as int]));
            }
            match self.add_to_lookup(&v[i]) {
                Ok(_) => {},
                Err(e) => {
                    return Err(e);
                },
            }
            i = i + 1;
        }
        assert(all.skip(i as int) =~= seq![]);
        Ok(())
    }

    /// Records the types of the variables a tree defines at its top level, and gives the
    /// module symbols of those names their types.
    pub fn add_to_type_check(&mut self, n: &Node) -> (r: Result<(), CompileError>)
        requires
            !(sc_check(old(self)@, n@) is Abort),
        ensures
            ran(final(self)@, r) == sc_check(old(self)@, n@),
        decreases n, 1nat,
    {
        match n {
            Node::Program(p) => self.add_to_type_check_seq(&p.program_nodes),
            Node::VariableDefine(d) => {
                let t = match self.my_type(n) {
                    Ok(t) => t,
                    Err(e) => {
                        return Err(e);
                    },
                };
                assoc_set(&mut self.variables_type, &d.var_name, t.duplicate());
                let found = find_key(&self.lookup.symbols, d.var_name.as_str());
                proof {
                    lemma_find_last_range(keyed(self.lookup.symbols@), d.var_name@);
                }
                match found {
                    Some(i) => {
                        let old_sym = &self.lookup.symbols[i].1;
                        assert(keyed(self.lookup.symbols@)[i as int].1 == old_sym@);
                        let sym = Symbol {
                            symbol_value_type: Some(t),
                            symbol_type: old_sym.symbol_type,
                            is_constant: old_sym.is_constant,
                            tag: old_sym.tag.clone(),
                        };
                        assoc_set(&mut self.lookup.symbols, &d.var_name, sym);
                    },
                    None => {},
                }
                Ok(())
            },
            Node::Array(_) => {
                assert(false);
                Ok(())
            },
            Node::StructDefine(_) => {
                assert(false);
                Ok(())
            },
            _ => Ok(()),
        }
    }

    fn add_to_type_check_seq(&mut self, v: &Vec<Node>) -> (r: Result<(), CompileError>)
        requires
            !(sc_check_seq(old(self)@, nodes_view(v@)) is Abort),
        ensures
            ran(final(self)@, r) == sc_check_seq(old(self)@, nodes_view(v@)),
        decreases v@, 0nat,
    {
        let ghost all = nodes_view(v@);
        proof {
            lemma_nodes_view_len(v@);
        }
        assert(all.skip(0) =~= all);
        let mut i: usize = 0;
        while i < v.len()
            invariant
                all == nodes_view(v@),
                all.len() == v@.len(),
                i <= v@.len(),
                sc_check_seq(old(self)@, all) == sc_check_seq(self@, all.skip(i as int)),
                !(sc_check_seq(old(self)@, all) is Abort),
            decreases v@.len() - i,
        {
            proof {
                lemma_nodes_view_index(v@, i as int);
                assert(all.skip(i as int)[0] == all[i as int]);
                assert(all.skip(i as int).drop_first() =~= all.skip(i + 1));
                assert(decreases_to!(v@ => v@[i as int]));
            }
            match self.add_to_type_check(&v[i]) {
                Ok(_) => {},
                Err(e) => {
                    return Err(e);
                },
            }
            i = i + 1;
        }
        assert(all.skip(i as int) =~= seq![]);
        Ok(())
    }
}

} // verus!
