//! Compiling function bodies and linking calls to them, and compiling whole programs.
use vstd::prelude::*;
use crate::assoc::{assoc_get, find_key, keyed, lemma_find_last_range};
use crate::ast::{nodes_view, FunctionArgs, ProgramNode};
use crate::context::{args_view, CompileTimeFunctionForCheck, ComptimeVariable};
use crate::errors::compiler_errors::CompileError;
use crate::instructions::{InstrV, Instructions};
use crate::text::push_str;
use crate::types::ComptimeValueType;
use super::model::{
    bind_params, emit, lemma_bind_params_keeps_out, lemma_patch_calls_len, lemma_seq_grows, patch_calls, patch_sites, sc_add_functions,
    sc_bodies, sc_program, CompilerV, Outcome,
};
use super::{ran, Compiler};

verus! {

impl Compiler {
    /// Declares a function's parameters as variables of the current scope.
    fn bind_params(&mut self, params: &Vec<FunctionArgs>, fname: &String) -> (r: Result<(), CompileError>)
        requires
            !(bind_params(old(self)@, args_view(params@), fname@) is Abort),
        ensures
            ran(final(self)@, r) == bind_params(old(self)@, args_view(params@), fname@),
    {
        let ghost p = args_view(params@);
        let ghost s0 = self@;
        assert(p.skip(0) =~= p);
        let mut i: usize = 0;
        while i < params.len()
            invariant
                p == args_view(params@),
                s0 == old(self)@,
                i <= params@.len(),
                bind_params(s0, p, fname@) == bind_params(self@, p.skip(i as int), fname@),
                !(bind_params(s0, p, fname@) is Abort),
            decreases params@.len() - i,
        {
            proof {
                assert(p.skip(i as int)[0] == p[i as int]);
                assert(p.skip(i as int).drop_first() =~= p.skip(i + 1));
            }
            let t = match self.context.get_type(params[i].argument_type.as_str()) {
                Ok(t) => t,
                Err(e) => {
                    return Err(e);
                },
            };
            let mut tag = params[i].name.clone();
            push_str(&mut tag, "_");
            push_str(&mut tag, fname.as_str());
            let var = ComptimeVariable { value_type: t, is_const: false, tag };
            match self.context.add_variable(params[i].name.clone(), var) {
                Ok(_) => {},
                Err(e) => {
                    return Err(e);
                },
            }
            i = i + 1;
        }
        assert(p.skip(i as int) =~= seq![]);
        Ok(())
    }

    /// Turns each recorded call of a compiled function into a jump to its body.
    fn fix_function_jump_adresses(&mut self, starts: &Vec<(String, usize)>)
        requires
            patch_calls(old(self)@.out, keyed(starts@), old(self)@.calls) is Some,
        ensures
            final(self)@ == (CompilerV {
                out: patch_calls(old(self)@.out, keyed(starts@), old(self)@.calls)->0,
                ..old(self)@
            }),
    {
        let ghost st = keyed(starts@);
        let ghost calls = self@.calls;
        assert(st.skip(0) =~= st);
        let mut k: usize = 0;
        while k < starts.len()
            invariant
                st == keyed(starts@),
                k <= starts@.len(),
                patch_calls(old(self)@.out, st, calls) == patch_calls(self@.out, st.skip(k as int), calls),
                patch_calls(old(self)@.out, st, calls) is Some,
                self@ == (CompilerV { out: self@.out, ..old(self)@ }),
                calls == old(self)@.calls,
            decreases starts@.len() - k,
        {
            proof {
                assert(st.skip(k as int)[0] == st[k as int]);
                assert(st.skip(k as int).drop_first() =~= st.skip(k + 1));
            }
            let addr = starts[k].1;
            let found = find_key(&self.function_call_addresses, starts[k].0.as_str());
            proof {
                lemma_find_last_range(keyed(self.function_call_addresses@), st[k as int].0);
            }
            match found {
                Some(j) => {
                    let sites = self.function_call_addresses[j].1.clone();
                    let ghost sv = sites@;
                    assert(sv =~= keyed(self.function_call_addresses@)[j as int].1);
                    assert(assoc_get(calls, st[k as int].0) == Some(sv));
                    let ghost o0 = self@.out;
                    assert(sv.skip(0) =~= sv);
                    let mut m: usize = 0;
                    while m < sites.len()
                        invariant
                            sv == sites@,
                            m <= sv.len(),
                            patch_sites(o0, sv, addr) == patch_sites(self@.out, sv.skip(m as int), addr),
                            patch_sites(o0, sv, addr) is Some,
                            self@ == (CompilerV { out: self@.out, ..old(self)@ }),
                        decreases sv.len() - m,
                    {
                        proof {
                            assert(sv.skip(m as int)[0] == sv[m as int]);
                            assert(sv.skip(m as int).drop_first() =~= sv.skip(m + 1));
                        }
                        self.patch(sites[m], Instructions::Jump(addr));
                        m = m + 1;
                    }
                    assert(sv.skip(m as int) =~= seq![]);
                },
                None => {
                    assert(assoc_get(calls, st[k as int].0) is None);
                },
            }
            k = k + 1;
        }
        assert(st.skip(k as int) =~= seq![]);
    }

    /// Appends the bodies of all declared functions after the main code, behind a jump
    /// that skips them, and links every call to its body.
    pub fn add_functions(&mut self) -> (r: Result<(), CompileError>)
        requires
            !(sc_add_functions(old(self)@) is Abort),
        ensures
            ran(final(self)@, r) == sc_add_functions(old(self)@),
    {
        self.emit_instr(Instructions::Jump(0));
        let jump_placeholder = self.out.len();
        let ghost s1 = self@;
        let mut functions: Vec<(String, CompileTimeFunctionForCheck)> = Vec::new();
        let mut c: usize = 0;
        while c < self.context.functions.len()
            invariant
                c <= self.context.functions@.len(),
                self@ == s1,
                s1 == emit(old(self)@, InstrV::Jump(0)),
                keyed(functions@) == keyed(self.context.functions@).take(c as int),
            decreases self.context.functions@.len() - c,
        {
            let name = self.context.functions[c].0.clone();
            let f = self.context.functions[c].1.duplicate();
            assert(keyed(self.context.functions@)[c as int] == (name@, f@));
            let ghost before = keyed(functions@);
            functions.push((name, f));
            assert(keyed(functions@) =~= before.push(keyed(self.context.functions@)[c as int]));
            assert(keyed(functions@) =~= keyed(self.context.functions@).take(c + 1));
            c = c + 1;
        }
        let ghost fns = keyed(functions@);
        assert(fns =~= s1.ctx.functions);
        let mut starts: Vec<(String, usize)> = Vec::new();
        assert(fns.skip(0) =~= fns);
        assert(keyed(starts@) =~= Seq::<(Seq<char>, usize)>::empty());
        let mut k: usize = 0;
        while k < functions.len()
            invariant
                fns == keyed(functions@),
                fns == s1.ctx.functions,
                s1 == emit(old(self)@, InstrV::Jump(0)),
                k <= fns.len(),
                sc_bodies(s1, fns, seq![]) == sc_bodies(self@, fns.skip(k as int), keyed(starts@)),
                !(sc_bodies(s1, fns, seq![]) is Abort),
                s1.out.len() == jump_placeholder,
                self@.out.len() >= s1.out.len(),
            decreases fns.len() - k,
        {
            proof {
                assert(fns.skip(k as int)[0] == fns[k as int]);
                assert(fns.skip(k as int).drop_first() =~= fns.skip(k + 1));
            }
            let ghost before = self@;
            let length = self.out.len();
            let depth = self.context.function_depth;
            self.context.enter_function_scope();
            self.context.function_depth = depth + 1;
            let ghost before_bind = self@;
            match self.bind_params(&functions[k].1.args, &functions[k].0) {
                Ok(_) => {},
                Err(e) => {
                    return Err(e);
                },
            }
            proof {
                lemma_bind_params_keeps_out(before_bind, args_view(functions@[k as int].1.args@), functions@[k as int].0@);
            }
            self.context.curren_return_type = functions[k].1.return_type.duplicate();
            let ghost before_seq = self@;
            match self.compile_seq(&functions[k].1.body) {
                Ok(_) => {},
                Err(e) => {
                    return Err(e);
                },
            }
            proof {
                lemma_seq_grows(before_seq, nodes_view(functions@[k as int].1.body@));
            }
            self.emit_instr(Instructions::JumpOnLastOnStack);
            self.context.exit_function_scope();
            self.context.curren_return_type = ComptimeValueType::Void;
            self.context.function_depth = depth;
            let ghost st_before = keyed(starts@);
            starts.push((functions[k].0.clone(), length));
            proof {
                assert(keyed(starts@) =~= st_before.push((fns[k as int].0, length)));
                assert(self@.out.len() >= before.out.len());
            }
            k = k + 1;
        }
        assert(fns.skip(k as int) =~= seq![]);
        proof {
            lemma_patch_calls_len(self@.out, keyed(starts@), self@.calls);
        }
        self.fix_function_jump_adresses(&starts);
        let end = self.out.len();
        self.patch(jump_placeholder - 1, Instructions::Jump(end));
        Ok(())
    }

    /// Compiles a whole program: its statements, then the bodies of the functions it
    /// declared.
    pub fn compile_program(&mut self, p: &ProgramNode) -> (r: Result<ComptimeValueType, CompileError>)
        requires
            !(sc_program(old(self)@, nodes_view(p.program_nodes@)) is Abort),
        ensures
            ran(final(self)@, r) == sc_program(old(self)@, nodes_view(p.program_nodes@)),
    {
        match self.compile_seq(&p.program_nodes) {
            Ok(_) => {},
            Err(e) => {
                return Err(e);
            },
        }
        match self.add_functions() {
            Ok(_) => Ok(ComptimeValueType::Void),
            Err(e) => Err(e),
        }
    }
}

} // verus!
