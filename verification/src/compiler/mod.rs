//! Compiling syntax trees into instructions.
pub mod model;
pub mod nodes;
pub mod functions;
pub mod lookup;
pub mod laws;
pub mod layout;
pub mod calls;

use vstd::prelude::*;
use crate::assoc::keyed;
use crate::context::{strings_view, CompileContext, fresh_ctx};
use crate::errors::compiler_errors::CompileError;
use crate::instructions::{instrs_view, InstrV, Instructions};
use crate::linker::GlobalSymbols;
use crate::macros::{builtin_macros, MacroManager};
use crate::types::ComptimeValueType;
use self::model::{drops, emit, CompilerV, Outcome};

verus! {

/// The compiler: what it knows so far and the code it has emitted.
pub struct Compiler {
    pub context: CompileContext,
    pub out: Vec<Instructions>,
    pub macros: MacroManager,
    pub current_fn: String,
    pub lookup: GlobalSymbols,
    pub function_types: Vec<(String, ComptimeValueType)>,
    pub variables_type: Vec<(String, ComptimeValueType)>,
    pub imports: Vec<String>,
    pub function_call_addresses: Vec<(String, Vec<usize>)>,
}

impl View for Compiler {
    type V = CompilerV;

    open spec fn view(&self) -> CompilerV {
        CompilerV {
            ctx: self.context@,
            out: instrs_view(self.out@),
            macros: self.macros@,
            current_fn: self.current_fn@,
            symbols: self.lookup@,
            function_types: keyed(self.function_types@),
            variables_type: keyed(self.variables_type@),
            imports: strings_view(self.imports@),
            calls: keyed(self.function_call_addresses@),
        }
    }
}

/// The outcome that a result and the state reached make.
pub open spec fn ran<T>(s: CompilerV, r: Result<T, CompileError>) -> Outcome<T> {
    match r {
        Ok(t) => Outcome::Done(s, t),
        Err(e) => Outcome::Fail(s, e@),
    }
}

/// The state of a fresh compiler.
pub open spec fn fresh_compiler() -> CompilerV {
    CompilerV {
        ctx: fresh_ctx(),
        out: seq![],
        macros: builtin_macros(),
        current_fn: "none"@,
        symbols: seq![],
        function_types: seq![],
        variables_type: seq![],
        imports: seq![],
        calls: seq![],
    }
}

impl Compiler {
    pub fn new() -> (r: Self)
        ensures
            r@ == fresh_compiler(),
    {
        let r = Compiler {
            context: CompileContext::new(),
            out: Vec::new(),
            macros: MacroManager::new(),
            current_fn: crate::text::owned("none"),
            lookup: GlobalSymbols { symbols: Vec::new() },
            variables_type: Vec::new(),
            function_types: Vec::new(),
            imports: vec![],
            function_call_addresses: Vec::new(),
        };
        assert(r@.out =~= seq![]);
        assert(r@.symbols =~= seq![]);
        assert(r@.function_types =~= seq![]);
        assert(r@.variables_type =~= seq![]);
        assert(r@.imports =~= seq![]);
        assert(r@.calls =~= seq![]);
        r
    }

    /// Appends one instruction.
    pub(crate) fn emit_instr(&mut self, i: Instructions)
        ensures
            final(self)@ == emit(old(self)@, i@),
            final(self).context == old(self).context,
    {
        let ghost v = i@;
        self.out.push(i);
        assert(instrs_view(self.out@) =~= instrs_view(old(self).out@).push(v));
    }

    /// Replaces the instruction at `k`.
    pub(crate) fn patch(&mut self, k: usize, i: Instructions)
        requires
            k < old(self).out@.len(),
        ensures
            final(self)@ == (CompilerV { out: old(self)@.out.update(k as int, i@), ..old(self)@ }),
    {
        let ghost v = i@;
        self.out.set(k, i);
        assert(instrs_view(self.out@) =~= instrs_view(old(self).out@).update(k as int, v));
    }

    /// Closes the innermost scope, first emitting a `Drop` for each of its variables.
    pub fn exit_scope(&mut self)
        requires
            old(self)@.ctx.scopes.len() > 0,
        ensures
            final(self)@ == (CompilerV {
                out: old(self)@.out + drops(old(self)@.ctx.scopes.last()),
                ctx: crate::context::ctx_exit_scope(old(self)@.ctx),
                ..old(self)@
            }),
    {
        let last = self.context.scopes.len() - 1;
        let ghost scope = old(self)@.ctx.scopes.last();
        assert(scope == keyed(self.context.scopes@[last as int]@));
        let ghost start = old(self)@;
        let n = self.context.scopes[last].len();
        let mut i: usize = 0;
        while i < n
            invariant
                last == self.context.scopes@.len() - 1,
                n == self.context.scopes@[last as int]@.len(),
                scope == keyed(self.context.scopes@[last as int]@),
                i <= n,
                self@ == (CompilerV { out: start.out + drops(scope).take(i as int), ..start }),
            decreases n - i,
        {
            let name = self.context.scopes[last][i].0.clone();
            self.emit_instr(Instructions::Drop(name));
            assert(drops(scope).take(i + 1) =~= drops(scope).take(i as int).push(InstrV::Drop(scope[i as int].0)));
            assert(start.out + drops(scope).take(i + 1) =~= (start.out + drops(scope).take(i as int)).push(InstrV::Drop(scope[i as int].0)));
            i = i + 1;
        }
        assert(drops(scope).take(n as int) =~= drops(scope));
        self.context.exit_scope();
    }
}

impl Default for Compiler {
    fn default() -> (r: Self)
        ensures
            r@ == fresh_compiler(),
    {
        Self::new()
    }
}

} // verus!
