//! The built-in macros and their registry.
use vstd::prelude::*;
use crate::assoc::{
    assoc_get, assoc_put, find_key, keyed, lemma_find_last_is, lemma_find_last_range,
};
use crate::errors::compiler_errors::{CErr, CompileError};
use crate::text::owned;
use crate::types::ComptimeValueType;

verus! {

/// The macros the language has built in.
#[derive(Debug, Clone, Copy, PartialEq, Eq, Structural)]
pub enum MacroKind {
    /// `writeLn!(..)`: prints each argument on a line of its own.
    WriteLn,
    /// `write!(..)`: prints each argument.
    Write,
    /// `processExit!(code)`: ends the program with a numeric code.
    ProcessExit,
    /// `readInput!(prompt)`: prints the prompt and reads a line.
    ReadInput,
}

impl View for MacroKind {
    type V = MacroKind;

    open spec fn view(&self) -> MacroKind {
        *self
    }
}

/// The type of a macro's result.
pub open spec fn macro_type(m: MacroKind) -> ComptimeValueType {
    match m {
        MacroKind::ReadInput => ComptimeValueType::StringValue,
        _ => ComptimeValueType::Void,
    }
}

impl MacroKind {
    pub fn my_type(&self) -> (t: ComptimeValueType)
        ensures
            t == macro_type(*self),
    {
        match self {
            MacroKind::ReadInput => ComptimeValueType::StringValue,
            _ => ComptimeValueType::Void,
        }
    }
}

/// The macros known by name.
pub struct MacroManager {
    pub macros: Vec<(String, MacroKind)>,
}

impl View for MacroManager {
    type V = Seq<(Seq<char>, MacroKind)>;

    open spec fn view(&self) -> Seq<(Seq<char>, MacroKind)> {
        keyed(self.macros@)
    }
}

/// The registry every compiler starts with.
pub open spec fn builtin_macros() -> Seq<(Seq<char>, MacroKind)> {
    seq![
        ("writeLn"@, MacroKind::WriteLn),
        ("write"@, MacroKind::Write),
        ("processExit"@, MacroKind::ProcessExit),
        ("readInput"@, MacroKind::ReadInput),
    ]
}

impl MacroManager {
    /// The macro registered under `name`, to be used or replaced.
    pub fn get_macro_mut(&mut self, name: &str) -> (r: Result<&mut MacroKind, CompileError>)
        ensures
            match r {
                Ok(m) => assoc_get(old(self)@, name@) == Some(*m) && final(self)@ == assoc_put(
                    old(self)@,
                    name@,
                    *final(m),
                ),
                Err(e) => assoc_get(old(self)@, name@) is None && e@ == CErr::UnknownMacro(name@)
                    && final(self)@ == old(self)@,
            },
    {
        let found = find_key(&self.macros, name);
        proof {
            lemma_find_last_range(keyed(self.macros@), name@);
        }
        match found {
            Some(i) => {
                let entry = &mut self.macros[i];
                Ok(&mut entry.1)
            },
            None => Err(CompileError::UnknownMacro { name: name.to_owned() }),
        }
    }

    /// A registry holding the built-in macros.
    pub fn new() -> (r: Self)
        ensures
            r@ == builtin_macros(),
    {
        proof {
            reveal_strlit("writeLn");
            reveal_strlit("write");
            reveal_strlit("processExit");
            reveal_strlit("readInput");
            assert("writeLn"@.len() == 7);
            assert("write"@.len() == 5);
            assert("processExit"@.len() == 11);
            assert("readInput"@.len() == 9);
        }
        let mut register = MacroManager { macros: Vec::new() };
        assert(register@ =~= seq![]);
        register.register("writeLn", MacroKind::WriteLn);
        assert(register@ =~= builtin_macros().take(1));
        proof {
            lemma_find_last_is(register@, "write"@, -1);
        }
        register.register("write", MacroKind::Write);
        assert(register@ =~= builtin_macros().take(2));
        proof {
            lemma_find_last_is(register@, "processExit"@, -1);
        }
        register.register("processExit", MacroKind::ProcessExit);
        assert(register@ =~= builtin_macros().take(3));
        proof {
            lemma_find_last_is(register@, "readInput"@, -1);
        }
        register.register("readInput", MacroKind::ReadInput);
        assert(register@ =~= builtin_macros());
        register
    }

    /// Registers `mac` under `name`, replacing what was registered under it before.
    pub fn register(&mut self, name: &str, mac: MacroKind)
        ensures
            final(self)@ == assoc_put(old(self)@, name@, mac),
    {
        let found = find_key(&self.macros, name);
        proof {
            lemma_find_last_range(keyed(self.macros@), name@);
        }
        match found {
            Some(i) => {
                self.macros.set(i, (owned(name), mac));
                assert(self@ =~= assoc_put(old(self)@, name@, mac));
            },
            None => {
                self.macros.push((owned(name), mac));
                assert(self@ =~= assoc_put(old(self)@, name@, mac));
            },
        }
    }
}

impl Default for MacroManager {
    fn default() -> (r: Self)
        ensures
            r@ == builtin_macros(),
    {
        Self::new()
    }
}

} // verus!
