use vstd::prelude::*;

pub mod text;
pub mod errors;
pub mod tokens;
pub mod lexer;
pub mod types;
pub mod ast;
pub mod ast_print;
pub mod parser;
pub mod instructions;
pub mod bytecode;
pub mod loader;
pub mod assoc;
pub mod context;
pub mod linker;
pub mod macros;
pub mod compiler;
pub mod cli;
pub mod vm;

verus! {

/// Two spaces of indentation per nesting level.
pub fn indent_fn(n: usize) -> (res: String)
    requires
        n <= usize::MAX / 2,
    ensures
        res@.len() == 2 * n,
        forall|i: int| 0 <= i < res@.len() ==> res@[i] == ' ',
{
    let mut s = String::new();
    let mut i: usize = 0;
    while i < n
        invariant
            i <= n,
            s@.len() == 2 * i,
            forall|j: int| 0 <= j < s@.len() ==> s@[j] == ' ',
        decreases n - i,
    {
        text::push_char(&mut s, ' ');
        text::push_char(&mut s, ' ');
        i = i + 1;
    }
    s
}

} // verus!
