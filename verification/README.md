# vertex

The Vertex language toolchain: a lexer, a parser, a type-checking compiler to
stack bytecode, a bytecode file format with its loader, a linker for object
files, the decision core of the virtual machine, and the command-line logic of
the `vertexC` tool and the `vertex` project manager.

The library under `src/` is written in Verus. Each public function carries a
contract over a mathematical model of its data (sequences of characters,
tokens, syntax trees, instructions and bytes), and the laws that tie the
functions together are stated and proved as public proof functions:

- `lexer`: every token stream ends with an end-of-file token, and a word on
  its own is one keyword or identifier token;
- `loader` / `bytecode`: decoding an encoded program gives the program back;
- `context`: a read gives back what a declaration wrote, leaving a scope
  undoes what entering it did, and leaving a function's scope discards every
  block and variable made inside it;
- `compiler::laws`: compiling keeps the scope stack balanced, hides the
  variables of `if` and `while` bodies, and type-checks conditions,
  definitions, assignments and operands;
- `compiler::layout` and `compiler::calls`: where `if` and `while` put their
  jumps, and how function bodies are placed after the main code with every
  call linked to its body;
- `linker`: each object file's code follows that of the files before it, its
  jump targets moved by their length, and a lone file links to itself;
- `cli`: `build` takes exactly a source and an output besides the `-d` flag;
- `errors::colorformat`: text without colour tags is left unchanged, and an
  RGB tag becomes exactly its truecolor sequence.

`app/` holds what touches the outside world: reading and writing files,
walking directories, the project file (`prj.toml`), printing, reading input,
and the floating-point arithmetic of the virtual machine.
The bytecode is written without an optimisation pass: the optimiser's module is
not part of this code base, so `build` links and writes the compiled code as it
is.

`tests/` exercises the library through its public interface.
