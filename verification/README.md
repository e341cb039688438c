# Zarrin

A compiler for the Zarrin language, written in Rust and verified with Verus.

The language has functions, `let` bindings with inference, structs, enums with
payloads, traits and `impl`, `match` with guards and multi-patterns, generic
functions, macros, `extern` declarations, arrays, string interpolation, and the
usual control flow. A `match` must cover its scrutinee: every variant of an
enum, both booleans, or a `_` arm; an arm carrying a guard covers nothing.

Errors (syntax, type, and run time) are reported against the source with a
line, a column and the offending line quoted.

## Layout

`src/` is the library. Every function in it has a contract, and Verus proves it.

| | |
|---|---|
| `text`, `names`, `diagnostic` | text helpers, a map keyed by names, source positions and error reports |
| `ast` | the syntax tree and its model |
| `lexer`, `symbol_laws` | source text to tokens, and keywords and symbols that read back as they are written |
| `grammar`, `parser`, `parse_*` | the grammar as functions on token positions, and the parser that computes them |
| `imports` | imported files in the place of their `import` statements |
| `builtins`, `variants` | signatures of the builtin functions, and which enum a variant name belongs to |
| `typing`, `types`, `env`, `exhaustive`, `typecheck` | the typing rules, and the checker that computes them |
| `check_laws`, `record_laws` | what checking leaves behind, and that it gives the same answer twice |
| `monomorphize` | one concrete copy of a generic function per way it is called |
| `macros` | macros as functions, for the native backend |
| `value`, `primitives` | values, operators and builtins |
| `semantics`, `interp_state`, `codegen` | the machine that runs programs, and the interpreter that is it |
| `run_laws`, `call_laws` | what holds of every program that runs, and of every call |
| `ir` | the instructions of the native backend |
| `native*`, `codegen_llvm` | native code for a program, as a module of these instructions |
| `ir_semantics`, `output` | what the instructions on integers do when they run, and what `print` shows |
| `loops` | turns of a `for`, `break` and `continue` in both backends |
| `executables` | what a whole module does when it runs, and that a program does and prints the same interpreted and compiled |
| `agreement`, `statements`, `bodies` | the interpreter and native code agree on expressions of integers and booleans, on `let`, assignment, `if` and `while` over them, and on what `print` shows of them |

The contracts speak of mathematical models: `TypeV`, `ExprV`, `StmtV` and so on
are what the types of the syntax tree denote; `parsed`, `check_program`,
`expanded`, `step` and `compiled` say what the parser, the checker, the
monomorphizer, the interpreter and the native backend compute.

The interpreter is a machine that takes one small step at a time. Whatever it
needs from the outside (output, the clock, floating-point arithmetic) is an
action that it hands to its host, which answers.

`app/` is the command line: it reads files, is the interpreter's host, and turns
the native backend's instructions into LLVM code.

| Command | |
|---|---|
| `run <file.zr>` | type-check, then execute with the interpreter |
| `check <file.zr>` | type-check only |
| `emit-ast <file.zr>` | print the parsed syntax tree |
| `build <file.zr> [-o out]` | compile to a native executable |

`build` needs LLVM 18, with `LLVM_SYS_180_PREFIX` pointing at the install
prefix; `llc` is taken from there, and `cc` from `PATH` does the linking.

`tests/` runs whole programs through the interpreter, and runs native code on a
small machine that executes it instruction by instruction and stops at any
access outside what is allocated. Each compiled program has to print exactly
what the interpreter prints.

## Memory in native code

Values are reference counted. A value that cannot outlive the expression that
builds it goes on the frame and is released when the statement ends. Everything
else carries a count in the 16 bytes ahead of it, gains an owner when a name or
an aggregate takes it, and is freed, along with whatever it owns, when the last
one lets go. String constants carry a count that never moves.

## Native code and macros

For native code a macro becomes a function for each way in which it is called, told by
the types of the arguments. A call of a macro whose result has no single type is
refused by `build`, as are a loop expression with a value other than an integer and a
variable of the program that is declared with two types.

## License

MIT
