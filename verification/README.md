# dummy_cc

A small compiler for a C-like language, targeting RV32IM, written in Verus: every stage of
the library states what it computes in `requires`/`ensures` contracts over mathematical
models, and Verus proves the code against them.

## Layout

- `src/lexer/`: tokens and the lexer (`lexer.rs`), and the lexer with the basic vocabulary
  (`lexer_impl.rs`).
- `src/ast/`: types of the language and the syntax tree, with its printer.
- `src/parser/`: the recursive descent parser from tokens to syntax tree (`parser.rs`), the
  symbol table, scope resolution and the suggestion of close names.
- `src/lirgen/`: the linear intermediate representation (`irnode.rs`), its generation from the
  syntax tree (`lirgen.rs`), the proof that every function is in single-assignment form
  (`ssa.rs`) and the laws of its caches (`caches.rs`); a second generator whose caches are lists
  searched from their first entry and cleared at the end of each branch or loop
  (`lirgen_impl.rs`), with its own single-assignment proof (`list_ssa.rs`).
- `src/optimizer/`: control flow removal and dead code removal, with the laws they keep.
- `src/backend/`: RV32IM instructions and their assembly text (`riscv_isa.rs`), and code
  generation: instruction selection, activation records and register allocation
  (`codegen_riscv.rs`).
- `src/text.rs`: string helpers shared by the printers.
- `app/main.rs`: the command-line driver (file reading, argument parsing, lexing and parsing,
  error reports, printing of the tree).
- `tests/`: tests on concrete programs.
