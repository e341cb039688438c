//! The Zarrin language: lexer, parser, type checker, monomorphizer,
//! interpreter and native backend, each with a contract that says what it
//! computes.

pub mod agreement;
pub mod ast;
pub mod bodies;
pub mod builtins;
pub mod call_laws;
pub mod check_laws;
pub mod codegen;
pub mod codegen_llvm;
pub mod coverage_laws;
pub mod diagnostic;
pub mod env;
pub mod executables;
pub mod exhaustive;
pub mod grammar;
pub mod grammar_laws;
pub mod imports;
pub mod interp_state;
pub mod ir;
pub mod ir_semantics;
pub mod lexer;
pub mod list_laws;
pub mod lookup_laws;
pub mod loops;
pub mod macros;
pub mod monomorphize;
pub mod names;
pub mod native;
pub mod native_expr;
pub mod native_ops;
pub mod native_rt;
pub mod native_stmt;
pub mod natural;
pub mod output;
pub mod parse_decl;
pub mod parse_expr;
pub mod parse_stmt;
pub mod parser;
pub mod primitives;
pub mod record_laws;
pub mod run_laws;
pub mod semantics;
pub mod statements;
pub mod string_laws;
pub mod symbol_laws;
pub mod text;
pub mod token_laws;
pub mod typecheck;
pub mod types;
pub mod typing;
pub mod typing_laws;
pub mod value;
pub mod value_laws;
pub mod variants;
