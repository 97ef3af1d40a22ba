//! A compile-and-execute engine for a small Prolog-family logic language:
//! AST lowering passes, a bytecode compiler, a persistent union-find binding
//! store, and a stack-oriented virtual machine with backtracking.

pub mod ast;
pub mod ast_common;
pub mod builtins;
pub mod domains;
pub mod ir;
pub mod ir_gen;
pub mod pstore;
pub mod strings;
pub mod unification;
pub mod vm;
