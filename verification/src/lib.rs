//! A small compiler for a C-like language: source text is parsed into a
//! syntax tree, a function of the tree is lowered into a control-flow graph
//! of basic blocks, and the graph is handed to LLVM.
//!
//! - `internal_representations::gast`: the syntax tree.
//! - `grammar`, `parser`: the concrete syntax, and the parser that computes it.
//! - `ir`: the control-flow representation and its structural verification.
//! - `lowering`: what lowering does, as functions on the build context.
//! - `code_generator`: the build context and the lowering that runs.
//! - `locality`, `validity`, `repeat`, `straight`, `meaning`, `laws`: what
//!   holds of every lowering.
//! - `operands`: what a code generator may rely on in a lowered function.
//! - `semantics`: what a lowered function computes, and an interpreter.
//! - `counting`: a loop that counts to `k` runs its body `k` times.
//! - `backend`: the replay of a lowered function into LLVM.
//! - `state_machine`: the stage driver, its data and the tree of source files.

pub mod backend;
pub mod code_generator;
pub mod counting;
pub mod grammar;
pub mod internal_representations;
pub mod ir;
pub mod laws;
pub mod locality;
pub mod lowering;
pub mod meaning;
pub mod operands;
pub mod parser;
pub mod repeat;
pub mod semantics;
pub mod state_machine;
pub mod straight;
pub mod validity;
