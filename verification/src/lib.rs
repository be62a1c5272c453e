//! A three-stage compiler for a small typed expression language.
//!
//! The language is lowered in two steps: a typed expression tree (`hir`) is
//! compiled into a stack-machine intermediate form (`mir`), which is then
//! assembled into a sequence of single-character tape-machine operations
//! (`lir`).  The tape machine is an extended Brainfuck dialect over an
//! unsigned 32-bit tape with a heap allocator and a dereference stack.

pub mod hir;
pub mod lir;
pub mod mir;
