//! A toolchain for a tiny imperative counter language: an intermediate
//! representation (IR) of integer variables and bounded control flow, a
//! lowering pass from the parsed syntax tree into that IR, a reference
//! evaluator, and a JIT engine that turns an IR program into native code
//! through a control-flow-graph builder backend.

pub mod backend;
pub mod interp;
pub mod ir;
pub mod jit;
pub mod parse;
pub mod sem;
