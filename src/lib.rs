//! Execution tracing for a stack-based Wasm interpreter, and the front end of
//! the translator that lowers Wasm bytecode into the interpreter's instructions.

pub mod control_stack;
pub mod core_types;
pub mod func_builder;
pub mod inst_builder;
pub mod isa;
pub mod tracer;
pub mod value_stack;
