//! Dōji's execution core: values, a tracing heap, bytecode, fibers and the
//! cooperative scheduler that runs them.

pub mod operand;
pub mod opcode;
pub mod instruction;
pub mod text;
pub mod value;
pub mod error;
pub mod fiber;
pub mod heap;
pub mod function;
pub mod ops;
pub mod container;
pub mod state;
pub mod engine;
pub mod compile;
pub mod laws;
