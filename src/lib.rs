//! Execution core of a register-machine zkVM over the Goldilocks field: operand syntax,
//! assembly and relocation, the bit-exact instruction encoding, memory regions, the
//! interpreter, and the trace tables it fills.
pub mod field;
pub mod hardware;
pub mod text;
pub mod operands;
pub mod instruction;
pub mod memory;
pub mod memory_trace;
pub mod trace;
pub mod process;
pub mod program;
pub mod prophet;
pub mod runner;
pub mod laws;
pub mod assembler;
pub mod columns;
pub mod parser;
pub mod storage;
pub mod services;
