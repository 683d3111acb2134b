//! Execution core of a small bytecode virtual machine: a compact instruction
//! encoding, chunks with a run-length-encoded source-line table, a
//! disassembler that renders instructions back to text, and an interpreter
//! that walks a chunk's instruction stream.

pub mod chunk;
pub mod op;
pub mod text;
pub mod vm;

pub use chunk::Chunk;
pub use chunk::Disassembler;
pub use chunk::OpIter;
pub use op::CodeLocation;
pub use op::OpCode;
pub use op::Typed;
pub use vm::InterpretError;
pub use vm::VM;
