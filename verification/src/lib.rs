//! A text-to-binary assembler for a small stack-based virtual machine.
//!
//! Source text is tokenised, parsed into a flat sequence of symbolic words,
//! label addresses are resolved in a second pass, and a third pass emits the
//! final ROM image: a four-byte header followed by the code-region bytes.
//! Every stage is specified by a pure spec-level model and the executable
//! pipeline is proved to compute exactly what the model says.

pub mod errors;
pub mod text;
pub mod opcode;
pub mod utils;
pub mod tokeniser;
pub mod word;
pub mod avcmacro;
pub mod tables;
pub mod assembler;
