//! An interpreter for a small TIS-100-style assembly language: a lexer and
//! per-node parser for a fixed 13-mnemonic instruction set, and a tick-driven
//! emulator that advances two-register node state with saturating arithmetic.

pub mod errors;
pub mod text;
pub mod tis100;
pub mod token_error;
