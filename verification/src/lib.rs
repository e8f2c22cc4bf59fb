//! Fuzzy duplicate detection for disassembled functions.
//!
//! The crate parses disassembly listings into functions, reduces each
//! instruction to a coarse signature byte, and clusters functions whose
//! signature sequences are close under normalized edit distance.

pub mod bucket;
pub mod compare;
pub mod edit;
pub mod function;
pub mod include_asm;
pub mod instr;
pub mod names;
pub mod parse;
pub mod report;
pub mod text;
pub mod windows;
