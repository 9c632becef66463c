//! StripVM: a small register machine, the instruction word it shares with its
//! assembler, the assembler itself, and the hosts that give the machine memory.
//!
//! Every executable function in this crate carries a contract that Verus
//! proves. The few functions marked `external_body` wrap calls into other
//! crates; their contracts are believed, not proved, and each says so.

#![allow(non_camel_case_types)]

use vstd::prelude::*;

pub mod compiler;
pub mod debug;
pub mod endian;
pub mod isa;
pub mod led_strip;
pub mod parser;
pub mod text;
pub mod vm;

pub use crate::isa::{get_instructions_type, Instruction, InstructionType, Opcode, Reg};

verus! {

/// What can go wrong on the way from assembly text to a finished run.
#[derive(Debug, Clone, Copy, PartialEq, Eq, Structural)]
pub enum Error {
    /// The text is not a program, or a field of an instruction word names
    /// nothing.
    ParseError,
    /// The assembler refused the program.
    CompilerError(CompilerError),
    /// The machine failed while running.
    VMError,
}

/// Why the assembler refused a program.
#[derive(Debug, Clone, Copy, PartialEq, Eq, Structural)]
pub enum CompilerError {
    /// A register alias, constant or label is used but never defined.
    AliasNotFound,
    /// The contents of an included file were not supplied.
    FileReadFailed,
}

} // verus!
