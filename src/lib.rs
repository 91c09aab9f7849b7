//! A 16-bit RISC platform, verified: the instruction set definition and its
//! opcode table, the instruction codec, the microcoded CPU with its MMU, the
//! memory devices and system bus, boot images in Intel HEX form, and the
//! two-pass assembler with its lexer, expression evaluator and scoped
//! symbol table.

pub mod util;

// Instruction set and CPU.
pub mod cpu;
pub mod cpu_types;
pub mod disassembler;
pub mod instruction;
pub mod isa;
pub mod memory;
pub mod microcode;

// Boot images.
pub mod image;

// Assembler.
pub mod asm_error;
pub mod assembler;
pub mod expr;
pub mod lexer;
pub mod names;
pub mod symbols;
