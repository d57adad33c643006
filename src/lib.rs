//! A small register-and-stack virtual machine and its toolchain.
//!
//! - `codec`: little-endian integers to and from bytes.
//! - `regs`: the register file, twenty cells seen through four widths.
//! - `segment`: the segment table and its permission rules.
//! - `buffer`: the guest memory, a host mapping.
//! - `machine`: the machine's state as values and the meaning of one step.
//! - `cpu`, `memory`, `exec`: the processor, its memory accesses, and its
//!   fetch-decode-execute loop, each proved to follow `machine`.
//! - `word`: packing of instruction words and offset operands.
//! - `object`: the object format, its writer and its loader.
//! - `token`, `parser`, `sema`: the assembler, from source lines to an
//!   encoded unit.
//!
//! Floating-point arithmetic is left to the host: the machine hands each
//! float instruction out as a request on bit patterns, and the assembler
//! asks a `FloatSyntax` to read float literals.
pub mod codec;
pub mod regs;
pub mod segment;
pub mod buffer;
pub mod machine;
pub mod cpu;
pub mod memory;
pub mod exec;
pub mod word;
pub mod object;
pub mod token;
pub mod parser;
pub mod sema;
