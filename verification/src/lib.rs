//! A verified Universal Machine: a 32-bit word-addressed virtual machine
//! with fourteen opcodes, a segment store that reuses identifiers through a
//! LIFO free list, and a big-endian codec for program images.
//!
//! The machine state lives in [`binary::UM`]; one instruction is executed by
//! [`registers::execute_instruction`] or, fetching from segment 0 first, by
//! [`binary::UM::step`]. Host interaction (reading a byte, writing a byte,
//! halting) is reported to the caller as a [`operations::Effect`], and every
//! fatal condition as a [`operations::Fault`].

pub mod binary;
pub mod bitpack;
pub mod memory;
pub mod operations;
pub mod registers;
