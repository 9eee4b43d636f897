//! Disassembly of SC3 (`.scx`) scripts and MES (`.msb`) message files, and
//! the byte-level logic of MPK archives and message rendering.
pub mod text;
pub mod format;
pub mod expr;
pub mod order;
pub mod il;
pub mod msb;
pub mod scx;
pub mod opcode;
pub mod render;
pub mod layout;
pub mod mpk;
pub mod select;
