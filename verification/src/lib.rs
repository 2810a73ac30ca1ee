//! Foundation layer of a virtual machine for parsing expression grammars:
//! sets of byte values backed by bit vectors, and the instruction set of the
//! byte-code that carries them.

pub mod charset;
pub mod isa;
