//! An assembler for an 8-bit stack machine with 256 bytes of memory: source text goes through
//! line preprocessing, tokenizing, hygienic macro expansion, lifting into an intermediate
//! representation, peephole optimization, label placement and encoding, into a memory image.
//! A disassembler lists an image back as source, and the C front-end's syntax tree is shared.

pub mod isa;
pub mod syntax;
pub mod ir;
pub mod place;
pub mod lexer;
pub mod macros;
pub mod lift;
pub mod optimize;
pub mod pipeline;
pub mod preprocess;
pub mod cc;
pub mod dasm;
