//! An assembler for the SM83, the processor of the Game Boy, with a source
//! language of S-expressions: the parser, the instruction encoder, sections
//! and labels, the resolution of references, the flat image, and a
//! disassembler.

pub mod arch;
pub mod assembly;
pub mod dasm;
