//! The assembler. `parser` turns text into forms, as `grammar` says of the
//! characters and their classes;
//! `assembler` runs over the forms and changes the `state`; `encoder`
//! finds the bytes of an instruction; `resolver` fills in the addresses of
//! labels, which `interpreter` computes from expressions; `flat` lays the
//! sections out as an image. `laws` holds what follows for all inputs, and
//! `invariants` what every step keeps.

pub mod assembler;
pub mod encoder;
pub mod error;
pub mod flat;
pub mod grammar;
pub mod interpreter;
pub mod invariants;
pub mod laws;
pub mod parser;
pub mod resolver;
pub mod state;
pub mod text;
