//! Two-pass assembler core for a small 8-bit instruction set: a label map
//! builder that assigns each label the 32-byte page of the instruction after
//! it, and a lowerer that validates operands and encodes the byte image.

pub mod ast;
pub mod label_map;
pub mod lowerer;
