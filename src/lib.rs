pub mod assembler;
pub mod bimap;
pub mod disassembler;
pub mod errors;
pub mod inst;
pub mod program;
pub mod round_trip;
pub mod text;
pub mod vm;
pub mod word;
