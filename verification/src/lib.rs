//! A verified toolbox for the Little Computer 3 (LC-3).
use vstd::prelude::*;

pub mod bits;
pub mod text;
pub mod opcode;
pub mod pseudo;
pub mod register;
pub mod trap;
pub mod object;
pub mod instruction;
pub mod listing;
pub mod memory;
pub mod registers;
pub mod machine;
pub mod memory_map;
pub mod lexer;
pub mod parser;
pub mod codegen;
pub mod cmd;
pub mod debug;
pub mod repl;
pub mod emulator;
pub mod reading;
pub mod round_trip;
pub mod reassembly;

verus! {
} // verus!
