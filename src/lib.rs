//! An emulated 8-bit computer: memory, a register file, a text-mode
//! instruction engine, a binary loader and runner, and an assembler between
//! the two program forms.
use vstd::prelude::*;

pub mod agreement;
pub mod assembler;
pub mod bios;
pub mod cpu;
pub mod error;
pub mod isa;
pub mod logic_gates;
pub mod motherboard;
pub mod power_supply;
pub mod ram;
pub mod runner;
pub mod text;
pub mod utils;

verus! {

} // verus!
