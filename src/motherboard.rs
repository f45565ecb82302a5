//! The board that carries the processor.
use vstd::prelude::*;
use crate::cpu::CPU;

verus! {

pub struct Motherboard {
    pub cpu: CPU,
}

impl Motherboard {
    pub fn new(cpu: CPU) -> (m: Self)
        ensures
            m.cpu@ == cpu@,
    {
        Motherboard { cpu }
    }
}

} // verus!
