//! The power supply that the board hangs off.
use vstd::prelude::*;
use crate::motherboard::Motherboard;

verus! {

pub struct PowerSupply {
    pub motherboard: Motherboard,
}

impl PowerSupply {
    pub fn new(motherboard: Motherboard) -> (p: Self)
        ensures
            p.motherboard.cpu@ == motherboard.cpu@,
    {
        PowerSupply { motherboard }
    }
}

} // verus!
