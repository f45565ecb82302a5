//! Bitwise primitives over 8-bit values.
use vstd::prelude::*;

verus! {

/// The value of each gate, as the functions below compute it.
pub open spec fn and_of(a: u8, b: u8) -> u8 {
    a & b
}

pub open spec fn or_of(a: u8, b: u8) -> u8 {
    a | b
}

pub open spec fn xor_of(a: u8, b: u8) -> u8 {
    a ^ b
}

pub open spec fn not_of(a: u8) -> u8 {
    a ^ 0xffu8
}

pub open spec fn nand_of(a: u8, b: u8) -> u8 {
    !(a & b)
}

pub open spec fn nor_of(a: u8, b: u8) -> u8 {
    !(a | b)
}

pub struct LogicGates;

impl LogicGates {
    pub fn and(a: u8, b: u8) -> (r: u8)
        ensures
            r == and_of(a, b),
    {
        a & b
    }

    pub fn or(a: u8, b: u8) -> (r: u8)
        ensures
            r == or_of(a, b),
    {
        a | b
    }

    pub fn not(a: u8) -> (r: u8)
        ensures
            r == not_of(a),
    {
        let r = !a;
        assert(r == a ^ 0xffu8) by (bit_vector)
            requires
                r == !a,
        ;
        r
    }

    pub fn nand(a: u8, b: u8) -> (r: u8)
        ensures
            r == nand_of(a, b),
    {
        let r = Self::not(Self::and(a, b));
        proof {
            lemma_gate_identities(a, b);
        }
        r
    }

    pub fn nor(a: u8, b: u8) -> (r: u8)
        ensures
            r == nor_of(a, b),
    {
        let r = Self::not(Self::or(a, b));
        proof {
            lemma_gate_identities(a, b);
        }
        r
    }

    pub fn xor(a: u8, b: u8) -> (r: u8)
        ensures
            r == xor_of(a, b),
    {
        a ^ b
    }
}

/// `nand` is `not` after `and`, `nor` is `not` after `or`, and `not`
/// applied twice gives its input back, for all 8-bit inputs.
pub proof fn lemma_gate_identities(a: u8, b: u8)
    ensures
        nand_of(a, b) == not_of(and_of(a, b)),
        nor_of(a, b) == not_of(or_of(a, b)),
        not_of(not_of(a)) == a,
{
    assert(!(a & b) == (a & b) ^ 0xffu8) by (bit_vector);
    assert(!(a | b) == (a | b) ^ 0xffu8) by (bit_vector);
    assert((a ^ 0xffu8) ^ 0xffu8 == a) by (bit_vector);
}

} // verus!
