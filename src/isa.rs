//! The instruction set: mnemonics, comparison operators and binary opcodes.
use vstd::prelude::*;
use crate::text::is_word;

verus! {

/// The mnemonics of the text dialect.
#[derive(Clone, Copy, Debug, PartialEq, Eq, Structural)]
pub enum Op {
    Load,
    Store,
    Add,
    And,
    Or,
    Nand,
    Nor,
    Xor,
    Not,
    Mov,
    Qmov,
    Init,
    Clear,
    Out,
    Ver,
    If,
    Halt,
}

/// The comparison operators of an `IF` condition.
#[derive(Clone, Copy, Debug, PartialEq, Eq, Structural)]
pub enum Cmp {
    Eq,
    Ne,
    Gt,
    Lt,
    Ge,
    Le,
}

/// The mnemonic that a token spells, matched exactly and case-sensitively.
pub open spec fn op_of(t: Seq<char>) -> Option<Op> {
    if t == "LOAD"@ {
        Some(Op::Load)
    } else if t == "STORE"@ {
        Some(Op::Store)
    } else if t == "ADD"@ {
        Some(Op::Add)
    } else if t == "AND"@ {
        Some(Op::And)
    } else if t == "OR"@ {
        Some(Op::Or)
    } else if t == "NAND"@ {
        Some(Op::Nand)
    } else if t == "NOR"@ {
        Some(Op::Nor)
    } else if t == "XOR"@ {
        Some(Op::Xor)
    } else if t == "NOT"@ {
        Some(Op::Not)
    } else if t == "MOV"@ {
        Some(Op::Mov)
    } else if t == "QMOV"@ {
        Some(Op::Qmov)
    } else if t == "INIT"@ {
        Some(Op::Init)
    } else if t == "CLEAR"@ {
        Some(Op::Clear)
    } else if t == "OUT"@ {
        Some(Op::Out)
    } else if t == "VER"@ {
        Some(Op::Ver)
    } else if t == "IF"@ {
        Some(Op::If)
    } else if t == "HALT"@ {
        Some(Op::Halt)
    } else {
        None
    }
}

/// The comparison operator that a token spells.
pub open spec fn cmp_of(t: Seq<char>) -> Option<Cmp> {
    if t == "=="@ {
        Some(Cmp::Eq)
    } else if t == "!="@ {
        Some(Cmp::Ne)
    } else if t == ">"@ {
        Some(Cmp::Gt)
    } else if t == "<"@ {
        Some(Cmp::Lt)
    } else if t == ">="@ {
        Some(Cmp::Ge)
    } else if t == "<="@ {
        Some(Cmp::Le)
    } else {
        None
    }
}

/// Whether `a <op> b` holds, over unsigned 8-bit values.
pub open spec fn holds(c: Cmp, a: u8, b: u8) -> bool {
    match c {
        Cmp::Eq => a == b,
        Cmp::Ne => a != b,
        Cmp::Gt => a > b,
        Cmp::Lt => a < b,
        Cmp::Ge => a >= b,
        Cmp::Le => a <= b,
    }
}

pub fn decode_op(t: &Vec<char>) -> (r: Option<Op>)
    ensures
        r == op_of(t@),
{
    if is_word(t, "LOAD") {
        Some(Op::Load)
    } else if is_word(t, "STORE") {
        Some(Op::Store)
    } else if is_word(t, "ADD") {
        Some(Op::Add)
    } else if is_word(t, "AND") {
        Some(Op::And)
    } else if is_word(t, "OR") {
        Some(Op::Or)
    } else if is_word(t, "NAND") {
        Some(Op::Nand)
    } else if is_word(t, "NOR") {
        Some(Op::Nor)
    } else if is_word(t, "XOR") {
        Some(Op::Xor)
    } else if is_word(t, "NOT") {
        Some(Op::Not)
    } else if is_word(t, "MOV") {
        Some(Op::Mov)
    } else if is_word(t, "QMOV") {
        Some(Op::Qmov)
    } else if is_word(t, "INIT") {
        Some(Op::Init)
    } else if is_word(t, "CLEAR") {
        Some(Op::Clear)
    } else if is_word(t, "OUT") {
        Some(Op::Out)
    } else if is_word(t, "VER") {
        Some(Op::Ver)
    } else if is_word(t, "IF") {
        Some(Op::If)
    } else if is_word(t, "HALT") {
        Some(Op::Halt)
    } else {
        None
    }
}

pub fn decode_cmp(t: &Vec<char>) -> (r: Option<Cmp>)
    ensures
        r == cmp_of(t@),
{
    if is_word(t, "==") {
        Some(Cmp::Eq)
    } else if is_word(t, "!=") {
        Some(Cmp::Ne)
    } else if is_word(t, ">") {
        Some(Cmp::Gt)
    } else if is_word(t, "<") {
        Some(Cmp::Lt)
    } else if is_word(t, ">=") {
        Some(Cmp::Ge)
    } else if is_word(t, "<=") {
        Some(Cmp::Le)
    } else {
        None
    }
}

pub fn compare(c: Cmp, a: u8, b: u8) -> (r: bool)
    ensures
        r == holds(c, a, b),
{
    match c {
        Cmp::Eq => a == b,
        Cmp::Ne => a != b,
        Cmp::Gt => a > b,
        Cmp::Lt => a < b,
        Cmp::Ge => a >= b,
        Cmp::Le => a <= b,
    }
}

pub const OP_LOAD: u8 = 0x01;
pub const OP_STORE: u8 = 0x02;
pub const OP_ADD: u8 = 0x03;
pub const OP_AND: u8 = 0x04;
pub const OP_OR: u8 = 0x05;
pub const OP_XOR: u8 = 0x06;
pub const OP_NOT: u8 = 0x07;
pub const OP_JUMP: u8 = 0x08;
pub const OP_INIT: u8 = 0x09;
pub const OP_OUT: u8 = 0x0a;
pub const OP_CLEAR: u8 = 0x0b;
pub const OP_VER: u8 = 0xfe;
pub const OP_HALT: u8 = 0xff;

} // verus!
