//! The text-mode execution engine: the register file, the verbose flag and
//! the decode/execute step for one instruction line.
use vstd::prelude::*;
use crate::error::MachineError;
use crate::isa::{Cmp, Op, cmp_of, compare, decode_cmp, decode_op, holds, op_of};
use crate::logic_gates::{LogicGates, and_of, nand_of, nor_of, not_of, or_of, xor_of};
use crate::ram::{RAM, RAM_SIZE};
use crate::text::{
    address_of_operand, chars_of, immediate_of, is_word, parse_address_operand, parse_immediate_chars,
    parse_register_chars, register_of, starts_with, tok_view, tokenize, tokens_of,
};

verus! {

/// Number of general-purpose registers.
pub const REGISTER_COUNT: usize = 8;

/// A line of output that the machine produces.
#[derive(Clone, Copy, Debug, PartialEq, Eq, Structural)]
pub enum Event {
    /// What `OUT` shows: a register and its contents, or an immediate value.
    Out { register: Option<usize>, value: u8 },
    /// A diagnostic line of verbose mode, after an instruction of this kind,
    /// with the value it stored, moved or compared.
    Trace { op: Op, value: u8 },
}

/// The machine as the contracts see it: memory cells, registers, the
/// verbose flag, and the output not yet collected.
pub struct MachineState {
    pub mem: Seq<u8>,
    pub regs: Seq<u8>,
    pub verbose: bool,
    pub events: Seq<Event>,
}

/// Result of executing one line: the new state and whether to go on, or the
/// error (the state then stays as it was).
pub type Outcome = Result<(MachineState, bool), MachineError>;

pub open spec fn with_reg(s: MachineState, r: int, v: u8) -> MachineState {
    MachineState { regs: s.regs.update(r, v), ..s }
}

pub open spec fn with_mem(s: MachineState, a: int, v: u8) -> MachineState {
    MachineState { mem: s.mem.update(a, v), ..s }
}

/// `s` with a diagnostic line, when verbose mode is on.
pub open spec fn traced(s: MachineState, op: Op, v: u8) -> MachineState {
    if s.verbose {
        MachineState { events: s.events.push(Event::Trace { op, value: v }), ..s }
    } else {
        s
    }
}

/// Sum modulo 256.
pub open spec fn wrap_add(a: u8, b: u8) -> u8 {
    ((a + b) % 256) as u8
}

/// The result of a three-register instruction on the two source values.
pub open spec fn alu(op: Op, a: u8, b: u8) -> u8 {
    match op {
        Op::Add => wrap_add(a, b),
        Op::And => and_of(a, b),
        Op::Or => or_of(a, b),
        Op::Nand => nand_of(a, b),
        Op::Nor => nor_of(a, b),
        _ => xor_of(a, b),
    }
}

pub open spec fn is_alu(op: Op) -> bool {
    op == Op::Add || op == Op::And || op == Op::Or || op == Op::Nand || op == Op::Nor || op
        == Op::Xor
}

/// Number of tokens, mnemonic included, that each mnemonic but `IF` takes.
pub open spec fn arity(op: Op) -> nat {
    match op {
        Op::Load | Op::Store | Op::Not | Op::Mov | Op::Qmov | Op::Ver => 3,
        Op::Add | Op::And | Op::Or | Op::Nand | Op::Nor | Op::Xor | Op::Init => 4,
        Op::Clear | Op::Out => 2,
        _ => 1,
    }
}

pub open spec fn reg_result(t: Seq<char>) -> Result<usize, MachineError> {
    match register_of(t) {
        Some(r) => Ok(r),
        None => Err(MachineError::InvalidRegister),
    }
}

pub open spec fn addr_result(t: Seq<char>) -> Result<usize, MachineError> {
    match address_of_operand(t) {
        Some(a) => Ok(a),
        None => Err(MachineError::InvalidAddress),
    }
}

pub open spec fn imm_result(t: Seq<char>) -> Result<u8, MachineError> {
    match immediate_of(t) {
        Some(v) => Ok(v),
        None => Err(MachineError::InvalidImmediate),
    }
}

/// The value that a source operand stands for: a register's contents
/// (`R...`), a memory cell (`[...]`), or an immediate.
pub open spec fn source_value(s: MachineState, t: Seq<char>) -> Result<u8, MachineError> {
    if starts_with(t, 'R') {
        match reg_result(t) {
            Ok(r) => Ok(s.regs[r as int]),
            Err(e) => Err(e),
        }
    } else if starts_with(t, '[') {
        match addr_result(t) {
            Ok(a) => Ok(s.mem[a as int]),
            Err(e) => Err(e),
        }
    } else {
        imm_result(t)
    }
}

/// Stores `v` where the destination operand `t` points.
pub open spec fn store_to(s: MachineState, t: Seq<char>, v: u8) -> Result<
    MachineState,
    MachineError,
> {
    if starts_with(t, 'R') {
        match reg_result(t) {
            Ok(r) => Ok(with_reg(s, r as int, v)),
            Err(e) => Err(e),
        }
    } else if starts_with(t, '[') {
        match addr_result(t) {
            Ok(a) => Ok(with_mem(s, a as int, v)),
            Err(e) => Err(e),
        }
    } else {
        Err(MachineError::InvalidDestination)
    }
}

/// One instruction other than `IF`, whose token count is right.
#[verifier::opaque]
pub open spec fn step_plain(s: MachineState, op: Op, t: Seq<Seq<char>>) -> Outcome {
    match op {
        Op::Load => match (reg_result(t[1]), addr_result(t[2])) {
            (Err(e), _) => Err(e),
            (Ok(_), Err(e)) => Err(e),
            (Ok(r), Ok(a)) => Ok(
                (traced(with_reg(s, r as int, s.mem[a as int]), op, s.mem[a as int]), true),
            ),
        },
        Op::Store => match (reg_result(t[1]), addr_result(t[2])) {
            (Err(e), _) => Err(e),
            (Ok(_), Err(e)) => Err(e),
            (Ok(r), Ok(a)) => Ok(
                (traced(with_mem(s, a as int, s.regs[r as int]), op, s.regs[r as int]), true),
            ),
        },
        Op::Add | Op::And | Op::Or | Op::Nand | Op::Nor | Op::Xor => match (
            reg_result(t[1]),
            reg_result(t[2]),
            reg_result(t[3]),
        ) {
            (Err(e), _, _) => Err(e),
            (Ok(_), Err(e), _) => Err(e),
            (Ok(_), Ok(_), Err(e)) => Err(e),
            (Ok(a), Ok(b), Ok(c)) => {
                let v = alu(op, s.regs[a as int], s.regs[b as int]);
                Ok((traced(with_reg(s, c as int, v), op, v), true))
            },
        },
        Op::Not => match (reg_result(t[1]), reg_result(t[2])) {
            (Err(e), _) => Err(e),
            (Ok(_), Err(e)) => Err(e),
            (Ok(a), Ok(b)) => {
                let v = not_of(s.regs[a as int]);
                Ok((traced(with_reg(s, b as int, v), op, v), true))
            },
        },
        Op::Mov => match source_value(s, t[2]) {
            Err(e) => Err(e),
            Ok(v) => match store_to(s, t[1], v) {
                Err(e) => Err(e),
                Ok(s2) => Ok((traced(s2, op, v), true)),
            },
        },
        Op::Qmov => if starts_with(t[2], 'R') && starts_with(t[1], '[') {
            match (reg_result(t[2]), addr_result(t[1])) {
                (Err(e), _) => Err(e),
                (Ok(_), Err(e)) => Err(e),
                (Ok(r), Ok(a)) => {
                    let v = s.regs[r as int];
                    Ok((traced(with_reg(with_mem(s, a as int, v), r as int, 0), op, v), true))
                },
            }
        } else if starts_with(t[2], '[') && starts_with(t[1], 'R') {
            match (addr_result(t[2]), reg_result(t[1])) {
                (Err(e), _) => Err(e),
                (Ok(_), Err(e)) => Err(e),
                (Ok(a), Ok(r)) => {
                    let v = s.mem[a as int];
                    Ok((traced(with_mem(with_reg(s, r as int, v), a as int, 0), op, v), true))
                },
            }
        } else {
            Err(MachineError::InvalidOperandCombination)
        },
        Op::Init => if t[2] != "="@ {
            Err(MachineError::SyntaxError)
        } else {
            match (addr_result(t[1]), imm_result(t[3])) {
                (Err(e), _) => Err(e),
                (Ok(_), Err(e)) => Err(e),
                (Ok(a), Ok(v)) => Ok((traced(with_mem(s, a as int, v), op, v), true)),
            }
        },
        Op::Clear => if starts_with(t[1], 'R') {
            match reg_result(t[1]) {
                Err(e) => Err(e),
                Ok(r) => Ok((traced(with_reg(s, r as int, 0), op, 0), true)),
            }
        } else {
            match addr_result(t[1]) {
                Err(e) => Err(e),
                Ok(a) => Ok((traced(with_mem(s, a as int, 0), op, 0), true)),
            }
        },
        Op::Out => if starts_with(t[1], 'R') {
            match reg_result(t[1]) {
                Err(e) => Err(e),
                Ok(r) => Ok(
                    (
                        MachineState {
                            events: s.events.push(
                                Event::Out { register: Some(r), value: s.regs[r as int] },
                            ),
                            ..s
                        },
                        true,
                    ),
                ),
            }
        } else {
            match imm_result(t[1]) {
                Err(e) => Err(e),
                Ok(v) => Ok(
                    (
                        MachineState {
                            events: s.events.push(Event::Out { register: None, value: v }),
                            ..s
                        },
                        true,
                    ),
                ),
            }
        },
        Op::Ver => match imm_result(t[2]) {
            Err(e) => Err(e),
            Ok(v) => if v > 1 {
                Err(MachineError::InvalidFlag)
            } else {
                Ok((traced(MachineState { verbose: v == 1, ..s }, op, v), true))
            },
        },
        _ => Ok((s, false)),
    }
}

/// Index of the first token from `i` on that equals `w`, or the length of
/// `t` if there is none.
pub open spec fn position_of(t: Seq<Seq<char>>, w: Seq<char>, i: int) -> int
    decreases t.len() - i,
{
    if i >= t.len() {
        t.len() as int
    } else if t[i] == w {
        i
    } else {
        position_of(t, w, i + 1)
    }
}

pub proof fn lemma_position_bounds(t: Seq<Seq<char>>, w: Seq<char>, i: int)
    requires
        0 <= i <= t.len(),
    ensures
        i <= position_of(t, w, i) <= t.len(),
    decreases t.len() - i,
{
    if i < t.len() && t[i] != w {
        lemma_position_bounds(t, w, i + 1);
    }
}

/// `IF Ra <op> x THEN a... [ELSE b...]`: compares register `Ra` with the
/// operand `x` and runs the tokens `a...` if the comparison holds, else the
/// tokens `b...` if there is an `ELSE`. The clause runs as a full
/// instruction, so a `HALT` in it halts the machine; with no clause to run
/// the machine goes on.
pub open spec fn run_if(s: MachineState, t: Seq<Seq<char>>) -> Outcome
    decreases t.len(), 0nat,
{
    let then_at = position_of(t, "THEN"@, 0);
    if then_at >= t.len() {
        Err(MachineError::SyntaxError)
    } else if then_at != 4 || cmp_of(t[2]) is None {
        Err(MachineError::InvalidCondition)
    } else {
        match (reg_result(t[1]), source_value(s, t[3])) {
            (Err(e), _) => Err(e),
            (Ok(_), Err(e)) => Err(e),
            (Ok(r), Ok(v)) => {
                let rest = t.skip(5);
                let else_at = position_of(rest, "ELSE"@, 0);
                let s1 = traced(s, Op::If, v);
                proof {
                    lemma_position_bounds(rest, "ELSE"@, 0);
                }
                if holds(cmp_of(t[2])->Some_0, s.regs[r as int], v) {
                    run_tokens(s1, rest.take(else_at))
                } else if else_at < rest.len() {
                    run_tokens(s1, rest.skip(else_at + 1))
                } else {
                    Ok((s1, true))
                }
            },
        }
    }
}

/// Executes a tokenized line: an empty one goes on, an unknown mnemonic or a
/// wrong token count fails, anything else is decoded and applied.
pub open spec fn run_tokens(s: MachineState, t: Seq<Seq<char>>) -> Outcome
    decreases t.len(), 1nat,
{
    if t.len() == 0 {
        Ok((s, true))
    } else {
        match op_of(t[0]) {
            None => Err(MachineError::UnknownInstruction),
            Some(Op::If) => run_if(s, t),
            Some(op) => if t.len() != arity(op) {
                Err(MachineError::ArityError { mnemonic: op, tokens: t.len() as usize })
            } else {
                step_plain(s, op, t)
            },
        }
    }
}

/// `after` and `r` are what executing to `o` from `before` gives: the new
/// state and the flag, or the error with the state unchanged.
pub open spec fn outcome_holds(
    before: MachineState,
    after: MachineState,
    r: Result<bool, MachineError>,
    o: Outcome,
) -> bool {
    match o {
        Ok((s2, c)) => r == Ok::<bool, MachineError>(c) && after == s2,
        Err(e) => r == Err::<bool, MachineError>(e) && after == before,
    }
}

/// The processor: memory, eight 8-bit registers, the verbose flag and the
/// lines of output not yet collected.
pub struct CPU {
    ram: RAM,
    registers: [u8; REGISTER_COUNT],
    verbose: bool,
    events: Vec<Event>,
}

impl View for CPU {
    type V = MachineState;

    closed spec fn view(&self) -> MachineState {
        MachineState {
            mem: self.ram@,
            regs: self.registers@,
            verbose: self.verbose,
            events: self.events@,
        }
    }
}

fn reg_operand(t: &Vec<char>) -> (r: Result<usize, MachineError>)
    ensures
        r == reg_result(t@),
        r matches Ok(i) ==> i < REGISTER_COUNT,
{
    match parse_register_chars(t) {
        Some(i) => Ok(i),
        None => Err(MachineError::InvalidRegister),
    }
}

fn addr_operand(t: &Vec<char>) -> (r: Result<usize, MachineError>)
    ensures
        r == addr_result(t@),
        r matches Ok(a) ==> a < RAM_SIZE,
{
    match parse_address_operand(t) {
        Some(a) => Ok(a),
        None => Err(MachineError::InvalidAddress),
    }
}

fn imm_operand(t: &Vec<char>) -> (r: Result<u8, MachineError>)
    ensures
        r == imm_result(t@),
{
    match parse_immediate_chars(t) {
        Some(v) => Ok(v),
        None => Err(MachineError::InvalidImmediate),
    }
}

fn starts(t: &Vec<char>, c: char) -> (b: bool)
    ensures
        b == starts_with(t@, c),
{
    t.len() > 0 && t[0] == c
}

/// Index of the first token equal to `w` in `t[lo..hi]`, or `hi`.
fn find_word(t: &Vec<Vec<char>>, w: &str, lo: usize, hi: usize) -> (p: usize)
    requires
        lo <= hi <= t@.len(),
    ensures
        lo <= p <= hi,
        p - lo == position_of(tok_view(t@).subrange(lo as int, hi as int), w@, 0),
{
    let ghost sub = tok_view(t@).subrange(lo as int, hi as int);
    let mut i: usize = lo;
    while i < hi
        invariant
            lo <= i <= hi <= t@.len(),
            sub == tok_view(t@).subrange(lo as int, hi as int),
            position_of(sub, w@, i - lo) == position_of(sub, w@, 0),
        decreases hi - i,
    {
        if is_word(&t[i], w) {
            return i;
        }
        i = i + 1;
    }
    i
}

impl CPU {
    /// A processor over the given memory, with every register zero and
    /// verbose mode off.
    pub fn new(ram: RAM) -> (c: Self)
        ensures
            c@ == (MachineState {
                mem: ram@,
                regs: Seq::new(REGISTER_COUNT as nat, |i: int| 0u8),
                verbose: false,
                events: Seq::empty(),
            }),
    {
        let c = CPU { ram, registers: [0u8; REGISTER_COUNT], verbose: false, events: Vec::new() };
        assert(c@.regs =~= Seq::new(REGISTER_COUNT as nat, |i: int| 0u8));
        assert(c@.events =~= Seq::<Event>::empty());
        c
    }

    /// Memory has `RAM_SIZE` cells and there are `REGISTER_COUNT` registers.
    pub proof fn lemma_shape(&self)
        ensures
            self@.mem.len() == RAM_SIZE,
            self@.regs.len() == REGISTER_COUNT,
    {
        self.ram.lemma_size();
    }

    /// Contents of register `i`.
    pub fn register(&self, i: usize) -> (v: u8)
        requires
            i < REGISTER_COUNT,
        ensures
            v == self@.regs[i as int],
    {
        self.registers[i]
    }

    /// The memory the processor works on.
    pub fn ram(&self) -> (r: &RAM)
        ensures
            r@ == self@.mem,
    {
        &self.ram
    }

    pub(crate) fn byte_at(&self, a: usize) -> (r: Result<u8, MachineError>)
        ensures
            a < RAM_SIZE ==> r == Ok::<u8, MachineError>(self@.mem[a as int]),
            a >= RAM_SIZE ==> r == Err::<u8, MachineError>(MachineError::OutOfBounds(a)),
    {
        self.ram.read(a)
    }

    pub fn is_verbose(&self) -> (b: bool)
        ensures
            b == self@.verbose,
    {
        self.verbose
    }

    /// Hands out the output produced so far and forgets it.
    pub fn take_events(&mut self) -> (r: Vec<Event>)
        ensures
            r@ == old(self)@.events,
            final(self)@ == (MachineState { events: Seq::empty(), ..old(self)@ }),
    {
        let mut r: Vec<Event> = Vec::new();
        r.append(&mut self.events);
        assert(r@ =~= old(self)@.events);
        r
    }

    pub(crate) fn set_reg(&mut self, r: usize, v: u8)
        requires
            r < REGISTER_COUNT,
        ensures
            final(self)@ == with_reg(old(self)@, r as int, v),
    {
        self.registers[r] = v;
    }

    pub(crate) fn mem_at(&self, a: usize) -> (v: u8)
        requires
            a < RAM_SIZE,
        ensures
            v == self@.mem[a as int],
    {
        proof {
            self.ram.lemma_size();
        }
        match self.ram.read(a) {
            Ok(v) => v,
            Err(_) => 0,
        }
    }

    pub(crate) fn set_mem(&mut self, a: usize, v: u8)
        requires
            a < RAM_SIZE,
        ensures
            final(self)@ == with_mem(old(self)@, a as int, v),
    {
        let _ = self.ram.write(a, v);
    }

    fn trace(&mut self, op: Op, v: u8)
        ensures
            final(self)@ == traced(old(self)@, op, v),
    {
        if self.verbose {
            self.events.push(Event::Trace { op, value: v });
        }
    }

    fn emit(&mut self, e: Event)
        ensures
            final(self)@ == (MachineState { events: old(self)@.events.push(e), ..old(self)@ }),
    {
        self.events.push(e);
    }

    fn source(&self, t: &Vec<char>) -> (r: Result<u8, MachineError>)
        ensures
            r == source_value(self@, t@),
    {
        if starts(t, 'R') {
            match reg_operand(t) {
                Ok(i) => Ok(self.registers[i]),
                Err(e) => Err(e),
            }
        } else if starts(t, '[') {
            match addr_operand(t) {
                Ok(a) => Ok(self.mem_at(a)),
                Err(e) => Err(e),
            }
        } else {
            imm_operand(t)
        }
    }

    fn store(&mut self, t: &Vec<char>, v: u8) -> (r: Result<(), MachineError>)
        ensures
            match store_to(old(self)@, t@, v) {
                Ok(s2) => r is Ok && final(self)@ == s2,
                Err(e) => r == Err::<(), MachineError>(e) && final(self)@ == old(self)@,
            },
    {
        if starts(t, 'R') {
            match reg_operand(t) {
                Ok(i) => {
                    self.set_reg(i, v);
                    Ok(())
                },
                Err(e) => Err(e),
            }
        } else if starts(t, '[') {
            match addr_operand(t) {
                Ok(a) => {
                    self.set_mem(a, v);
                    Ok(())
                },
                Err(e) => Err(e),
            }
        } else {
            Err(MachineError::InvalidDestination)
        }
    }
}

impl CPU {
    fn exec_load_store(&mut self, op: Op, t: &Vec<Vec<char>>, lo: usize) -> (r: Result<
        bool,
        MachineError,
    >)
        requires
            op == Op::Load || op == Op::Store,
            lo + 3 <= t.len(),
        ensures
            outcome_holds(
                old(self)@,
                final(self)@,
                r,
                step_plain(old(self)@, op, tok_view(t@).subrange(lo as int, lo + 3)),
            ),
    {
        reveal(step_plain);
        let ghost tv = tok_view(t@).subrange(lo as int, lo + 3);
        assert(tv[1] == t@[lo + 1]@ && tv[2] == t@[lo + 2]@);
        let r = match reg_operand(&t[lo + 1]) {
            Ok(r) => r,
            Err(e) => return Err(e),
        };
        let a = match addr_operand(&t[lo + 2]) {
            Ok(a) => a,
            Err(e) => return Err(e),
        };
        if op == Op::Load {
            let v = self.mem_at(a);
            self.set_reg(r, v);
            self.trace(op, v);
        } else {
            let v = self.registers[r];
            self.set_mem(a, v);
            self.trace(op, v);
        }
        Ok(true)
    }

    fn exec_alu(&mut self, op: Op, t: &Vec<Vec<char>>, lo: usize) -> (r: Result<bool, MachineError>)
        requires
            is_alu(op),
            lo + 4 <= t.len(),
        ensures
            outcome_holds(
                old(self)@,
                final(self)@,
                r,
                step_plain(old(self)@, op, tok_view(t@).subrange(lo as int, lo + 4)),
            ),
    {
        reveal(step_plain);
        let ghost tv = tok_view(t@).subrange(lo as int, lo + 4);
        assert(tv[1] == t@[lo + 1]@ && tv[2] == t@[lo + 2]@ && tv[3] == t@[lo + 3]@);
        let a = match reg_operand(&t[lo + 1]) {
            Ok(r) => r,
            Err(e) => return Err(e),
        };
        let b = match reg_operand(&t[lo + 2]) {
            Ok(r) => r,
            Err(e) => return Err(e),
        };
        let c = match reg_operand(&t[lo + 3]) {
            Ok(r) => r,
            Err(e) => return Err(e),
        };
        let x = self.registers[a];
        let y = self.registers[b];
        let v = match op {
            Op::Add => ((x as u16 + y as u16) % 256) as u8,
            Op::And => LogicGates::and(x, y),
            Op::Or => LogicGates::or(x, y),
            Op::Nand => LogicGates::nand(x, y),
            Op::Nor => LogicGates::nor(x, y),
            _ => LogicGates::xor(x, y),
        };
        self.set_reg(c, v);
        self.trace(op, v);
        Ok(true)
    }

    fn exec_not(&mut self, t: &Vec<Vec<char>>, lo: usize) -> (r: Result<bool, MachineError>)
        requires
            lo + 3 <= t.len(),
        ensures
            outcome_holds(
                old(self)@,
                final(self)@,
                r,
                step_plain(old(self)@, Op::Not, tok_view(t@).subrange(lo as int, lo + 3)),
            ),
    {
        reveal(step_plain);
        let ghost tv = tok_view(t@).subrange(lo as int, lo + 3);
        assert(tv[1] == t@[lo + 1]@ && tv[2] == t@[lo + 2]@);
        let a = match reg_operand(&t[lo + 1]) {
            Ok(r) => r,
            Err(e) => return Err(e),
        };
        let b = match reg_operand(&t[lo + 2]) {
            Ok(r) => r,
            Err(e) => return Err(e),
        };
        let v = LogicGates::not(self.registers[a]);
        self.set_reg(b, v);
        self.trace(Op::Not, v);
        Ok(true)
    }

    fn exec_mov(&mut self, t: &Vec<Vec<char>>, lo: usize) -> (r: Result<bool, MachineError>)
        requires
            lo + 3 <= t.len(),
        ensures
            outcome_holds(
                old(self)@,
                final(self)@,
                r,
                step_plain(old(self)@, Op::Mov, tok_view(t@).subrange(lo as int, lo + 3)),
            ),
    {
        reveal(step_plain);
        let ghost tv = tok_view(t@).subrange(lo as int, lo + 3);
        assert(tv[1] == t@[lo + 1]@ && tv[2] == t@[lo + 2]@);
        let v = match self.source(&t[lo + 2]) {
            Ok(v) => v,
            Err(e) => return Err(e),
        };
        match self.store(&t[lo + 1], v) {
            Ok(()) => {},
            Err(e) => return Err(e),
        }
        self.trace(Op::Mov, v);
        Ok(true)
    }

    fn exec_qmov(&mut self, t: &Vec<Vec<char>>, lo: usize) -> (r: Result<bool, MachineError>)
        requires
            lo + 3 <= t.len(),
        ensures
            outcome_holds(
                old(self)@,
                final(self)@,
                r,
                step_plain(old(self)@, Op::Qmov, tok_view(t@).subrange(lo as int, lo + 3)),
            ),
    {
        reveal(step_plain);
        let ghost tv = tok_view(t@).subrange(lo as int, lo + 3);
        assert(tv[1] == t@[lo + 1]@ && tv[2] == t@[lo + 2]@);
        let dst = &t[lo + 1];
        let src = &t[lo + 2];
        if starts(src, 'R') && starts(dst, '[') {
            let r = match reg_operand(src) {
                Ok(r) => r,
                Err(e) => return Err(e),
            };
            let a = match addr_operand(dst) {
                Ok(a) => a,
                Err(e) => return Err(e),
            };
            let v = self.registers[r];
            self.set_mem(a, v);
            self.set_reg(r, 0);
            self.trace(Op::Qmov, v);
            Ok(true)
        } else if starts(src, '[') && starts(dst, 'R') {
            let a = match addr_operand(src) {
                Ok(a) => a,
                Err(e) => return Err(e),
            };
            let r = match reg_operand(dst) {
                Ok(r) => r,
                Err(e) => return Err(e),
            };
            let v = self.mem_at(a);
            self.set_reg(r, v);
            self.set_mem(a, 0);
            self.trace(Op::Qmov, v);
            Ok(true)
        } else {
            Err(MachineError::InvalidOperandCombination)
        }
    }

    fn exec_init(&mut self, t: &Vec<Vec<char>>, lo: usize) -> (r: Result<bool, MachineError>)
        requires
            lo + 4 <= t.len(),
        ensures
            outcome_holds(
                old(self)@,
                final(self)@,
                r,
                step_plain(old(self)@, Op::Init, tok_view(t@).subrange(lo as int, lo + 4)),
            ),
    {
        reveal(step_plain);
        let ghost tv = tok_view(t@).subrange(lo as int, lo + 4);
        assert(tv[1] == t@[lo + 1]@ && tv[2] == t@[lo + 2]@ && tv[3] == t@[lo + 3]@);
        if !is_word(&t[lo + 2], "=") {
            return Err(MachineError::SyntaxError);
        }
        let a = match addr_operand(&t[lo + 1]) {
            Ok(a) => a,
            Err(e) => return Err(e),
        };
        let v = match imm_operand(&t[lo + 3]) {
            Ok(v) => v,
            Err(e) => return Err(e),
        };
        self.set_mem(a, v);
        self.trace(Op::Init, v);
        Ok(true)
    }

    fn exec_clear(&mut self, t: &Vec<Vec<char>>, lo: usize) -> (r: Result<bool, MachineError>)
        requires
            lo + 2 <= t.len(),
        ensures
            outcome_holds(
                old(self)@,
                final(self)@,
                r,
                step_plain(old(self)@, Op::Clear, tok_view(t@).subrange(lo as int, lo + 2)),
            ),
    {
        reveal(step_plain);
        let ghost tv = tok_view(t@).subrange(lo as int, lo + 2);
        assert(tv[1] == t@[lo + 1]@);
        let target = &t[lo + 1];
        if starts(target, 'R') {
            let r = match reg_operand(target) {
                Ok(r) => r,
                Err(e) => return Err(e),
            };
            self.set_reg(r, 0);
        } else {
            let a = match addr_operand(target) {
                Ok(a) => a,
                Err(e) => return Err(e),
            };
            self.set_mem(a, 0);
        }
        self.trace(Op::Clear, 0);
        Ok(true)
    }

    fn exec_out(&mut self, t: &Vec<Vec<char>>, lo: usize) -> (r: Result<bool, MachineError>)
        requires
            lo + 2 <= t.len(),
        ensures
            outcome_holds(
                old(self)@,
                final(self)@,
                r,
                step_plain(old(self)@, Op::Out, tok_view(t@).subrange(lo as int, lo + 2)),
            ),
    {
        reveal(step_plain);
        let ghost tv = tok_view(t@).subrange(lo as int, lo + 2);
        assert(tv[1] == t@[lo + 1]@);
        let target = &t[lo + 1];
        if starts(target, 'R') {
            let r = match reg_operand(target) {
                Ok(r) => r,
                Err(e) => return Err(e),
            };
            let v = self.registers[r];
            self.emit(Event::Out { register: Some(r), value: v });
        } else {
            let v = match imm_operand(target) {
                Ok(v) => v,
                Err(e) => return Err(e),
            };
            self.emit(Event::Out { register: None, value: v });
        }
        Ok(true)
    }

    fn exec_ver(&mut self, t: &Vec<Vec<char>>, lo: usize) -> (r: Result<bool, MachineError>)
        requires
            lo + 3 <= t.len(),
        ensures
            outcome_holds(
                old(self)@,
                final(self)@,
                r,
                step_plain(old(self)@, Op::Ver, tok_view(t@).subrange(lo as int, lo + 3)),
            ),
    {
        reveal(step_plain);
        let ghost tv = tok_view(t@).subrange(lo as int, lo + 3);
        assert(tv[2] == t@[lo + 2]@);
        let v = match imm_operand(&t[lo + 2]) {
            Ok(v) => v,
            Err(e) => return Err(e),
        };
        if v > 1 {
            return Err(MachineError::InvalidFlag);
        }
        self.verbose = v == 1;
        self.trace(Op::Ver, v);
        Ok(true)
    }
}

impl CPU {
    fn exec_plain(&mut self, op: Op, t: &Vec<Vec<char>>, lo: usize, hi: usize) -> (r: Result<
        bool,
        MachineError,
    >)
        requires
            op != Op::If,
            lo <= hi <= t.len(),
            hi - lo == arity(op),
        ensures
            outcome_holds(
                old(self)@,
                final(self)@,
                r,
                step_plain(old(self)@, op, tok_view(t@).subrange(lo as int, hi as int)),
            ),
    {
        match op {
            Op::Load | Op::Store => self.exec_load_store(op, t, lo),
            Op::Add | Op::And | Op::Or | Op::Nand | Op::Nor | Op::Xor => self.exec_alu(op, t, lo),
            Op::Not => self.exec_not(t, lo),
            Op::Mov => self.exec_mov(t, lo),
            Op::Qmov => self.exec_qmov(t, lo),
            Op::Init => self.exec_init(t, lo),
            Op::Clear => self.exec_clear(t, lo),
            Op::Out => self.exec_out(t, lo),
            Op::Ver => self.exec_ver(t, lo),
            _ => {
                proof {
                    reveal(step_plain);
                }
                Ok(false)
            },
        }
    }

    /// Executes the tokens `t[lo..hi]` as one instruction.
    fn exec_range(&mut self, t: &Vec<Vec<char>>, lo: usize, hi: usize) -> (r: Result<
        bool,
        MachineError,
    >)
        requires
            lo <= hi <= t.len(),
        ensures
            outcome_holds(
                old(self)@,
                final(self)@,
                r,
                run_tokens(old(self)@, tok_view(t@).subrange(lo as int, hi as int)),
            ),
        decreases hi - lo, 1nat,
    {
        let ghost tv = tok_view(t@).subrange(lo as int, hi as int);
        if lo == hi {
            return Ok(true);
        }
        assert(tv[0] == t@[lo as int]@);
        let op = match decode_op(&t[lo]) {
            None => return Err(MachineError::UnknownInstruction),
            Some(op) => op,
        };
        if op != Op::If {
            if hi - lo != arity_of(op) {
                return Err(MachineError::ArityError { mnemonic: op, tokens: hi - lo });
            }
            return self.exec_plain(op, t, lo, hi);
        }
        self.exec_if(t, lo, hi)
    }

    fn exec_if(&mut self, t: &Vec<Vec<char>>, lo: usize, hi: usize) -> (r: Result<
        bool,
        MachineError,
    >)
        requires
            lo < hi <= t.len(),
        ensures
            outcome_holds(
                old(self)@,
                final(self)@,
                r,
                run_if(old(self)@, tok_view(t@).subrange(lo as int, hi as int)),
            ),
        decreases hi - lo, 0nat,
    {
        let ghost tv = tok_view(t@).subrange(lo as int, hi as int);
        let ghost s0 = self@;
        assert(tv[0] == t@[lo as int]@);
        let then_at = find_word(t, "THEN", lo, hi);
        if then_at == hi {
            return Err(MachineError::SyntaxError);
        }
        if then_at - lo != 4 {
            return Err(MachineError::InvalidCondition);
        }
        assert(tv[1] == t@[lo + 1]@ && tv[2] == t@[lo + 2]@ && tv[3] == t@[lo + 3]@);
        let cmp = match decode_cmp(&t[lo + 2]) {
            None => return Err(MachineError::InvalidCondition),
            Some(c) => c,
        };
        let reg = match reg_operand(&t[lo + 1]) {
            Ok(r) => r,
            Err(e) => return Err(e),
        };
        let v = match self.source(&t[lo + 3]) {
            Ok(v) => v,
            Err(e) => return Err(e),
        };
        let ghost rest = tv.skip(5);
        assert(rest =~= tok_view(t@).subrange(lo + 5, hi as int));
        let else_at = find_word(t, "ELSE", lo + 5, hi);
        let met = compare(cmp, self.registers[reg], v);
        let was_verbose = self.verbose;
        self.trace(Op::If, v);
        let clause = if met {
            assert(rest.take(else_at - (lo + 5)) =~= tok_view(t@).subrange(lo + 5, else_at as int));
            self.exec_range(t, lo + 5, else_at)
        } else if else_at < hi {
            assert(rest.skip(else_at - (lo + 5) + 1) =~= tok_view(t@).subrange(
                else_at + 1,
                hi as int,
            ));
            self.exec_range(t, else_at + 1, hi)
        } else {
            Ok(true)
        };
        match clause {
            Ok(c) => Ok(c),
            Err(e) => {
                // A failed line leaves no output behind: withdraw the
                // diagnostic line of the condition.
                if was_verbose {
                    let _ = self.events.pop();
                    assert(self@.events =~= s0.events);
                }
                assert(self@ == s0);
                Err(e)
            },
        }
    }

    /// Executes one line of the text dialect. `Ok(false)` means the line
    /// halted the machine; on an error nothing changes.
    pub fn execute(&mut self, instruction: &str) -> (r: Result<bool, MachineError>)
        ensures
            outcome_holds(old(self)@, final(self)@, r, run_tokens(old(self)@, tokens_of(instruction@))),
    {
        let chars = chars_of(instruction);
        let toks = tokenize(&chars);
        assert(tok_view(toks@).subrange(0, toks@.len() as int) =~= tok_view(toks@));
        self.exec_range(&toks, 0, toks.len())
    }
}

fn arity_of(op: Op) -> (n: usize)
    ensures
        n == arity(op),
{
    match op {
        Op::Load | Op::Store | Op::Not | Op::Mov | Op::Qmov | Op::Ver => 3,
        Op::Add | Op::And | Op::Or | Op::Nand | Op::Nor | Op::Xor | Op::Init => 4,
        Op::Clear | Op::Out => 2,
        _ => 1,
    }
}

/// Diagnostic lines appear only in verbose mode: a line executed while
/// verbose mode is off, and which leaves it off, adds nothing to the output
/// but `OUT` lines.
pub proof fn lemma_quiet_lines_add_no_trace(s: MachineState, t: Seq<Seq<char>>)
    requires
        !s.verbose,
        run_tokens(s, t) is Ok,
        !run_tokens(s, t)->Ok_0.0.verbose,
    ensures
        ({
            let e = run_tokens(s, t)->Ok_0.0.events;
            &&& e.len() >= s.events.len()
            &&& e.take(s.events.len() as int) == s.events
            &&& forall|j: int| s.events.len() <= j < e.len() ==> e[j] is Out
        }),
    decreases t.len(),
{
    let e = run_tokens(s, t)->Ok_0.0.events;
    if t.len() == 0 {
        assert(e.take(s.events.len() as int) =~= s.events);
    } else if op_of(t[0]) == Some(Op::If) {
        let rest = t.skip(5);
        let else_at = position_of(rest, "ELSE"@, 0);
        lemma_position_bounds(rest, "ELSE"@, 0);
        let r = reg_result(t[1])->Ok_0;
        let v = source_value(s, t[3])->Ok_0;
        assert(traced(s, Op::If, v) == s);
        if holds(cmp_of(t[2])->Some_0, s.regs[r as int], v) {
            lemma_quiet_lines_add_no_trace(s, rest.take(else_at));
        } else if else_at < rest.len() {
            lemma_quiet_lines_add_no_trace(s, rest.skip(else_at + 1));
        } else {
            assert(e.take(s.events.len() as int) =~= s.events);
        }
    } else {
        reveal(step_plain);
        let s2 = run_tokens(s, t)->Ok_0.0;
        if s2.events == s.events {
            assert(e.take(s.events.len() as int) =~= s.events);
        } else {
            assert(e.take(s.events.len() as int) =~= s.events);
        }
    }
}

} // verus!
