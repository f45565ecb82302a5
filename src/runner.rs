//! The binary loader and runner: programs as raw bytes in memory, driven by
//! a program counter from address 0. Each instruction is its opcode byte
//! followed by as many operand bytes as the opcode takes, and the counter
//! moves past exactly those bytes; `JUMP` sets it from its operand instead.
use vstd::prelude::*;
use crate::cpu::{CPU, MachineState, REGISTER_COUNT, with_mem, with_reg, wrap_add};
use crate::error::MachineError;
use crate::isa::{OP_ADD, OP_AND, OP_HALT, OP_JUMP, OP_LOAD, OP_NOT, OP_OR, OP_STORE, OP_XOR};
use crate::logic_gates::{LogicGates, and_of, not_of, or_of, xor_of};
use crate::ram::RAM_SIZE;

verus! {

/// How a run of the binary runner ended without error.
#[derive(Clone, Copy, Debug, PartialEq, Eq, Structural)]
pub enum RunStatus {
    /// A `HALT` opcode was reached.
    Halted,
    /// The step budget ran out first.
    OutOfSteps,
}

/// Number of operand bytes that follow each opcode the runner supports.
pub open spec fn operand_count(op: u8) -> Option<nat> {
    if op == OP_LOAD || op == OP_STORE || op == OP_NOT {
        Some(2)
    } else if op == OP_ADD || op == OP_AND || op == OP_OR || op == OP_XOR {
        Some(3)
    } else if op == OP_JUMP {
        Some(1)
    } else if op == OP_HALT {
        Some(0)
    } else {
        None
    }
}

/// The state after loading `program` at address 0.
pub open spec fn loaded(s: MachineState, program: Seq<u8>) -> MachineState {
    MachineState { mem: program + s.mem.skip(program.len() as int), ..s }
}

/// One step of the runner at `pc`: the error, `None` when it halts, or the
/// new state and program counter. A register byte must name a register.
pub open spec fn bin_step(s: MachineState, pc: int) -> Result<
    Option<(MachineState, int)>,
    MachineError,
> {
    if !(0 <= pc < RAM_SIZE) {
        Err(MachineError::OutOfBounds(pc as usize))
    } else {
        let op = s.mem[pc];
        match operand_count(op) {
            None => Err(MachineError::InvalidOpcode(op)),
            Some(n) => if pc + n >= RAM_SIZE {
                Err(MachineError::OutOfBounds(RAM_SIZE))
            } else if op == OP_HALT {
                Ok(None)
            } else if op == OP_JUMP {
                Ok(Some((s, s.mem[pc + 1] as int)))
            } else {
                let b1 = s.mem[pc + 1] as int;
                let b2 = s.mem[pc + 2] as int;
                let next = pc + 1 + n;
                if op == OP_LOAD || op == OP_STORE {
                    if b1 >= REGISTER_COUNT {
                        Err(MachineError::InvalidRegister)
                    } else if op == OP_LOAD {
                        Ok(Some((with_reg(s, b1, s.mem[b2]), next)))
                    } else {
                        Ok(Some((with_mem(s, b2, s.regs[b1]), next)))
                    }
                } else if op == OP_NOT {
                    if b1 >= REGISTER_COUNT || b2 >= REGISTER_COUNT {
                        Err(MachineError::InvalidRegister)
                    } else {
                        Ok(Some((with_reg(s, b2, not_of(s.regs[b1])), next)))
                    }
                } else {
                    let b3 = s.mem[pc + 3] as int;
                    if b1 >= REGISTER_COUNT || b2 >= REGISTER_COUNT || b3 >= REGISTER_COUNT {
                        Err(MachineError::InvalidRegister)
                    } else {
                        let x = s.regs[b1];
                        let y = s.regs[b2];
                        let v = if op == OP_ADD {
                            wrap_add(x, y)
                        } else if op == OP_AND {
                            and_of(x, y)
                        } else if op == OP_OR {
                            or_of(x, y)
                        } else {
                            xor_of(x, y)
                        };
                        Ok(Some((with_reg(s, b3, v), next)))
                    }
                }
            },
        }
    }
}

/// Runs at most `fuel` steps from `pc`: the final state and how the run
/// ended. An error stops the run; what earlier steps did stays.
pub open spec fn run_from(s: MachineState, pc: int, fuel: nat) -> (
    MachineState,
    Result<RunStatus, MachineError>,
)
    decreases fuel,
{
    if fuel == 0 {
        (s, Ok(RunStatus::OutOfSteps))
    } else {
        match bin_step(s, pc) {
            Err(e) => (s, Err(e)),
            Ok(None) => (s, Ok(RunStatus::Halted)),
            Ok(Some((s2, pc2))) => run_from(s2, pc2, (fuel - 1) as nat),
        }
    }
}

impl CPU {
    /// Copies `program` into memory from address 0; a program longer than
    /// memory is refused and nothing is written.
    pub fn load_program(&mut self, program: &Vec<u8>) -> (r: Result<(), MachineError>)
        ensures
            program@.len() <= RAM_SIZE ==> r is Ok && final(self)@ == loaded(old(self)@, program@),
            program@.len() > RAM_SIZE ==> r == Err::<(), MachineError>(
                MachineError::OutOfBounds(RAM_SIZE),
            ) && final(self)@ == old(self)@,
    {
        if program.len() > RAM_SIZE {
            return Err(MachineError::OutOfBounds(RAM_SIZE));
        }
        proof {
            self.lemma_shape();
        }
        let ghost s0 = self@;
        let mut i: usize = 0;
        assert(program@.take(0) + s0.mem.skip(0) =~= s0.mem);
        while i < program.len()
            invariant
                i <= program@.len() <= RAM_SIZE,
                s0.mem.len() == RAM_SIZE,
                self@ == (MachineState {
                    mem: program@.take(i as int) + s0.mem.skip(i as int),
                    ..s0
                }),
            decreases program@.len() - i,
        {
            self.set_mem(i, program[i]);
            assert(program@.take(i + 1) + s0.mem.skip(i + 1) =~= (program@.take(i as int)
                + s0.mem.skip(i as int)).update(i as int, program@[i as int]));
            i = i + 1;
        }
        assert(program@.take(i as int) =~= program@);
        Ok(())
    }
}

impl CPU {
    /// Executes the instruction at `pc`; see `bin_step`.
    fn step_binary(&mut self, pc: usize) -> (r: Result<Option<usize>, MachineError>)
        requires
            pc < RAM_SIZE + 4,
        ensures
            match bin_step(old(self)@, pc as int) {
                Err(e) => r == Err::<Option<usize>, MachineError>(e) && final(self)@ == old(self)@,
                Ok(None) => r == Ok::<Option<usize>, MachineError>(None) && final(self)@ == old(
                    self,
                )@,
                Ok(Some((s2, pc2))) => r == Ok::<Option<usize>, MachineError>(Some(pc2 as usize))
                    && final(self)@ == s2 && pc2 < RAM_SIZE + 4,
            },
    {
        proof {
            self.lemma_shape();
        }
        let op = match self.byte_at(pc) {
            Ok(op) => op,
            Err(e) => return Err(e),
        };
        let n: usize = if op == OP_LOAD || op == OP_STORE || op == OP_NOT {
            2
        } else if op == OP_ADD || op == OP_AND || op == OP_OR || op == OP_XOR {
            3
        } else if op == OP_JUMP {
            1
        } else if op == OP_HALT {
            0
        } else {
            return Err(MachineError::InvalidOpcode(op));
        };
        if pc + n >= RAM_SIZE {
            return Err(MachineError::OutOfBounds(RAM_SIZE));
        }
        if op == OP_HALT {
            return Ok(None);
        }
        let b1 = self.mem_at(pc + 1) as usize;
        if op == OP_JUMP {
            return Ok(Some(b1));
        }
        let b2 = self.mem_at(pc + 2) as usize;
        let next = pc + 1 + n;
        if op == OP_LOAD || op == OP_STORE {
            if b1 >= REGISTER_COUNT {
                return Err(MachineError::InvalidRegister);
            }
            if op == OP_LOAD {
                let v = self.mem_at(b2);
                self.set_reg(b1, v);
            } else {
                let v = self.register(b1);
                self.set_mem(b2, v);
            }
            return Ok(Some(next));
        }
        if op == OP_NOT {
            if b1 >= REGISTER_COUNT || b2 >= REGISTER_COUNT {
                return Err(MachineError::InvalidRegister);
            }
            let v = LogicGates::not(self.register(b1));
            self.set_reg(b2, v);
            return Ok(Some(next));
        }
        let b3 = self.mem_at(pc + 3) as usize;
        if b1 >= REGISTER_COUNT || b2 >= REGISTER_COUNT || b3 >= REGISTER_COUNT {
            return Err(MachineError::InvalidRegister);
        }
        let x = self.register(b1);
        let y = self.register(b2);
        let v = if op == OP_ADD {
            ((x as u16 + y as u16) % 256) as u8
        } else if op == OP_AND {
            LogicGates::and(x, y)
        } else if op == OP_OR {
            LogicGates::or(x, y)
        } else {
            LogicGates::xor(x, y)
        };
        self.set_reg(b3, v);
        Ok(Some(next))
    }

    /// Runs the program in memory from address 0 for at most `max_steps`
    /// instructions, or until `HALT` or an error.
    pub fn run_binary(&mut self, max_steps: usize) -> (r: Result<RunStatus, MachineError>)
        ensures
            (final(self)@, r) == run_from(old(self)@, 0, max_steps as nat),
    {
        let mut pc: usize = 0;
        let mut fuel: usize = max_steps;
        while fuel > 0
            invariant
                pc < RAM_SIZE + 4,
                run_from(self@, pc as int, fuel as nat) == run_from(old(self)@, 0, max_steps as nat),
            decreases fuel,
        {
            match self.step_binary(pc) {
                Err(e) => return Err(e),
                Ok(None) => return Ok(RunStatus::Halted),
                Ok(Some(next)) => {
                    pc = next;
                },
            }
            fuel = fuel - 1;
        }
        Ok(RunStatus::OutOfSteps)
    }
}

} // verus!
