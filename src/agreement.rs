//! The two execution paths agree: a program in the instructions that both
//! the text engine and the binary runner support, assembled and run as
//! bytes, leaves the registers and memory as interpreting its text does.
use vstd::prelude::*;
use crate::assembler::{
    add_bytes, assemble_lines, encoded_operands, is_label_line, labels_of, line_bytes,
    load_store_bytes, lookup, opcode_of, operand_byte, operands_bytes,
};
use crate::bios::{LineError, run_text, run_text_from};
use crate::cpu::{MachineState, REGISTER_COUNT, run_tokens, step_plain};
use crate::isa::{OP_ADD, OP_AND, OP_HALT, OP_LOAD, OP_NOT, OP_OR, OP_STORE, OP_XOR, Op, op_of};
use crate::ram::RAM_SIZE;
use crate::runner::{RunStatus, bin_step, loaded, operand_count, run_from};
use crate::text::{address_of, address_of_operand, register_of, starts_with, strip_commas, tokens_of};

verus! {

/// A tokenized line that both paths run: `HALT`, `LOAD`/`STORE r [a]`,
/// `ADD`/`AND`/`OR`/`XOR a b c` or `NOT a b`, with valid operands.
pub open spec fn shared_line(t: Seq<Seq<char>>) -> bool {
    &&& !is_label_line(t)
    &&& {
        ||| t.len() == 1 && t[0] == "HALT"@
        ||| t.len() == 3 && (t[0] == "LOAD"@ || t[0] == "STORE"@) && register_of(t[1]) is Some
            && address_of(t[2]) is Some
        ||| t.len() == 4 && (t[0] == "ADD"@ || t[0] == "AND"@ || t[0] == "OR"@ || t[0] == "XOR"@)
            && register_of(t[1]) is Some && register_of(t[2]) is Some && register_of(t[3]) is Some
        ||| t.len() == 3 && t[0] == "NOT"@ && register_of(t[1]) is Some && register_of(t[2]) is Some
    }
}

/// The bytes of a shared line.
pub open spec fn shared_bytes(t: Seq<Seq<char>>) -> Seq<u8> {
    let op = opcode_of(t[0])->Some_0;
    if t.len() == 1 {
        seq![op]
    } else if t[0] == "LOAD"@ || t[0] == "STORE"@ {
        seq![op, register_of(t[1])->Some_0 as u8, address_of(t[2])->Some_0 as u8]
    } else if t.len() == 4 {
        seq![
            op,
            register_of(t[1])->Some_0 as u8,
            register_of(t[2])->Some_0 as u8,
            register_of(t[3])->Some_0 as u8,
        ]
    } else {
        seq![op, register_of(t[1])->Some_0 as u8, register_of(t[2])->Some_0 as u8]
    }
}

/// The bytes of a program of shared lines.
pub open spec fn program_bytes(lines: Seq<Seq<char>>) -> Seq<u8>
    decreases lines.len(),
{
    if lines.len() == 0 {
        Seq::empty()
    } else {
        program_bytes(lines.drop_last()) + shared_bytes(tokens_of(lines.last()))
    }
}

/// Every line is shared, and every `STORE` writes at or after `limit`.
pub open spec fn shared_program(lines: Seq<Seq<char>>, limit: int) -> bool {
    forall|i: int|
        0 <= i < lines.len() ==> {
            let t = #[trigger] tokens_of(lines[i]);
            shared_line(t) && (t[0] == "STORE"@ ==> address_of(t[2])->Some_0 >= limit)
        }
}

proof fn lemma_words()
    ensures
        op_of("HALT"@) == Some(Op::Halt) && opcode_of("HALT"@) == Some(OP_HALT),
        op_of("LOAD"@) == Some(Op::Load) && opcode_of("LOAD"@) == Some(OP_LOAD),
        op_of("STORE"@) == Some(Op::Store) && opcode_of("STORE"@) == Some(OP_STORE),
        op_of("ADD"@) == Some(Op::Add) && opcode_of("ADD"@) == Some(OP_ADD),
        op_of("AND"@) == Some(Op::And) && opcode_of("AND"@) == Some(OP_AND),
        op_of("OR"@) == Some(Op::Or) && opcode_of("OR"@) == Some(OP_OR),
        op_of("XOR"@) == Some(Op::Xor) && opcode_of("XOR"@) == Some(OP_XOR),
        op_of("NOT"@) == Some(Op::Not) && opcode_of("NOT"@) == Some(OP_NOT),
        "LOAD"@ != "STORE"@,
        "ADD"@ != "AND"@ && "ADD"@ != "OR"@ && "ADD"@ != "XOR"@ && "AND"@ != "OR"@ && "AND"@
            != "XOR"@ && "OR"@ != "XOR"@,
        "LOAD"@ != "INIT"@ && "STORE"@ != "INIT"@ && "ADD"@ != "INIT"@ && "AND"@ != "INIT"@
            && "OR"@ != "INIT"@ && "XOR"@ != "INIT"@ && "NOT"@ != "INIT"@,
        "LOAD"@ != "VER"@ && "STORE"@ != "VER"@ && "ADD"@ != "VER"@ && "AND"@ != "VER"@ && "OR"@
            != "VER"@ && "XOR"@ != "VER"@ && "NOT"@ != "VER"@,
        "LOAD"@ != "ADD"@ && "STORE"@ != "ADD"@ && "NOT"@ != "ADD"@ && "AND"@ != "LOAD"@ && "AND"@
            != "STORE"@ && "OR"@ != "LOAD"@ && "OR"@ != "STORE"@ && "XOR"@ != "LOAD"@ && "XOR"@
            != "STORE"@ && "NOT"@ != "LOAD"@ && "NOT"@ != "STORE"@,
        "HALT"@.len() == 4,
{
    reveal_strlit("LOAD");
    reveal_strlit("STORE");
    reveal_strlit("ADD");
    reveal_strlit("AND");
    reveal_strlit("OR");
    reveal_strlit("NAND");
    reveal_strlit("NOR");
    reveal_strlit("XOR");
    reveal_strlit("NOT");
    reveal_strlit("MOV");
    reveal_strlit("QMOV");
    reveal_strlit("INIT");
    reveal_strlit("CLEAR");
    reveal_strlit("OUT");
    reveal_strlit("VER");
    reveal_strlit("IF");
    reveal_strlit("HALT");
    reveal_strlit("JUMP");
    assert("LOAD"@.len() == 4 && "LOAD"@[0] == 'L' && "LOAD"@[1] == 'O');
    assert("STORE"@.len() == 5 && "STORE"@[0] == 'S' && "STORE"@[1] == 'T');
    assert("ADD"@.len() == 3 && "ADD"@[0] == 'A' && "ADD"@[1] == 'D');
    assert("AND"@.len() == 3 && "AND"@[0] == 'A' && "AND"@[1] == 'N');
    assert("OR"@.len() == 2 && "OR"@[0] == 'O' && "OR"@[1] == 'R');
    assert("NAND"@.len() == 4 && "NAND"@[0] == 'N' && "NAND"@[1] == 'A');
    assert("NOR"@.len() == 3 && "NOR"@[0] == 'N' && "NOR"@[1] == 'O' && "NOR"@[2] == 'R');
    assert("XOR"@.len() == 3 && "XOR"@[0] == 'X' && "XOR"@[1] == 'O');
    assert("NOT"@.len() == 3 && "NOT"@[0] == 'N' && "NOT"@[1] == 'O' && "NOT"@[2] == 'T');
    assert("MOV"@.len() == 3 && "MOV"@[0] == 'M' && "MOV"@[1] == 'O');
    assert("QMOV"@.len() == 4 && "QMOV"@[0] == 'Q' && "QMOV"@[1] == 'M');
    assert("INIT"@.len() == 4 && "INIT"@[0] == 'I' && "INIT"@[1] == 'N');
    assert("CLEAR"@.len() == 5 && "CLEAR"@[0] == 'C' && "CLEAR"@[1] == 'L');
    assert("OUT"@.len() == 3 && "OUT"@[0] == 'O' && "OUT"@[1] == 'U');
    assert("VER"@.len() == 3 && "VER"@[0] == 'V' && "VER"@[1] == 'E');
    assert("IF"@.len() == 2 && "IF"@[0] == 'I' && "IF"@[1] == 'F');
    assert("HALT"@.len() == 4 && "HALT"@[0] == 'H' && "HALT"@[1] == 'A');
    assert("JUMP"@.len() == 4 && "JUMP"@[0] == 'J' && "JUMP"@[1] == 'U');
}

proof fn lemma_strip_commas_prefix(t: Seq<char>)
    ensures
        strip_commas(t).len() <= t.len(),
        strip_commas(t) == t.take(strip_commas(t).len() as int),
    decreases t.len(),
{
    if t.len() > 0 && t.last() == ',' {
        lemma_strip_commas_prefix(t.drop_last());
        assert(t.drop_last().take(strip_commas(t).len() as int) =~= t.take(
            strip_commas(t).len() as int,
        ));
    } else {
        assert(t.take(t.len() as int) =~= t);
    }
}

/// A token that is a well-formed address ends in `]`, so the engine, which
/// ignores trailing commas, reads the same address from it.
proof fn lemma_address_exact(t: Seq<char>)
    requires
        address_of(t) is Some,
    ensures
        address_of_operand(t) == address_of(t),
{
    assert(strip_commas(t) == t);
}

proof fn lemma_register_starts(t: Seq<char>)
    requires
        register_of(t) is Some,
    ensures
        starts_with(t, 'R'),
{
    lemma_strip_commas_prefix(t);
    let u = strip_commas(t);
    assert(u[0] == t.take(u.len() as int)[0]);
}

proof fn lemma_no_labels(lines: Seq<Seq<char>>)
    requires
        forall|i: int| 0 <= i < lines.len() ==> !is_label_line(#[trigger] tokens_of(lines[i])),
    ensures
        labels_of(lines) == Seq::<(Seq<char>, nat)>::empty(),
    decreases lines.len(),
{
    if lines.len() > 0 {
        assert(tokens_of(lines[lines.len() - 1]) == tokens_of(lines.last()));
        lemma_no_labels(lines.drop_last());
    }
}

proof fn lemma_operands_bytes(t: Seq<Seq<char>>)
    requires
        t.len() == 3 || t.len() == 4,
        t[0] != "LOAD"@ && t[0] != "STORE"@,
        forall|i: int| 1 <= i < t.len() ==> register_of(#[trigger] t[i]) is Some,
    ensures
        operands_bytes(Seq::empty(), t, 1) == Ok::<Seq<u8>, crate::error::MachineError>(
            shared_bytes(t).drop_first(),
        ),
{
    let e = Seq::<(Seq<char>, nat)>::empty();
    lemma_register_starts(t[1]);
    lemma_register_starts(t[2]);
    assert(operand_byte(e, t[1]) == Ok::<u8, crate::error::MachineError>(register_of(t[1])->Some_0 as u8));
    assert(operand_byte(e, t[2]) == Ok::<u8, crate::error::MachineError>(register_of(t[2])->Some_0 as u8));
    assert(operands_bytes(e, t, t.len() as int) == Ok::<Seq<u8>, crate::error::MachineError>(Seq::empty()));
    if t.len() == 4 {
        lemma_register_starts(t[3]);
        assert(operand_byte(e, t[3]) == Ok::<u8, crate::error::MachineError>(register_of(t[3])->Some_0 as u8));
        assert(operands_bytes(e, t, 3)->Ok_0 =~= seq![register_of(t[3])->Some_0 as u8]);
        assert(operands_bytes(e, t, 2)->Ok_0 =~= seq![
            register_of(t[2])->Some_0 as u8,
            register_of(t[3])->Some_0 as u8,
        ]);
    } else {
        assert(operands_bytes(e, t, 2)->Ok_0 =~= seq![register_of(t[2])->Some_0 as u8]);
    }
    assert(operands_bytes(e, t, 2)->Ok_0 =~= shared_bytes(t).drop_first().drop_first());
    assert(operands_bytes(e, t, 1)->Ok_0 =~= shared_bytes(t).drop_first());
}

proof fn lemma_line_bytes(line: Seq<char>)
    requires
        shared_line(tokens_of(line)),
    ensures
        line_bytes(Seq::empty(), line) == Ok::<Seq<u8>, crate::error::MachineError>(
            shared_bytes(tokens_of(line)),
        ),
{
    reveal(line_bytes);
    lemma_words();
    let t = tokens_of(line);
    let e = Seq::<(Seq<char>, nat)>::empty();
    if t.len() > 1 {
        if t[0] == "LOAD"@ || t[0] == "STORE"@ {
            assert(encoded_operands(e, t) == load_store_bytes(t));
        } else if t[0] == "ADD"@ {
            assert(encoded_operands(e, t) == add_bytes(t));
        } else {
            assert(encoded_operands(e, t) == operands_bytes(e, t, 1));
            lemma_operands_bytes(t);
        }
        assert(line_bytes(e, line)->Ok_0 =~= shared_bytes(t));
    }
}

proof fn lemma_assembled(lines: Seq<Seq<char>>, limit: int)
    requires
        shared_program(lines, limit),
    ensures
        assemble_lines(Seq::empty(), lines) == Ok::<Seq<u8>, crate::error::MachineError>(
            program_bytes(lines),
        ),
    decreases lines.len(),
{
    if lines.len() > 0 {
        let last = lines.len() - 1;
        assert(tokens_of(lines[last]) == tokens_of(lines.last()));
        assert(shared_program(lines.drop_last(), limit)) by {
            assert forall|i: int| 0 <= i < lines.drop_last().len() implies {
                let t = #[trigger] tokens_of(lines.drop_last()[i]);
                shared_line(t) && (t[0] == "STORE"@ ==> address_of(t[2])->Some_0 >= limit)
            } by {
                assert(lines.drop_last()[i] == lines[i]);
                assert(tokens_of(lines[i]) == tokens_of(lines.drop_last()[i]));
            }
        }
        lemma_assembled(lines.drop_last(), limit);
        lemma_line_bytes(lines.last());
    }
}

proof fn lemma_prefix_bytes(lines: Seq<Seq<char>>, k: int)
    requires
        0 <= k <= lines.len(),
    ensures
        program_bytes(lines.take(k)).len() <= program_bytes(lines).len(),
        program_bytes(lines).take(program_bytes(lines.take(k)).len() as int) == program_bytes(
            lines.take(k),
        ),
    decreases lines.len(),
{
    if k == lines.len() {
        assert(lines.take(k) =~= lines);
        assert(program_bytes(lines).take(program_bytes(lines).len() as int) =~= program_bytes(lines));
    } else {
        lemma_prefix_bytes(lines.drop_last(), k);
        assert(lines.drop_last().take(k) =~= lines.take(k));
        let p = program_bytes(lines.drop_last());
        let q = program_bytes(lines.take(k));
        assert((p + shared_bytes(tokens_of(lines.last()))).take(q.len() as int) =~= p.take(
            q.len() as int,
        ));
    }
}

/// The registers and the memory of two states agree.
pub open spec fn same_data(a: MachineState, b: MachineState) -> bool {
    a.mem == b.mem && a.regs == b.regs
}

proof fn lemma_step(a: MachineState, b: MachineState, t: Seq<Seq<char>>, pc: int, limit: int)
    requires
        shared_line(t),
        t[0] != "HALT"@,
        t[0] == "STORE"@ ==> address_of(t[2])->Some_0 >= limit,
        same_data(a, b),
        a.mem.len() == RAM_SIZE,
        a.regs.len() == REGISTER_COUNT,
        0 <= pc,
        0 <= limit <= RAM_SIZE,
        pc + shared_bytes(t).len() <= RAM_SIZE,
        a.mem.subrange(pc, pc + shared_bytes(t).len()) == shared_bytes(t),
    ensures
        bin_step(a, pc) matches Ok(Some((a2, pc2))) && pc2 == pc + shared_bytes(t).len()
            && a2.mem.len() == RAM_SIZE && a2.regs.len() == REGISTER_COUNT
            && a2.mem.take(limit) == a.mem.take(limit),
        run_tokens(b, t) matches Ok((b2, c)) && c,
        same_data(bin_step(a, pc)->Ok_0->Some_0.0, run_tokens(b, t)->Ok_0.0),
{
    reveal(step_plain);
    lemma_words();
    if t.len() == 3 && (t[0] == "LOAD"@ || t[0] == "STORE"@) {
        lemma_address_exact(t[2]);
    }
    let bytes = shared_bytes(t);
    assert(a.mem[pc] == bytes[0]);
    assert(a.mem[pc + 1] == bytes[1]);
    assert(a.mem[pc + 2] == bytes[2]);
    if t.len() == 4 {
        assert(a.mem[pc + 3] == bytes[3]);
    }
    let s2 = bin_step(a, pc)->Ok_0->Some_0.0;
    if t[0] == "STORE"@ {
        let addr = address_of(t[2])->Some_0;
        assert(addr < 256);
        assert(bytes[2] as int == addr);
        assert(s2.mem == a.mem.update(addr as int, a.regs[bytes[1] as int]));
        assert(s2.mem.take(limit) =~= a.mem.take(limit));
    } else {
        assert(s2.mem == a.mem);
    }
}

proof fn lemma_run(
    lines: Seq<Seq<char>>,
    limit: int,
    k: int,
    a: MachineState,
    b: MachineState,
    pc: int,
    fuel: nat,
)
    requires
        shared_program(lines, limit),
        limit == program_bytes(lines).len(),
        limit <= RAM_SIZE,
        lines.len() > 0,
        tokens_of(lines.last())[0] == "HALT"@,
        0 <= k < lines.len(),
        pc == program_bytes(lines.take(k)).len(),
        a.mem.len() == RAM_SIZE,
        a.regs.len() == REGISTER_COUNT,
        same_data(a, b),
        a.mem.take(limit) == program_bytes(lines),
        fuel >= lines.len() - k,
    ensures
        run_from(a, pc, fuel).1 == Ok::<RunStatus, crate::error::MachineError>(RunStatus::Halted),
        run_text_from(b, lines, k).1 == Ok::<bool, LineError>(true),
        same_data(run_from(a, pc, fuel).0, run_text_from(b, lines, k).0),
    decreases lines.len() - k,
{
    let t = tokens_of(lines[k]);
    let p = program_bytes(lines);
    let n = shared_bytes(t).len() as int;
    lemma_prefix_bytes(lines, k + 1);
    assert(lines.take(k + 1).drop_last() =~= lines.take(k));
    assert(lines.take(k + 1).last() == lines[k]);
    assert(program_bytes(lines.take(k + 1)) == program_bytes(lines.take(k)) + shared_bytes(t));
    assert(a.mem.subrange(pc, pc + n) =~= shared_bytes(t)) by {
        assert forall|j: int| 0 <= j < n implies a.mem.subrange(pc, pc + n)[j] == shared_bytes(t)[j] by {
            assert(a.mem.take(limit)[pc + j] == p[pc + j]);
            assert(p.take(pc + n)[pc + j] == program_bytes(lines.take(k + 1))[pc + j]);
        }
    }
    lemma_words();
    if t[0] == "HALT"@ {
        reveal(step_plain);
        assert(a.mem[pc] == shared_bytes(t)[0]);
        assert(operand_count(a.mem[pc]) == Some(0nat));
    } else {
        if k == lines.len() - 1 {
            assert(lines[k] == lines.last());
        }
        lemma_step(a, b, t, pc, limit);
        let a2 = bin_step(a, pc)->Ok_0->Some_0.0;
        let b2 = run_tokens(b, t)->Ok_0.0;
        lemma_run(lines, limit, k + 1, a2, b2, pc + n, (fuel - 1) as nat);
    }
}

/// Assembling a program whose lines all belong to the instructions that
/// both paths run, and whose last line is `HALT`, then loading the bytes at
/// address 0 and running them, leaves the same registers and memory as
/// interpreting the text on that same loaded machine. This holds when the
/// bytes fit in memory, no `STORE` writes into them, and the runner may take
/// a step per line.
pub proof fn lemma_binary_matches_text(s: MachineState, lines: Seq<Seq<char>>, fuel: nat)
    requires
        s.mem.len() == RAM_SIZE,
        s.regs.len() == REGISTER_COUNT,
        lines.len() > 0,
        shared_program(lines, program_bytes(lines).len() as int),
        tokens_of(lines.last())[0] == "HALT"@,
        program_bytes(lines).len() <= RAM_SIZE,
        fuel >= lines.len(),
    ensures
        assemble_lines(labels_of(lines), lines) == Ok::<Seq<u8>, crate::error::MachineError>(
            program_bytes(lines),
        ),
        ({
            let s0 = loaded(s, program_bytes(lines));
            &&& run_from(s0, 0, fuel).1 == Ok::<RunStatus, crate::error::MachineError>(
                RunStatus::Halted,
            )
            &&& run_text(s0, lines).1 == Ok::<bool, LineError>(true)
            &&& same_data(run_from(s0, 0, fuel).0, run_text(s0, lines).0)
        }),
{
    let p = program_bytes(lines);
    let limit = p.len() as int;
    assert forall|i: int| 0 <= i < lines.len() implies !is_label_line(
        #[trigger] tokens_of(lines[i]),
    ) by {
        assert(shared_line(tokens_of(lines[i])));
    }
    lemma_no_labels(lines);
    lemma_assembled(lines, limit);
    let s0 = loaded(s, p);
    assert(s0.mem.take(limit) =~= p);
    assert(lines.take(0) =~= Seq::<Seq<char>>::empty());
    lemma_run(lines, limit, 0, s0, s0, 0, fuel);
}

} // verus!
