//! The two-pass assembler from the text dialect to the binary encoding:
//! labels are collected first, then every instruction line becomes its
//! opcode byte followed by its operand bytes.
use vstd::prelude::*;
use crate::error::MachineError;
use crate::isa::Op;
use crate::isa::{
    OP_ADD, OP_AND, OP_CLEAR, OP_HALT, OP_INIT, OP_JUMP, OP_LOAD, OP_NOT, OP_OR, OP_OUT, OP_STORE,
    OP_VER, OP_XOR,
};
use crate::text::{
    address_of, chars_of, immediate_of, is_word, parse_address_chars, parse_immediate_chars,
    parse_register_chars, register_of, starts_with, tok_view, tokenize, tokens_of,
};

verus! {

/// The opcode byte of each mnemonic that has a binary encoding.
pub open spec fn opcode_of(t: Seq<char>) -> Option<u8> {
    if t == "LOAD"@ {
        Some(OP_LOAD)
    } else if t == "STORE"@ {
        Some(OP_STORE)
    } else if t == "ADD"@ {
        Some(OP_ADD)
    } else if t == "AND"@ {
        Some(OP_AND)
    } else if t == "OR"@ {
        Some(OP_OR)
    } else if t == "XOR"@ {
        Some(OP_XOR)
    } else if t == "NOT"@ {
        Some(OP_NOT)
    } else if t == "JUMP"@ {
        Some(OP_JUMP)
    } else if t == "INIT"@ {
        Some(OP_INIT)
    } else if t == "OUT"@ {
        Some(OP_OUT)
    } else if t == "CLEAR"@ {
        Some(OP_CLEAR)
    } else if t == "VER"@ {
        Some(OP_VER)
    } else if t == "HALT"@ {
        Some(OP_HALT)
    } else {
        None
    }
}

/// Whether a tokenized line declares a label: its text ends with `:`.
pub open spec fn is_label_line(t: Seq<Seq<char>>) -> bool {
    t.len() > 0 && t.last().len() > 0 && t.last().last() == ':'
}

/// The labels of a program, in order: a line that is one token `name:`
/// gives `name` and its line index.
pub open spec fn labels_of(lines: Seq<Seq<char>>) -> Seq<(Seq<char>, nat)>
    decreases lines.len(),
{
    if lines.len() == 0 {
        Seq::empty()
    } else {
        let prev = labels_of(lines.drop_last());
        let t = tokens_of(lines.last());
        if t.len() == 1 && is_label_line(t) {
            prev.push((t[0].drop_last(), (lines.len() - 1) as nat))
        } else {
            prev
        }
    }
}

/// The line of the last label called `name`.
pub open spec fn lookup(labels: Seq<(Seq<char>, nat)>, name: Seq<char>) -> Option<nat>
    decreases labels.len(),
{
    if labels.len() == 0 {
        None
    } else if labels.last().0 == name {
        Some(labels.last().1)
    } else {
        lookup(labels.drop_last(), name)
    }
}

/// The byte for a generic operand: a label's line, a register, an address
/// or an immediate, tried in that order.
pub open spec fn operand_byte(labels: Seq<(Seq<char>, nat)>, t: Seq<char>) -> Result<
    u8,
    MachineError,
> {
    match lookup(labels, t) {
        Some(n) => if n < 256 {
            Ok(n as u8)
        } else {
            Err(MachineError::InvalidAddress)
        },
        None => if starts_with(t, 'R') {
            match register_of(t) {
                Some(r) => Ok(r as u8),
                None => Err(MachineError::InvalidRegister),
            }
        } else if starts_with(t, '[') {
            match address_of(t) {
                Some(a) => Ok(a as u8),
                None => Err(MachineError::InvalidAddress),
            }
        } else {
            match immediate_of(t) {
                Some(v) => Ok(v),
                None => Err(MachineError::InvalidImmediate),
            }
        },
    }
}

/// The bytes of the generic operands `t[i..]`.
pub open spec fn operands_bytes(labels: Seq<(Seq<char>, nat)>, t: Seq<Seq<char>>, i: int) -> Result<
    Seq<u8>,
    MachineError,
>
    decreases t.len() - i,
{
    if i >= t.len() {
        Ok(Seq::empty())
    } else {
        match (operand_byte(labels, t[i]), operands_bytes(labels, t, i + 1)) {
            (Err(e), _) => Err(e),
            (Ok(_), Err(e)) => Err(e),
            (Ok(b), Ok(rest)) => Ok(seq![b] + rest),
        }
    }
}

pub open spec fn reg_byte(t: Seq<char>) -> Result<u8, MachineError> {
    match register_of(t) {
        Some(r) => Ok(r as u8),
        None => Err(MachineError::InvalidRegister),
    }
}

pub open spec fn addr_byte(t: Seq<char>) -> Result<u8, MachineError> {
    match address_of(t) {
        Some(a) => Ok(a as u8),
        None => Err(MachineError::InvalidAddress),
    }
}

pub open spec fn imm_byte(t: Seq<char>) -> Result<u8, MachineError> {
    match immediate_of(t) {
        Some(v) => Ok(v),
        None => Err(MachineError::InvalidImmediate),
    }
}

pub open spec fn init_bytes(t: Seq<Seq<char>>) -> Result<Seq<u8>, MachineError> {
    if t.len() < 4 {
        Err(MachineError::ArityError { mnemonic: Op::Init, tokens: t.len() as usize })
    } else {
        match (addr_byte(t[1]), imm_byte(t[3])) {
            (Err(e), _) => Err(e),
            (Ok(_), Err(e)) => Err(e),
            (Ok(a), Ok(v)) => Ok(seq![a, v]),
        }
    }
}

pub open spec fn ver_bytes(t: Seq<Seq<char>>) -> Result<Seq<u8>, MachineError> {
    match imm_byte(t.last()) {
        Err(e) => Err(e),
        Ok(v) => Ok(seq![v]),
    }
}

/// The mnemonic of a `LOAD` or `STORE` line.
pub open spec fn load_or_store(t: Seq<char>) -> Op {
    if t == "LOAD"@ {
        Op::Load
    } else {
        Op::Store
    }
}

pub open spec fn load_store_bytes(t: Seq<Seq<char>>) -> Result<Seq<u8>, MachineError> {
    if t.len() < 3 {
        Err(
            MachineError::ArityError { mnemonic: load_or_store(t[0]), tokens: t.len() as usize },
        )
    } else {
        match (reg_byte(t[1]), addr_byte(t[2])) {
            (Err(e), _) => Err(e),
            (Ok(_), Err(e)) => Err(e),
            (Ok(r), Ok(a)) => Ok(seq![r, a]),
        }
    }
}

pub open spec fn add_bytes(t: Seq<Seq<char>>) -> Result<Seq<u8>, MachineError> {
    if t.len() < 4 {
        Err(MachineError::ArityError { mnemonic: Op::Add, tokens: t.len() as usize })
    } else {
        match (reg_byte(t[1]), reg_byte(t[2]), reg_byte(t[3])) {
            (Err(e), _, _) => Err(e),
            (Ok(_), Err(e), _) => Err(e),
            (Ok(_), Ok(_), Err(e)) => Err(e),
            (Ok(a), Ok(b), Ok(c)) => Ok(seq![a, b, c]),
        }
    }
}

/// The bytes that follow the opcode of an instruction with operands:
/// `INIT [a] = v`, `VER .. v`, `LOAD`/`STORE r [a]` and `ADD a b c` have
/// fixed forms; any other operand list is encoded one operand at a time.
pub open spec fn encoded_operands(labels: Seq<(Seq<char>, nat)>, t: Seq<Seq<char>>) -> Result<
    Seq<u8>,
    MachineError,
> {
    if t[0] == "INIT"@ {
        init_bytes(t)
    } else if t[0] == "VER"@ {
        ver_bytes(t)
    } else if t[0] == "LOAD"@ || t[0] == "STORE"@ {
        load_store_bytes(t)
    } else if t[0] == "ADD"@ {
        add_bytes(t)
    } else {
        operands_bytes(labels, t, 1)
    }
}

/// The bytes of one source line: nothing for an empty or label line, else
/// the opcode and the operand bytes.
#[verifier::opaque]
pub open spec fn line_bytes(labels: Seq<(Seq<char>, nat)>, line: Seq<char>) -> Result<
    Seq<u8>,
    MachineError,
> {
    let t = tokens_of(line);
    if t.len() == 0 || is_label_line(t) {
        Ok(Seq::empty())
    } else {
        match opcode_of(t[0]) {
            None => Err(MachineError::UnknownInstruction),
            Some(op) => if t.len() == 1 {
                Ok(seq![op])
            } else {
                match encoded_operands(labels, t) {
                    Err(e) => Err(e),
                    Ok(b) => Ok(seq![op] + b),
                }
            },
        }
    }
}

/// The bytes of a program's first lines, or the error of the first line
/// that fails.
pub open spec fn assemble_lines(labels: Seq<(Seq<char>, nat)>, lines: Seq<Seq<char>>) -> Result<
    Seq<u8>,
    MachineError,
>
    decreases lines.len(),
{
    if lines.len() == 0 {
        Ok(Seq::empty())
    } else {
        match (assemble_lines(labels, lines.drop_last()), line_bytes(labels, lines.last())) {
            (Err(e), _) => Err(e),
            (Ok(_), Err(e)) => Err(e),
            (Ok(a), Ok(b)) => Ok(a + b),
        }
    }
}

/// The characters of each line.
pub open spec fn lines_view(lines: Seq<String>) -> Seq<Seq<char>> {
    lines.map_values(|l: String| l@)
}

/// A label: its name and the index of the line that declares it.
pub struct Label {
    pub name: Vec<char>,
    pub line: usize,
}

/// Translates text programs into the binary encoding.
pub struct Assembler {
    labels: Vec<Label>,
}

pub open spec fn labels_view(v: Seq<Label>) -> Seq<(Seq<char>, nat)> {
    v.map_values(|l: Label| (l.name@, l.line as nat))
}

impl View for Assembler {
    type V = Seq<(Seq<char>, nat)>;

    closed spec fn view(&self) -> Seq<(Seq<char>, nat)> {
        labels_view(self.labels@)
    }
}

/// Once a prefix of the program fails, the whole program fails the same way.
pub proof fn lemma_assemble_prefix_error(labels: Seq<(Seq<char>, nat)>, lines: Seq<Seq<char>>, k: int)
    requires
        0 <= k <= lines.len(),
        assemble_lines(labels, lines.take(k)) is Err,
    ensures
        assemble_lines(labels, lines) == assemble_lines(labels, lines.take(k)),
    decreases lines.len(),
{
    if k == lines.len() {
        assert(lines.take(k) =~= lines);
    } else {
        assert(lines.drop_last().take(k) =~= lines.take(k));
        lemma_assemble_prefix_error(labels, lines.drop_last(), k);
    }
}

fn same_chars(a: &Vec<char>, b: &Vec<char>) -> (r: bool)
    ensures
        r == (a@ == b@),
{
    if a.len() != b.len() {
        return false;
    }
    let mut i: usize = 0;
    while i < a.len()
        invariant
            a@.len() == b@.len(),
            i <= a@.len(),
            a@.take(i as int) == b@.take(i as int),
        decreases a@.len() - i,
    {
        if a[i] != b[i] {
            return false;
        }
        assert(a@.take(i + 1) =~= b@.take(i + 1));
        i = i + 1;
    }
    assert(a@.take(i as int) =~= a@);
    assert(b@.take(i as int) =~= b@);
    true
}

fn opcode_for(t: &Vec<char>) -> (r: Option<u8>)
    ensures
        r == opcode_of(t@),
{
    if is_word(t, "LOAD") {
        Some(OP_LOAD)
    } else if is_word(t, "STORE") {
        Some(OP_STORE)
    } else if is_word(t, "ADD") {
        Some(OP_ADD)
    } else if is_word(t, "AND") {
        Some(OP_AND)
    } else if is_word(t, "OR") {
        Some(OP_OR)
    } else if is_word(t, "XOR") {
        Some(OP_XOR)
    } else if is_word(t, "NOT") {
        Some(OP_NOT)
    } else if is_word(t, "JUMP") {
        Some(OP_JUMP)
    } else if is_word(t, "INIT") {
        Some(OP_INIT)
    } else if is_word(t, "OUT") {
        Some(OP_OUT)
    } else if is_word(t, "CLEAR") {
        Some(OP_CLEAR)
    } else if is_word(t, "VER") {
        Some(OP_VER)
    } else if is_word(t, "HALT") {
        Some(OP_HALT)
    } else {
        None
    }
}

fn reg_byte_of(t: &Vec<char>) -> (r: Result<u8, MachineError>)
    ensures
        r == reg_byte(t@),
{
    match parse_register_chars(t) {
        Some(i) => Ok(i as u8),
        None => Err(MachineError::InvalidRegister),
    }
}

fn addr_byte_of(t: &Vec<char>) -> (r: Result<u8, MachineError>)
    ensures
        r == addr_byte(t@),
{
    match parse_address_chars(t) {
        Some(a) => Ok(a as u8),
        None => Err(MachineError::InvalidAddress),
    }
}

fn imm_byte_of(t: &Vec<char>) -> (r: Result<u8, MachineError>)
    ensures
        r == imm_byte(t@),
{
    match parse_immediate_chars(t) {
        Some(v) => Ok(v),
        None => Err(MachineError::InvalidImmediate),
    }
}

fn encode_init(t: &Vec<Vec<char>>) -> (r: Result<Vec<u8>, MachineError>)
    ensures
        match init_bytes(tok_view(t@)) {
            Ok(b) => r is Ok && r->Ok_0@ == b,
            Err(e) => r == Err::<Vec<u8>, MachineError>(e),
        },
{
    let ghost tv = tok_view(t@);
    if t.len() < 4 {
        return Err(MachineError::ArityError { mnemonic: Op::Init, tokens: t.len() });
    }
    assert(tv[1] == t@[1]@ && tv[3] == t@[3]@);
    let a = match addr_byte_of(&t[1]) {
        Ok(a) => a,
        Err(e) => return Err(e),
    };
    let v = match imm_byte_of(&t[3]) {
        Ok(v) => v,
        Err(e) => return Err(e),
    };
    let r = vec![a, v];
    assert(r@ =~= seq![a, v]);
    Ok(r)
}

fn encode_ver(t: &Vec<Vec<char>>) -> (r: Result<Vec<u8>, MachineError>)
    requires
        t@.len() >= 1,
    ensures
        match ver_bytes(tok_view(t@)) {
            Ok(b) => r is Ok && r->Ok_0@ == b,
            Err(e) => r == Err::<Vec<u8>, MachineError>(e),
        },
{
    let ghost tv = tok_view(t@);
    let n = t.len();
    assert(tv.last() == t@[n - 1]@);
    let v = match imm_byte_of(&t[n - 1]) {
        Ok(v) => v,
        Err(e) => return Err(e),
    };
    let r = vec![v];
    assert(r@ =~= seq![v]);
    Ok(r)
}

fn encode_load_store(t: &Vec<Vec<char>>) -> (r: Result<Vec<u8>, MachineError>)
    requires
        t@.len() >= 1,
    ensures
        match load_store_bytes(tok_view(t@)) {
            Ok(b) => r is Ok && r->Ok_0@ == b,
            Err(e) => r == Err::<Vec<u8>, MachineError>(e),
        },
{
    let ghost tv = tok_view(t@);
    if t.len() < 3 {
        assert(tv[0] == t@[0]@);
        let mnemonic = if is_word(&t[0], "LOAD") {
            Op::Load
        } else {
            Op::Store
        };
        return Err(MachineError::ArityError { mnemonic, tokens: t.len() });
    }
    assert(tv[1] == t@[1]@ && tv[2] == t@[2]@);
    let reg = match reg_byte_of(&t[1]) {
        Ok(r) => r,
        Err(e) => return Err(e),
    };
    let a = match addr_byte_of(&t[2]) {
        Ok(a) => a,
        Err(e) => return Err(e),
    };
    let r = vec![reg, a];
    assert(r@ =~= seq![reg, a]);
    Ok(r)
}

fn encode_add(t: &Vec<Vec<char>>) -> (r: Result<Vec<u8>, MachineError>)
    ensures
        match add_bytes(tok_view(t@)) {
            Ok(b) => r is Ok && r->Ok_0@ == b,
            Err(e) => r == Err::<Vec<u8>, MachineError>(e),
        },
{
    let ghost tv = tok_view(t@);
    if t.len() < 4 {
        return Err(MachineError::ArityError { mnemonic: Op::Add, tokens: t.len() });
    }
    assert(tv[1] == t@[1]@ && tv[2] == t@[2]@ && tv[3] == t@[3]@);
    let a = match reg_byte_of(&t[1]) {
        Ok(r) => r,
        Err(e) => return Err(e),
    };
    let b = match reg_byte_of(&t[2]) {
        Ok(r) => r,
        Err(e) => return Err(e),
    };
    let c = match reg_byte_of(&t[3]) {
        Ok(r) => r,
        Err(e) => return Err(e),
    };
    let r = vec![a, b, c];
    assert(r@ =~= seq![a, b, c]);
    Ok(r)
}

impl Assembler {
    /// An assembler that knows no labels yet.
    pub fn new() -> (a: Self)
        ensures
            a@ == Seq::<(Seq<char>, nat)>::empty(),
    {
        let a = Assembler { labels: Vec::new() };
        assert(a@ =~= Seq::<(Seq<char>, nat)>::empty());
        a
    }

    /// The line of the last label called `name`.
    fn find_label(&self, name: &Vec<char>) -> (r: Option<usize>)
        ensures
            match lookup(self@, name@) {
                Some(n) => r is Some && r->Some_0 as nat == n,
                None => r is None,
            },
    {
        let mut i: usize = self.labels.len();
        assert(labels_view(self.labels@).take(i as int) =~= self@);
        while i > 0
            invariant
                i <= self.labels@.len(),
                lookup(labels_view(self.labels@).take(i as int), name@) == lookup(self@, name@),
            decreases i,
        {
            let ghost v = labels_view(self.labels@).take(i as int);
            assert(v.drop_last() =~= labels_view(self.labels@).take(i - 1));
            if same_chars(&self.labels[i - 1].name, name) {
                return Some(self.labels[i - 1].line);
            }
            i = i - 1;
        }
        None
    }

    fn operand(&self, t: &Vec<char>) -> (r: Result<u8, MachineError>)
        ensures
            r == operand_byte(self@, t@),
    {
        match self.find_label(t) {
            Some(n) => if n < 256 {
                Ok(n as u8)
            } else {
                Err(MachineError::InvalidAddress)
            },
            None => if t.len() > 0 && t[0] == 'R' {
                reg_byte_of(t)
            } else if t.len() > 0 && t[0] == '[' {
                addr_byte_of(t)
            } else {
                imm_byte_of(t)
            },
        }
    }

    /// Appends the bytes of the generic operands `t[1..]` to `out`.
    fn operands(&self, t: &Vec<Vec<char>>, out: &mut Vec<u8>) -> (r: Result<(), MachineError>)
        requires
            t@.len() >= 1,
        ensures
            match operands_bytes(self@, tok_view(t@), 1) {
                Ok(b) => r is Ok && final(out)@ == old(out)@ + b,
                Err(e) => r == Err::<(), MachineError>(e),
            },
    {
        let ghost tv = tok_view(t@);
        let ghost start = out@;
        let mut i: usize = 1;
        assert(start =~= start + Seq::<u8>::empty());
        while i < t.len()
            invariant
                1 <= i <= t@.len(),
                tv == tok_view(t@),
                operands_bytes(self@, tv, 1) == match operands_bytes(self@, tv, i as int) {
                    Ok(rest) => Ok(out@.subrange(start.len() as int, out@.len() as int) + rest),
                    Err(e) => Err(e),
                },
                out@.len() >= start.len(),
                out@.subrange(0, start.len() as int) == start,
            decreases t@.len() - i,
        {
            let b = match self.operand(&t[i]) {
                Ok(b) => b,
                Err(e) => return Err(e),
            };
            let ghost before = out@;
            out.push(b);
            assert(out@.subrange(start.len() as int, out@.len() as int) =~= before.subrange(
                start.len() as int,
                before.len() as int,
            ).push(b));
            assert(out@.subrange(0, start.len() as int) =~= before.subrange(0, start.len() as int));
            proof {
                let tail = operands_bytes(self@, tv, i + 1);
                if tail is Ok {
                    assert(before.subrange(start.len() as int, before.len() as int) + (seq![b]
                        + tail->Ok_0) =~= before.subrange(start.len() as int, before.len() as int).push(
                        b,
                    ) + tail->Ok_0);
                }
            }
            i = i + 1;
        }
        assert(out@ =~= start + out@.subrange(start.len() as int, out@.len() as int));
        Ok(())
    }
}

/// `t` without its last character.
fn without_last(t: &Vec<char>) -> (r: Vec<char>)
    requires
        t@.len() > 0,
    ensures
        r@ == t@.drop_last(),
{
    let mut r: Vec<char> = Vec::new();
    let mut i: usize = 0;
    while i < t.len() - 1
        invariant
            i < t@.len(),
            r@ == t@.take(i as int),
        decreases t@.len() - i,
    {
        r.push(t[i]);
        assert(r@ =~= t@.take(i + 1));
        i = i + 1;
    }
    assert(r@ =~= t@.drop_last());
    r
}

fn label_line(t: &Vec<Vec<char>>) -> (b: bool)
    ensures
        b == is_label_line(tok_view(t@)),
{
    if t.len() == 0 {
        return false;
    }
    let last = &t[t.len() - 1];
    last.len() > 0 && last[last.len() - 1] == ':'
}

fn line_tokens(line: &String) -> (r: Vec<Vec<char>>)
    ensures
        tok_view(r@) == tokens_of(line@),
{
    let chars = chars_of(line.as_str());
    tokenize(&chars)
}

impl Assembler {
    /// Appends the bytes of one source line to `out`.
    fn encode_line(&self, line: &String, out: &mut Vec<u8>) -> (r: Result<(), MachineError>)
        ensures
            match line_bytes(self@, line@) {
                Ok(b) => r is Ok && final(out)@ == old(out)@ + b,
                Err(e) => r == Err::<(), MachineError>(e),
            },
    {
        reveal(line_bytes);
        let t = line_tokens(line);
        let ghost tv = tok_view(t@);
        if t.len() == 0 || label_line(&t) {
            assert(out@ =~= out@ + Seq::<u8>::empty());
            return Ok(());
        }
        assert(tv[0] == t@[0]@);
        let op = match opcode_for(&t[0]) {
            Some(op) => op,
            None => return Err(MachineError::UnknownInstruction),
        };
        let ghost start = out@;
        out.push(op);
        if t.len() == 1 {
            return Ok(());
        }
        let ghost mid = out@;
        let r = self.encode_operands(&t, out);
        proof {
            if r is Ok {
                let b = encoded_operands(self@, tv)->Ok_0;
                assert(out@ =~= start + (seq![op] + b));
            }
        }
        r
    }

    /// Appends the operand bytes of an instruction with operands to `out`.
    fn encode_operands(&self, t: &Vec<Vec<char>>, out: &mut Vec<u8>) -> (r: Result<
        (),
        MachineError,
    >)
        requires
            t@.len() >= 2,
        ensures
            match encoded_operands(self@, tok_view(t@)) {
                Ok(b) => r is Ok && final(out)@ == old(out)@ + b,
                Err(e) => r == Err::<(), MachineError>(e),
            },
    {
        let ghost tv = tok_view(t@);
        assert(tv[0] == t@[0]@);
        let fixed = if is_word(&t[0], "INIT") {
            encode_init(t)
        } else if is_word(&t[0], "VER") {
            encode_ver(t)
        } else if is_word(&t[0], "LOAD") || is_word(&t[0], "STORE") {
            encode_load_store(t)
        } else if is_word(&t[0], "ADD") {
            encode_add(t)
        } else {
            return self.operands(t, out);
        };
        match fixed {
            Ok(bytes) => {
                let mut bytes = bytes;
                out.append(&mut bytes);
                Ok(())
            },
            Err(e) => Err(e),
        }
    }

    /// Records the labels of a program, forgetting earlier ones.
    fn collect_labels(&mut self, lines: &Vec<String>)
        ensures
            final(self)@ == labels_of(lines_view(lines@)),
    {
        self.labels = Vec::new();
        let ghost lv = lines_view(lines@);
        let mut i: usize = 0;
        assert(labels_view(self.labels@) =~= labels_of(lv.take(0)));
        while i < lines.len()
            invariant
                i <= lines@.len(),
                lv == lines_view(lines@),
                labels_view(self.labels@) == labels_of(lv.take(i as int)),
            decreases lines@.len() - i,
        {
            let t = line_tokens(&lines[i]);
            assert(lv.take(i + 1).drop_last() =~= lv.take(i as int));
            assert(lv.take(i + 1).last() == lines@[i as int]@);
            if t.len() == 1 && label_line(&t) {
                assert(tok_view(t@)[0] == t@[0]@);
                let name = without_last(&t[0]);
                let ghost before = self.labels@;
                self.labels.push(Label { name, line: i });
                assert(labels_view(self.labels@) =~= labels_view(before).push(
                    (t@[0]@.drop_last(), i as nat),
                ));
            }
            i = i + 1;
        }
        assert(lv.take(i as int) =~= lv);
    }

    /// Translates a program, one source line per entry, into its bytes.
    /// Labels stand for the index of the line that declares them; the labels
    /// of an earlier program are forgotten first.
    pub fn assemble(&mut self, lines: &Vec<String>) -> (r: Result<Vec<u8>, MachineError>)
        ensures
            final(self)@ == labels_of(lines_view(lines@)),
            match assemble_lines(labels_of(lines_view(lines@)), lines_view(lines@)) {
                Ok(b) => r is Ok && r->Ok_0@ == b,
                Err(e) => r == Err::<Vec<u8>, MachineError>(e),
            },
    {
        self.collect_labels(lines);
        let ghost lv = lines_view(lines@);
        let ghost labels = self@;
        let mut out: Vec<u8> = Vec::new();
        let mut i: usize = 0;
        assert(assemble_lines(labels, lv.take(0)) == Ok::<Seq<u8>, MachineError>(out@)) by {
            assert(lv.take(0) =~= Seq::<Seq<char>>::empty());
            assert(out@ =~= Seq::<u8>::empty());
        }
        while i < lines.len()
            invariant
                i <= lines@.len(),
                lv == lines_view(lines@),
                labels == self@,
                labels == labels_of(lv),
                assemble_lines(labels, lv.take(i as int)) == Ok::<Seq<u8>, MachineError>(out@),
            decreases lines@.len() - i,
        {
            assert(lv.take(i + 1).drop_last() =~= lv.take(i as int));
            assert(lv.take(i + 1).last() == lines@[i as int]@);
            match self.encode_line(&lines[i], &mut out) {
                Ok(()) => {},
                Err(e) => {
                    proof {
                        lemma_assemble_prefix_error(labels, lv, i + 1);
                    }
                    return Err(e);
                },
            }
            i = i + 1;
        }
        assert(lv.take(i as int) =~= lv);
        Ok(out)
    }
}

} // verus!
