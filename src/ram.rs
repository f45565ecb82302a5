//! Fixed-size, bounds-checked byte memory.
use vstd::prelude::*;
use crate::error::MachineError;

verus! {

/// Number of cells in memory.
pub const RAM_SIZE: usize = 256;

/// What `read` returns on memory `m` at `address`.
pub open spec fn read_result(m: Seq<u8>, address: int) -> Result<u8, MachineError> {
    if 0 <= address < RAM_SIZE {
        Ok(m[address])
    } else {
        Err(MachineError::OutOfBounds(address as usize))
    }
}

/// What `write` leaves in memory `m`: the cell updated, or `m` unchanged
/// with the error.
pub open spec fn write_result(m: Seq<u8>, address: int, value: u8) -> Result<Seq<u8>, MachineError> {
    if 0 <= address < RAM_SIZE {
        Ok(m.update(address, value))
    } else {
        Err(MachineError::OutOfBounds(address as usize))
    }
}

/// The eight characters `0` / `1` that write `v` in binary, most
/// significant bit first.
pub open spec fn bits8(v: u8) -> Seq<char> {
    Seq::new(8, |i: int| if (v >> (7 - i) as u8) & 1u8 == 1u8 { '1' } else { '0' })
}

/// First cell that `dump(start, length)` shows, and one past the last.
pub open spec fn dump_end(start: int, length: int) -> int {
    if start + length < RAM_SIZE {
        start + length
    } else {
        RAM_SIZE as int
    }
}

/// The memory cells, as a byte array of fixed size.
pub struct RAM {
    memory: [u8; RAM_SIZE],
}

impl View for RAM {
    type V = Seq<u8>;

    closed spec fn view(&self) -> Seq<u8> {
        self.memory@
    }
}

impl RAM {
    /// Memory always has exactly `RAM_SIZE` cells.
    pub proof fn lemma_size(&self)
        ensures
            self@.len() == RAM_SIZE,
    {
    }

    /// Memory with every cell zero.
    pub fn new() -> (r: Self)
        ensures
            r@ == Seq::new(RAM_SIZE as nat, |i: int| 0u8),
    {
        let r = RAM { memory: [0u8; RAM_SIZE] };
        assert(r@ =~= Seq::new(RAM_SIZE as nat, |i: int| 0u8));
        r
    }

    pub fn read(&self, address: usize) -> (r: Result<u8, MachineError>)
        ensures
            r == read_result(self@, address as int),
    {
        if address >= RAM_SIZE {
            Err(MachineError::OutOfBounds(address))
        } else {
            Ok(self.memory[address])
        }
    }

    pub fn write(&mut self, address: usize, value: u8) -> (r: Result<(), MachineError>)
        ensures
            match write_result(old(self)@, address as int, value) {
                Ok(m) => r == Ok::<(), MachineError>(()) && final(self)@ == m,
                Err(e) => r == Err::<(), MachineError>(e) && final(self)@ == old(self)@,
            },
    {
        if address >= RAM_SIZE {
            Err(MachineError::OutOfBounds(address))
        } else {
            self.memory[address] = value;
            Ok(())
        }
    }

    /// The cells from `start` up to `start + length` (clamped to the end of
    /// memory), each as an 8-character binary string.
    pub fn dump(&self, start: usize, length: usize) -> (r: Vec<String>)
        ensures
            start >= RAM_SIZE ==> r@.len() == 0,
            start < RAM_SIZE ==> r@.len() == dump_end(start as int, length as int) - start,
            forall|i: int| 0 <= i < r@.len() ==> #[trigger] r@[i]@ == bits8(self@[start + i]),
    {
        let mut r: Vec<String> = Vec::new();
        if start >= RAM_SIZE {
            return r;
        }
        let end: usize = if length < RAM_SIZE - start { start + length } else { RAM_SIZE };
        let mut i: usize = start;
        while i < end
            invariant
                start <= i <= end <= RAM_SIZE,
                end == dump_end(start as int, length as int),
                r@.len() == i - start,
                forall|k: int| 0 <= k < r@.len() ==> #[trigger] r@[k]@ == bits8(self@[start + k]),
            decreases end - i,
        {
            r.push(binary_string(self.memory[i]));
            i = i + 1;
        }
        r
    }
}

/// `v` written as eight binary digits, most significant first.
pub fn binary_string(v: u8) -> (s: String)
    ensures
        s@ == bits8(v),
{
    let mut s = String::from_str("");
    proof {
        reveal_strlit("");
    }
    let mut k: u8 = 0;
    while k < 8
        invariant
            k <= 8,
            s@ == bits8(v).take(k as int),
        decreases 8 - k,
    {
        let bit = (v >> (7 - k)) & 1u8;
        assert(bits8(v)[k as int] == if bit == 1u8 { '1' } else { '0' });
        proof {
            reveal_strlit("0");
            reveal_strlit("1");
        }
        if bit == 1u8 {
            s.append("1");
        } else {
            s.append("0");
        }
        assert(s@ =~= bits8(v).take(k + 1));
        k = k + 1;
    }
    assert(s@ =~= bits8(v));
    s
}

/// A value written to an address inside memory is what a read of that
/// address then returns.
pub proof fn lemma_write_then_read(m: Seq<u8>, address: int, value: u8)
    requires
        m.len() == RAM_SIZE,
        0 <= address < RAM_SIZE,
    ensures
        write_result(m, address, value) is Ok,
        read_result(write_result(m, address, value)->Ok_0, address) == Ok::<u8, MachineError>(value),
{
}

/// Reads and writes at an address past the end of memory fail with
/// `OutOfBounds` and leave memory as it was.
pub proof fn lemma_outside_fails(m: Seq<u8>, address: int, value: u8)
    requires
        address >= RAM_SIZE,
    ensures
        read_result(m, address) == Err::<u8, MachineError>(MachineError::OutOfBounds(address as usize)),
        write_result(m, address, value) == Err::<Seq<u8>, MachineError>(MachineError::OutOfBounds(address as usize)),
{
}

} // verus!
