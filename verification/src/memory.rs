use vstd::prelude::*;

verus! {

use crate::Chip8Error;

/// Size of the address space in bytes.
pub const MEM_SIZE: usize = 4096;

/// Flat addressable byte store. Range operations are bounds-checked: an
/// access reaching past `MEM_SIZE` is reported as `MemoryOutOfBounds`, never
/// truncated or wrapped around.
pub struct Memory {
    mem: Vec<u8>,
}

impl View for Memory {
    type V = Seq<u8>;

    closed spec fn view(&self) -> Seq<u8> {
        self.mem@
    }
}

/// `data` written into `mem` starting at `start`; bytes outside the window
/// keep their old values.
pub open spec fn write_range(mem: Seq<u8>, start: int, data: Seq<u8>) -> Seq<u8> {
    Seq::new(
        mem.len(),
        |i: int|
            if start <= i < start + data.len() {
                data[i - start]
            } else {
                mem[i]
            },
    )
}

impl Memory {
    /// Every address from 0 to `MEM_SIZE - 1` holds one byte.
    pub open spec fn wf(&self) -> bool {
        self@.len() == MEM_SIZE
    }

    pub fn new() -> (m: Memory)
        ensures
            m.wf(),
            forall|i: int| 0 <= i < MEM_SIZE ==> m@[i] == 0u8,
    {
        let mut v: Vec<u8> = Vec::new();
        let mut n: usize = 0;
        while n < MEM_SIZE
            invariant
                n <= MEM_SIZE,
                v@.len() == n,
                forall|i: int| 0 <= i < n ==> v@[i] == 0u8,
            decreases MEM_SIZE - n,
        {
            v.push(0u8);
            n += 1;
        }
        Memory { mem: v }
    }

    /// Single byte at `index`.
    pub fn get(&self, index: u16) -> (r: u8)
        requires
            self.wf(),
            index < MEM_SIZE,
        ensures
            r == self@[index as int],
    {
        self.mem[index as usize]
    }

    /// Overwrite the single byte at `index`.
    pub fn set(&mut self, index: u16, data: u8)
        requires
            old(self).wf(),
            index < MEM_SIZE,
        ensures
            final(self).wf(),
            final(self)@ == old(self)@.update(index as int, data),
    {
        self.mem[index as usize] = data;
    }

    /// Big-endian 16-bit word at `pc` and `pc + 1`, the shape of one
    /// instruction.
    pub fn get_instr(&self, pc: u16) -> (r: Result<u16, Chip8Error>)
        requires
            self.wf(),
        ensures
            pc as int + 1 < MEM_SIZE ==> r == Ok::<u16, Chip8Error>(
                ((self@[pc as int] as int) * 256 + (self@[pc as int + 1] as int)) as u16,
            ),
            pc as int + 1 >= MEM_SIZE ==> r == Err::<u16, Chip8Error>(
                Chip8Error::MemoryOutOfBounds,
            ),
    {
        if (pc as usize) < MEM_SIZE - 1 {
            let hi = self.mem[pc as usize];
            let lo = self.mem[pc as usize + 1];
            Ok((hi as u16) * 256 + (lo as u16))
        } else {
            Err(Chip8Error::MemoryOutOfBounds)
        }
    }

    /// Copy `target` (of length `size`) into memory starting at `start`.
    pub fn map_range(&mut self, start: usize, size: usize, target: &[u8]) -> (r: Result<
        (),
        Chip8Error,
    >)
        requires
            old(self).wf(),
            target@.len() == size,
        ensures
            final(self).wf(),
            start + size <= MEM_SIZE ==> r == Ok::<(), Chip8Error>(()) && final(self)@
                == write_range(old(self)@, start as int, target@),
            start + size > MEM_SIZE ==> r == Err::<(), Chip8Error>(Chip8Error::MemoryOutOfBounds)
                && final(self)@ == old(self)@,
    {
        if size <= MEM_SIZE && start <= MEM_SIZE - size {
            let mut j: usize = 0;
            while j < size
                invariant
                    j <= size,
                    start + size <= MEM_SIZE,
                    target@.len() == size,
                    self.mem@.len() == MEM_SIZE,
                    forall|i: int|
                        0 <= i < MEM_SIZE ==> self.mem@[i] == (if start <= i < start + j {
                            target@[i - start]
                        } else {
                            old(self)@[i]
                        }),
                decreases size - j,
            {
                self.mem[start + j] = target[j];
                j += 1;
            }
            proof {
                assert(self.mem@ =~= write_range(old(self)@, start as int, target@));
            }
            Ok(())
        } else {
            Err(Chip8Error::MemoryOutOfBounds)
        }
    }

    /// Copy of the `size` bytes starting at `start`.
    pub fn get_range(&self, start: usize, size: usize) -> (r: Result<Vec<u8>, Chip8Error>)
        requires
            self.wf(),
        ensures
            start + size <= MEM_SIZE ==> (r matches Ok(v) && v@ == self@.subrange(
                start as int,
                start as int + size as int,
            )),
            start + size > MEM_SIZE ==> r == Err::<Vec<u8>, Chip8Error>(
                Chip8Error::MemoryOutOfBounds,
            ),
    {
        if size <= MEM_SIZE && start <= MEM_SIZE - size {
            let mut v: Vec<u8> = Vec::new();
            let mut j: usize = 0;
            while j < size
                invariant
                    j <= size,
                    start + size <= MEM_SIZE,
                    self.wf(),
                    v@.len() == j,
                    forall|k: int| 0 <= k < j ==> v@[k] == self@[start + k],
                decreases size - j,
            {
                v.push(self.mem[start + j]);
                j += 1;
            }
            proof {
                assert(v@ =~= self@.subrange(start as int, start as int + size as int));
            }
            Ok(v)
        } else {
            Err(Chip8Error::MemoryOutOfBounds)
        }
    }
}

} // verus!
