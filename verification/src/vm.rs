use vstd::prelude::*;

verus! {

use crate::Chip8Error;
use crate::display::{Display, draw_spec, draw_collides, NUM_PIXELS};
use crate::keypad::{Keypad, key_down, first_key};
use crate::memory::{Memory, write_range, MEM_SIZE};

/// Address at which program images are loaded and execution starts.
pub const START_ADDR: u16 = 0x200;

/// Address at which the built-in font glyphs are stored.
pub const FONT_START_ADDR: u16 = 0x50;

/// Height in bytes (and pixels) of one font glyph.
pub const FONT_HEIGHT: u16 = 5;

/// Number of general-purpose registers.
pub const NUM_REGISTERS: usize = 16;

/// Depth of the call stack, as on the original hardware; a call at this
/// depth fails with `StackOverflow`.
pub const STACK_DEPTH: usize = 16;

/// Resolutions of the historically ambiguous instructions. Real
/// interpreters disagree on these, and some programs depend on one answer,
/// so each is an explicit switch. `Quirks::default()` picks the behaviour of
/// the COSMAC VIP line for jump-with-offset, the CHIP-48 line for shifts,
/// and leaves the index-add flag off.
#[derive(Clone, Copy, Debug, PartialEq, Eq, Structural)]
pub struct Quirks {
    /// 8XY6/8XYE shift VY (original VIP) rather than VX (CHIP-48 onward).
    pub shift_reads_vy: bool,
    /// BNNN jumps to XNN + VX (CHIP-48) rather than NNN + V0 (VIP).
    pub jump_reads_vx: bool,
    /// FX1E sets VF to 1 when I + VX leaves the 12-bit address range.
    pub add_index_carry: bool,
}

impl Default for Quirks {
    /// All switches off: shifts read VX, BNNN adds V0, FX1E leaves VF alone.
    fn default() -> (q: Quirks)
        ensures
            q == (Quirks { shift_reads_vy: false, jump_reads_vx: false, add_index_carry: false }),
    {
        Quirks { shift_reads_vy: false, jump_reads_vx: false, add_index_carry: false }
    }
}

/// One decoded instruction: the operation and its typed operands, with the
/// unmapped encodings as an explicit `Illegal` case. Register operands are
/// indices below 16; address operands are below 4096.
#[derive(Clone, Copy, Debug, PartialEq, Eq, Structural)]
pub enum Op {
    /// 00E0: clear the display.
    Cls,
    /// 00EE: return from subroutine.
    Ret,
    /// 1NNN: jump.
    Jump(u16),
    /// 2NNN: call subroutine.
    Call(u16),
    /// 3XNN: skip next instruction if VX == NN.
    SkipEqImm(usize, u8),
    /// 4XNN: skip next instruction if VX != NN.
    SkipNeImm(usize, u8),
    /// 5XY0: skip next instruction if VX == VY.
    SkipEqReg(usize, usize),
    /// 6XNN: VX = NN.
    SetImm(usize, u8),
    /// 7XNN: VX += NN mod 256, VF untouched.
    AddImm(usize, u8),
    /// 8XY0: VX = VY.
    Mov(usize, usize),
    /// 8XY1: VX |= VY.
    Or(usize, usize),
    /// 8XY2: VX &= VY.
    And(usize, usize),
    /// 8XY3: VX ^= VY.
    Xor(usize, usize),
    /// 8XY4: VX += VY mod 256, VF = carry.
    Add(usize, usize),
    /// 8XY5: VX -= VY mod 256, VF = no-borrow.
    Sub(usize, usize),
    /// 8XY6: shift right, VF = bit shifted out.
    Shr(usize, usize),
    /// 8XY7: VX = VY - VX mod 256, VF = no-borrow.
    SubFrom(usize, usize),
    /// 8XYE: shift left, VF = bit shifted out.
    Shl(usize, usize),
    /// 9XY0: skip next instruction if VX != VY.
    SkipNeReg(usize, usize),
    /// ANNN: I = NNN.
    SetIndex(u16),
    /// BNNN: jump to NNN plus an offset register.
    JumpOffset(usize, u16),
    /// CXNN: VX = NN AND a random byte.
    Rand(usize, u8),
    /// DXYN: draw an N-row sprite from memory[I..] at (VX, VY).
    Draw(usize, usize, u8),
    /// EX9E: skip next instruction if key VX is pressed.
    SkipKey(usize),
    /// EXA1: skip next instruction if key VX is not pressed.
    SkipNoKey(usize),
    /// FX07: VX = delay timer.
    ReadDelay(usize),
    /// FX0A: block until a key is pressed, then VX = its index.
    WaitKey(usize),
    /// FX15: delay timer = VX.
    SetDelay(usize),
    /// FX18: sound timer = VX.
    SetSound(usize),
    /// FX1E: I += VX.
    AddIndex(usize),
    /// FX29: I = font address of digit VX.
    FontAddr(usize),
    /// FX33: write VX in binary-coded decimal to memory[I..I+3].
    StoreBcd(usize),
    /// FX55: memory[I..I+X+1] = V0..VX.
    StoreRegs(usize),
    /// FX65: V0..VX = memory[I..I+X+1].
    LoadRegs(usize),
    /// An encoding outside the instruction set.
    Illegal,
}

/// Bits 8-11 of an instruction: the first register operand.
pub open spec fn spec_x(instr: u16) -> usize {
    ((instr & 0x0F00) >> 8) as usize
}

/// Bits 4-7 of an instruction: the second register operand.
pub open spec fn spec_y(instr: u16) -> usize {
    ((instr & 0x00F0) >> 4) as usize
}

/// Bits 0-3 of an instruction: the short immediate.
pub open spec fn spec_n(instr: u16) -> u8 {
    (instr & 0x000F) as u8
}

/// The low byte of an instruction: the byte immediate.
pub open spec fn spec_nn(instr: u16) -> u8 {
    (instr & 0x00FF) as u8
}

/// The low 12 bits of an instruction: the address immediate.
pub open spec fn spec_nnn(instr: u16) -> u16 {
    instr & 0x0FFF
}

/// The decoded operand fields lie in their ranges.
pub proof fn lemma_field_bounds(instr: u16)
    ensures
        spec_x(instr) < 16,
        spec_y(instr) < 16,
        spec_n(instr) < 16,
        spec_nnn(instr) < 4096,
{
    assert((instr & 0x0F00) >> 8 < 16 && (instr & 0x00F0) >> 4 < 16 && (instr & 0x000F) < 16 && (
    instr & 0x0FFF) < 4096) by (bit_vector);
}

pub fn get_x(instr: u16) -> (x: usize)
    ensures
        x == spec_x(instr),
{
    ((instr & 0x0F00) >> 8) as usize
}

pub fn get_y(instr: u16) -> (y: usize)
    ensures
        y == spec_y(instr),
{
    ((instr & 0x00F0) >> 4) as usize
}

pub fn get_n(instr: u16) -> (n: u8)
    ensures
        n == spec_n(instr),
{
    (instr & 0x000F) as u8
}

pub fn get_nn(instr: u16) -> (nn: u8)
    ensures
        nn == spec_nn(instr),
{
    (instr & 0x00FF) as u8
}

pub fn get_nnn(instr: u16) -> (nnn: u16)
    ensures
        nnn == spec_nnn(instr),
{
    instr & 0x0FFF
}

/// The operation and operands encoded by one 16-bit instruction word.
pub open spec fn decode_spec(instr: u16) -> Op {
    let x = spec_x(instr);
    let y = spec_y(instr);
    let n = spec_n(instr);
    let nn = spec_nn(instr);
    let nnn = spec_nnn(instr);
    let fam = instr & 0xF000;
    if instr == 0x00E0 {
        Op::Cls
    } else if instr == 0x00EE {
        Op::Ret
    } else if fam == 0x1000 {
        Op::Jump(nnn)
    } else if fam == 0x2000 {
        Op::Call(nnn)
    } else if fam == 0x3000 {
        Op::SkipEqImm(x, nn)
    } else if fam == 0x4000 {
        Op::SkipNeImm(x, nn)
    } else if fam == 0x5000 {
        if n == 0 {
            Op::SkipEqReg(x, y)
        } else {
            Op::Illegal
        }
    } else if fam == 0x6000 {
        Op::SetImm(x, nn)
    } else if fam == 0x7000 {
        Op::AddImm(x, nn)
    } else if fam == 0x8000 {
        if n == 0 {
            Op::Mov(x, y)
        } else if n == 1 {
            Op::Or(x, y)
        } else if n == 2 {
            Op::And(x, y)
        } else if n == 3 {
            Op::Xor(x, y)
        } else if n == 4 {
            Op::Add(x, y)
        } else if n == 5 {
            Op::Sub(x, y)
        } else if n == 6 {
            Op::Shr(x, y)
        } else if n == 7 {
            Op::SubFrom(x, y)
        } else if n == 0xE {
            Op::Shl(x, y)
        } else {
            Op::Illegal
        }
    } else if fam == 0x9000 {
        if n == 0 {
            Op::SkipNeReg(x, y)
        } else {
            Op::Illegal
        }
    } else if fam == 0xA000 {
        Op::SetIndex(nnn)
    } else if fam == 0xB000 {
        Op::JumpOffset(x, nnn)
    } else if fam == 0xC000 {
        Op::Rand(x, nn)
    } else if fam == 0xD000 {
        Op::Draw(x, y, n)
    } else if fam == 0xE000 {
        if nn == 0x9E {
            Op::SkipKey(x)
        } else if nn == 0xA1 {
            Op::SkipNoKey(x)
        } else {
            Op::Illegal
        }
    } else if fam == 0xF000 {
        if nn == 0x07 {
            Op::ReadDelay(x)
        } else if nn == 0x0A {
            Op::WaitKey(x)
        } else if nn == 0x15 {
            Op::SetDelay(x)
        } else if nn == 0x18 {
            Op::SetSound(x)
        } else if nn == 0x1E {
            Op::AddIndex(x)
        } else if nn == 0x29 {
            Op::FontAddr(x)
        } else if nn == 0x33 {
            Op::StoreBcd(x)
        } else if nn == 0x55 {
            Op::StoreRegs(x)
        } else if nn == 0x65 {
            Op::LoadRegs(x)
        } else {
            Op::Illegal
        }
    } else {
        Op::Illegal
    }
}

/// Decode one instruction word into its tagged operation.
pub fn decode(instr: u16) -> (op: Op)
    ensures
        op == decode_spec(instr),
{
    let x = get_x(instr);
    let y = get_y(instr);
    let n = get_n(instr);
    let nn = get_nn(instr);
    let nnn = get_nnn(instr);
    let fam = instr & 0xF000;
    if instr == 0x00E0 {
        Op::Cls
    } else if instr == 0x00EE {
        Op::Ret
    } else if fam == 0x1000 {
        Op::Jump(nnn)
    } else if fam == 0x2000 {
        Op::Call(nnn)
    } else if fam == 0x3000 {
        Op::SkipEqImm(x, nn)
    } else if fam == 0x4000 {
        Op::SkipNeImm(x, nn)
    } else if fam == 0x5000 {
        if n == 0 {
            Op::SkipEqReg(x, y)
        } else {
            Op::Illegal
        }
    } else if fam == 0x6000 {
        Op::SetImm(x, nn)
    } else if fam == 0x7000 {
        Op::AddImm(x, nn)
    } else if fam == 0x8000 {
        if n == 0 {
            Op::Mov(x, y)
        } else if n == 1 {
            Op::Or(x, y)
        } else if n == 2 {
            Op::And(x, y)
        } else if n == 3 {
            Op::Xor(x, y)
        } else if n == 4 {
            Op::Add(x, y)
        } else if n == 5 {
            Op::Sub(x, y)
        } else if n == 6 {
            Op::Shr(x, y)
        } else if n == 7 {
            Op::SubFrom(x, y)
        } else if n == 0xE {
            Op::Shl(x, y)
        } else {
            Op::Illegal
        }
    } else if fam == 0x9000 {
        if n == 0 {
            Op::SkipNeReg(x, y)
        } else {
            Op::Illegal
        }
    } else if fam == 0xA000 {
        Op::SetIndex(nnn)
    } else if fam == 0xB000 {
        Op::JumpOffset(x, nnn)
    } else if fam == 0xC000 {
        Op::Rand(x, nn)
    } else if fam == 0xD000 {
        Op::Draw(x, y, n)
    } else if fam == 0xE000 {
        if nn == 0x9E {
            Op::SkipKey(x)
        } else if nn == 0xA1 {
            Op::SkipNoKey(x)
        } else {
            Op::Illegal
        }
    } else if fam == 0xF000 {
        if nn == 0x07 {
            Op::ReadDelay(x)
        } else if nn == 0x0A {
            Op::WaitKey(x)
        } else if nn == 0x15 {
            Op::SetDelay(x)
        } else if nn == 0x18 {
            Op::SetSound(x)
        } else if nn == 0x1E {
            Op::AddIndex(x)
        } else if nn == 0x29 {
            Op::FontAddr(x)
        } else if nn == 0x33 {
            Op::StoreBcd(x)
        } else if nn == 0x55 {
            Op::StoreRegs(x)
        } else if nn == 0x65 {
            Op::LoadRegs(x)
        } else {
            Op::Illegal
        }
    } else {
        Op::Illegal
    }
}

/// The whole machine state as mathematical values: the model over which
/// every instruction's effect is specified.
#[verifier::ext_equal]
pub ghost struct State {
    pub mem: Seq<u8>,
    pub pc: u16,
    pub ir: u16,
    pub stack: Seq<u16>,
    pub delay_t: u8,
    pub sound_t: u8,
    pub fb: Seq<u8>,
    pub regs: Seq<u8>,
    pub keys: u16,
    pub redraw: bool,
    pub quirks: Quirks,
}

/// Structural validity of a machine state: component sizes and one-bit
/// pixels.
pub open spec fn state_wf(s: State) -> bool {
    &&& s.mem.len() == MEM_SIZE
    &&& s.fb.len() == NUM_PIXELS
    &&& (forall|i: int| 0 <= i < NUM_PIXELS ==> (s.fb[i] == 0 || s.fb[i] == 1))
    &&& s.regs.len() == NUM_REGISTERS
    &&& s.stack.len() <= STACK_DEPTH
}

/// The big-endian instruction word at `pc`.
pub open spec fn instr_at(mem: Seq<u8>, pc: u16) -> u16 {
    ((mem[pc as int] as int) * 256 + (mem[pc as int + 1] as int)) as u16
}

/// One fetch-decode-execute cycle over the state model: the meaning of
/// every opcode, exactly as the interpreter must realize it. `rnd` is the
/// byte drawn for CXNN; every other operation ignores it. An `Err` means
/// the cycle fails and the machine is left as it was.
pub open spec fn step(s: State, rnd: u8) -> Result<State, Chip8Error> {
    if s.pc as int + 1 >= MEM_SIZE {
        Err(Chip8Error::MemoryOutOfBounds)
    } else {
        let instr = instr_at(s.mem, s.pc);
        let pc2 = (s.pc + 2) as u16;
        let pc_skip = (s.pc + 4) as u16;
        match decode_spec(instr) {
            Op::Cls => Ok(
                State { pc: pc2, fb: Seq::new(NUM_PIXELS as nat, |i: int| 0u8), redraw: true, ..s },
            ),
            Op::Ret => if s.stack.len() == 0 {
                Err(Chip8Error::StackUnderflow)
            } else {
                Ok(State { pc: s.stack.last(), stack: s.stack.drop_last(), ..s })
            },
            Op::Jump(nnn) => Ok(State { pc: nnn, ..s }),
            Op::Call(nnn) => if s.stack.len() >= STACK_DEPTH {
                Err(Chip8Error::StackOverflow)
            } else {
                Ok(State { pc: nnn, stack: s.stack.push(pc2), ..s })
            },
            Op::SkipEqImm(x, nn) => Ok(
                State {
                    pc: if s.regs[x as int] == nn {
                        pc_skip
                    } else {
                        pc2
                    },
                    ..s
                },
            ),
            Op::SkipNeImm(x, nn) => Ok(
                State {
                    pc: if s.regs[x as int] != nn {
                        pc_skip
                    } else {
                        pc2
                    },
                    ..s
                },
            ),
            Op::SkipEqReg(x, y) => Ok(
                State {
                    pc: if s.regs[x as int] == s.regs[y as int] {
                        pc_skip
                    } else {
                        pc2
                    },
                    ..s
                },
            ),
            Op::SetImm(x, nn) => Ok(State { pc: pc2, regs: s.regs.update(x as int, nn), ..s }),
            Op::AddImm(x, nn) => Ok(
                State {
                    pc: pc2,
                    regs: s.regs.update(x as int, ((s.regs[x as int] + nn) % 256) as u8),
                    ..s
                },
            ),
            Op::Mov(x, y) => Ok(
                State { pc: pc2, regs: s.regs.update(x as int, s.regs[y as int]), ..s },
            ),
            Op::Or(x, y) => Ok(
                State {
                    pc: pc2,
                    regs: s.regs.update(x as int, s.regs[x as int] | s.regs[y as int]),
                    ..s
                },
            ),
            Op::And(x, y) => Ok(
                State {
                    pc: pc2,
                    regs: s.regs.update(x as int, s.regs[x as int] & s.regs[y as int]),
                    ..s
                },
            ),
            Op::Xor(x, y) => Ok(
                State {
                    pc: pc2,
                    regs: s.regs.update(x as int, s.regs[x as int] ^ s.regs[y as int]),
                    ..s
                },
            ),
            Op::Add(x, y) => {
                let sum = s.regs[x as int] + s.regs[y as int];
                Ok(
                    State {
                        pc: pc2,
                        regs: s.regs.update(x as int, (sum % 256) as u8).update(
                            15,
                            if sum > 255 {
                                1u8
                            } else {
                                0u8
                            },
                        ),
                        ..s
                    },
                )
            },
            Op::Sub(x, y) => {
                let vx = s.regs[x as int];
                let vy = s.regs[y as int];
                Ok(
                    State {
                        pc: pc2,
                        regs: s.regs.update(x as int, ((vx - vy) % 256) as u8).update(
                            15,
                            if vx >= vy {
                                1u8
                            } else {
                                0u8
                            },
                        ),
                        ..s
                    },
                )
            },
            Op::Shr(x, y) => {
                let src = if s.quirks.shift_reads_vy {
                    s.regs[y as int]
                } else {
                    s.regs[x as int]
                };
                Ok(
                    State {
                        pc: pc2,
                        regs: s.regs.update(x as int, src >> 1).update(15, src & 1),
                        ..s
                    },
                )
            },
            Op::SubFrom(x, y) => {
                let vx = s.regs[x as int];
                let vy = s.regs[y as int];
                Ok(
                    State {
                        pc: pc2,
                        regs: s.regs.update(x as int, ((vy - vx) % 256) as u8).update(
                            15,
                            if vy >= vx {
                                1u8
                            } else {
                                0u8
                            },
                        ),
                        ..s
                    },
                )
            },
            Op::Shl(x, y) => {
                let src = if s.quirks.shift_reads_vy {
                    s.regs[y as int]
                } else {
                    s.regs[x as int]
                };
                Ok(
                    State {
                        pc: pc2,
                        regs: s.regs.update(x as int, ((src * 2) % 256) as u8).update(
                            15,
                            src >> 7,
                        ),
                        ..s
                    },
                )
            },
            Op::SkipNeReg(x, y) => Ok(
                State {
                    pc: if s.regs[x as int] != s.regs[y as int] {
                        pc_skip
                    } else {
                        pc2
                    },
                    ..s
                },
            ),
            Op::SetIndex(nnn) => Ok(State { pc: pc2, ir: nnn, ..s }),
            Op::JumpOffset(x, nnn) => {
                let off = if s.quirks.jump_reads_vx {
                    s.regs[x as int]
                } else {
                    s.regs[0]
                };
                Ok(State { pc: (nnn + off) as u16, ..s })
            },
            Op::Rand(x, nn) => Ok(State { pc: pc2, regs: s.regs.update(x as int, nn & rnd), ..s }),
            Op::Draw(x, y, n) => if s.ir as int + n as int > MEM_SIZE {
                Err(Chip8Error::MemoryOutOfBounds)
            } else {
                let sprite = s.mem.subrange(s.ir as int, s.ir as int + n as int);
                let vx = s.regs[x as int];
                let vy = s.regs[y as int];
                let flag: u8 = if draw_collides(s.fb, vx as int, vy as int, n as int, sprite) {
                    1u8
                } else {
                    0u8
                };
                Ok(
                    State {
                        pc: pc2,
                        fb: draw_spec(s.fb, vx as int, vy as int, n as int, sprite),
                        regs: s.regs.update(15, flag),
                        redraw: true,
                        ..s
                    },
                )
            },
            Op::SkipKey(x) => Ok(
                State {
                    pc: if key_down(s.keys, (s.regs[x as int] & 0x0F) as u16) {
                        pc_skip
                    } else {
                        pc2
                    },
                    ..s
                },
            ),
            Op::SkipNoKey(x) => Ok(
                State {
                    pc: if !key_down(s.keys, (s.regs[x as int] & 0x0F) as u16) {
                        pc_skip
                    } else {
                        pc2
                    },
                    ..s
                },
            ),
            Op::ReadDelay(x) => Ok(State { pc: pc2, regs: s.regs.update(x as int, s.delay_t), ..s }),
            Op::WaitKey(x) => if s.keys == 0 {
                Ok(State { pc: s.pc, ..s })
            } else {
                Ok(
                    State {
                        pc: pc2,
                        regs: s.regs.update(x as int, first_key(s.keys) as u8),
                        ..s
                    },
                )
            },
            Op::SetDelay(x) => Ok(State { pc: pc2, delay_t: s.regs[x as int], ..s }),
            Op::SetSound(x) => Ok(State { pc: pc2, sound_t: s.regs[x as int], ..s }),
            Op::AddIndex(x) => {
                let sum = s.ir as int + s.regs[x as int] as int;
                let regs2 = if s.quirks.add_index_carry {
                    s.regs.update(
                        15,
                        if sum > 0xFFF {
                            1u8
                        } else {
                            0u8
                        },
                    )
                } else {
                    s.regs
                };
                Ok(State { pc: pc2, ir: (sum % 0x10000) as u16, regs: regs2, ..s })
            },
            Op::FontAddr(x) => Ok(
                State {
                    pc: pc2,
                    ir: (FONT_START_ADDR + FONT_HEIGHT * s.regs[x as int] as int) as u16,
                    ..s
                },
            ),
            Op::StoreBcd(x) => if s.ir as int + 2 >= MEM_SIZE {
                Err(Chip8Error::MemoryOutOfBounds)
            } else {
                let v = s.regs[x as int];
                Ok(
                    State {
                        pc: pc2,
                        mem: s.mem.update(s.ir as int, ((v / 100) % 10) as u8).update(
                            s.ir as int + 1,
                            ((v / 10) % 10) as u8,
                        ).update(s.ir as int + 2, (v % 10) as u8),
                        ..s
                    },
                )
            },
            Op::StoreRegs(x) => if s.ir as int + x as int + 1 > MEM_SIZE {
                Err(Chip8Error::MemoryOutOfBounds)
            } else {
                Ok(
                    State {
                        pc: pc2,
                        mem: write_range(s.mem, s.ir as int, s.regs.subrange(0, x as int + 1)),
                        ..s
                    },
                )
            },
            Op::LoadRegs(x) => if s.ir as int + x as int + 1 > MEM_SIZE {
                Err(Chip8Error::MemoryOutOfBounds)
            } else {
                Ok(
                    State {
                        pc: pc2,
                        regs: write_range(
                            s.regs,
                            0,
                            s.mem.subrange(s.ir as int, s.ir as int + x as int + 1),
                        ),
                        ..s
                    },
                )
            },
            Op::Illegal => Err(Chip8Error::IllegalInstruction),
        }
    }
}

/// What one call of `emulate_cycle` guarantees, given the byte `b` that the
/// random source produced: on success the machine moves to exactly the
/// state `step` prescribes; on failure the reported error is the one `step`
/// prescribes and the machine is unchanged.
pub open spec fn cycle_post(pre: State, post: State, b: u8, r: Result<(), Chip8Error>) -> bool {
    match step(pre, b) {
        Ok(s) => r == Ok::<(), Chip8Error>(()) && post == s,
        Err(e) => r == Err::<(), Chip8Error>(e) && post == pre,
    }
}

/// The sixteen 5-byte glyph bitmaps for hex digits 0-F.
pub open spec fn font_seq() -> Seq<u8> {
    seq![
        0xF0u8, 0x90, 0x90, 0x90, 0xF0,// 0
        0x20, 0x60, 0x20, 0x20, 0x70,// 1
        0xF0, 0x10, 0xF0, 0x80, 0xF0,// 2
        0xF0, 0x10, 0xF0, 0x10, 0xF0,// 3
        0x90, 0x90, 0xF0, 0x10, 0x10,// 4
        0xF0, 0x80, 0xF0, 0x10, 0xF0,// 5
        0xF0, 0x80, 0xF0, 0x90, 0xF0,// 6
        0xF0, 0x10, 0x20, 0x40, 0x40,// 7
        0xF0, 0x90, 0xF0, 0x90, 0xF0,// 8
        0xF0, 0x90, 0xF0, 0x10, 0xF0,// 9
        0xF0, 0x90, 0xF0, 0x90, 0x90,// A
        0xE0, 0x90, 0xE0, 0x90, 0xE0,// B
        0xF0, 0x80, 0x80, 0x80, 0xF0,// C
        0xE0, 0x90, 0x90, 0x90, 0xE0,// D
        0xF0, 0x80, 0xF0, 0x80, 0xF0,// E
        0xF0, 0x80, 0xF0, 0x80, 0x80,// F
    ]
}

/// The interpreter: owns the memory, framebuffer, keypad, register file,
/// program counter, index register, call stack and both timers, and realizes
/// the fetch-decode-execute cycle that `step` specifies.
pub struct VM {
    memory: Memory,
    pc: u16,
    ir: u16,
    stack: Vec<u16>,
    delay_t: u8,
    sound_t: u8,
    display: Display,
    registers: Vec<u8>,
    keys: Keypad,
    redraw: bool,
    quirks: Quirks,
}

impl View for VM {
    type V = State;

    closed spec fn view(&self) -> State {
        State {
            mem: self.memory@,
            pc: self.pc,
            ir: self.ir,
            stack: self.stack@,
            delay_t: self.delay_t,
            sound_t: self.sound_t,
            fb: self.display@,
            regs: self.registers@,
            keys: self.keys@,
            redraw: self.redraw,
            quirks: self.quirks,
        }
    }
}

/// A plain copy of the observable machine registers for host-side
/// inspection: PC, I, V0-VF and both timers.
pub struct Snapshot {
    pub pc: u16,
    pub ir: u16,
    pub v: Vec<u8>,
    pub delay_t: u8,
    pub sound_t: u8,
}

impl VM {
    /// The machine state is structurally valid.
    pub open spec fn wf(&self) -> bool {
        state_wf(self@)
    }

    /// A fresh machine: font table in memory, PC at the program start
    /// address, everything else zeroed, default quirks.
    pub fn new() -> (vm: VM)
        ensures
            vm.wf(),
            vm@.pc == START_ADDR,
            vm@.ir == 0,
            vm@.stack == Seq::<u16>::empty(),
            vm@.delay_t == 0,
            vm@.sound_t == 0,
            vm@.keys == 0,
            vm@.redraw == false,
            vm@.quirks == (Quirks {
                shift_reads_vy: false,
                jump_reads_vx: false,
                add_index_carry: false,
            }),
            forall|i: int| 0 <= i < NUM_REGISTERS ==> vm@.regs[i] == 0,
            forall|i: int| 0 <= i < NUM_PIXELS ==> vm@.fb[i] == 0,
            forall|i: int|
                FONT_START_ADDR <= i < FONT_START_ADDR + 80 ==> vm@.mem[i] == font_seq()[i
                    - FONT_START_ADDR],
            forall|i: int|
                0 <= i < MEM_SIZE && !(FONT_START_ADDR <= i < FONT_START_ADDR + 80) ==> vm@.mem[i]
                    == 0,
    {
        let mut memory = Memory::new();
        let font = font_table();
        let r = memory.map_range(FONT_START_ADDR as usize, 80, font.as_slice());
        let mut registers: Vec<u8> = Vec::new();
        let mut n: usize = 0;
        while n < NUM_REGISTERS
            invariant
                n <= NUM_REGISTERS,
                registers@.len() == n,
                forall|i: int| 0 <= i < n ==> registers@[i] == 0u8,
            decreases NUM_REGISTERS - n,
        {
            registers.push(0u8);
            n += 1;
        }
        VM {
            memory,
            pc: START_ADDR,
            ir: 0,
            stack: Vec::new(),
            delay_t: 0,
            sound_t: 0,
            display: Display::new(),
            registers,
            keys: Keypad::new(),
            redraw: false,
            quirks: Quirks::default(),
        }
    }

    /// Choose which answers the quirk instructions follow.
    pub fn set_quirks(&mut self, quirks: Quirks)
        ensures
            final(self)@ == (State { quirks, ..old(self)@ }),
    {
        self.quirks = quirks;
    }

    /// Press or release one key, 0-15.
    pub fn set_key(&mut self, key_index: u8, pressed: bool)
        requires
            key_index < 16,
        ensures
            final(self)@ == (State {
                keys: if pressed {
                    old(self)@.keys | (1u16 << (key_index as u16))
                } else {
                    old(self)@.keys & !(1u16 << (key_index as u16))
                },
                ..old(self)@
            }),
    {
        self.keys.set_key(key_index, pressed);
    }

    /// Press the given key if there is one; `None` leaves the keypad as it
    /// was.
    pub fn register_keypress(&mut self, keys: Option<u8>)
        requires
            keys matches Some(k) ==> k < 16,
        ensures
            final(self)@ == (State {
                keys: match keys {
                    Some(k) => old(self)@.keys | (1u16 << (k as u16)),
                    None => old(self)@.keys,
                },
                ..old(self)@
            }),
    {
        if let Some(key) = keys {
            self.keys.set_key(key, true);
        }
    }

    /// Overwrite the whole keypad mask with one host input refresh.
    pub fn set_keys(&mut self, keys: u16)
        ensures
            final(self)@ == (State { keys, ..old(self)@ }),
    {
        self.keys.set_keys(keys);
    }

    /// Load a program image at the start address. An image longer than the
    /// space between the start address and the end of memory is rejected
    /// whole, before any cycle can run.
    pub fn load_program(&mut self, buf: &[u8]) -> (r: Result<(), Chip8Error>)
        requires
            old(self).wf(),
        ensures
            final(self).wf(),
            buf@.len() <= MEM_SIZE - START_ADDR ==> r == Ok::<(), Chip8Error>(()) && final(self)@
                == (State {
                mem: write_range(old(self)@.mem, START_ADDR as int, buf@),
                ..old(self)@
            }),
            buf@.len() > MEM_SIZE - START_ADDR ==> r == Err::<(), Chip8Error>(
                Chip8Error::RomTooLarge,
            ) && final(self)@ == old(self)@,
    {
        if buf.len() <= MEM_SIZE - (START_ADDR as usize) {
            let r = self.memory.map_range(START_ADDR as usize, buf.len(), buf);
            proof {
                assert(final(self)@ =~= (State {
                    mem: write_range(old(self)@.mem, START_ADDR as int, buf@),
                    ..old(self)@
                }));
            }
            r
        } else {
            Err(Chip8Error::RomTooLarge)
        }
    }

    /// Read-only snapshot of the framebuffer, row-major, one byte per
    /// pixel, each 0 or 1.
    pub fn get_display(&self) -> (r: &Vec<u8>)
        ensures
            r@ == self@.fb,
    {
        self.display.pixels()
    }

    /// The framebuffer has changed since the host last cleared this mark.
    pub fn get_redraw(&self) -> (r: bool)
        ensures
            r == self@.redraw,
    {
        self.redraw
    }

    /// The host consumed the framebuffer; drop the redraw mark.
    pub fn clear_redraw(&mut self)
        ensures
            final(self)@ == (State { redraw: false, ..old(self)@ }),
    {
        self.redraw = false;
    }

    /// Tick both timers toward 0 (never below), and report whether the
    /// sound timer was still running before this tick, which is exactly
    /// when the host should keep its beep on. Driven by the host at a fixed
    /// 60 Hz, independent of the cycle rate.
    pub fn decrement_timers(&mut self) -> (beep: bool)
        ensures
            final(self)@ == (State {
                delay_t: if old(self)@.delay_t > 0 {
                    (old(self)@.delay_t - 1) as u8
                } else {
                    0
                },
                sound_t: if old(self)@.sound_t > 0 {
                    (old(self)@.sound_t - 1) as u8
                } else {
                    0
                },
                ..old(self)@
            }),
            beep == (old(self)@.sound_t > 0),
    {
        if self.delay_t > 0 {
            self.delay_t -= 1;
        }
        if self.sound_t > 0 {
            self.sound_t -= 1;
            return true;
        }
        false
    }

    /// Copy of the observable registers for host-side inspection.
    pub fn snapshot(&self) -> (s: Snapshot)
        requires
            self.wf(),
        ensures
            s.pc == self@.pc,
            s.ir == self@.ir,
            s.v@ == self@.regs,
            s.delay_t == self@.delay_t,
            s.sound_t == self@.sound_t,
    {
        let mut v: Vec<u8> = Vec::new();
        let mut n: usize = 0;
        while n < NUM_REGISTERS
            invariant
                self.wf(),
                n <= NUM_REGISTERS,
                v@.len() == n,
                forall|i: int| 0 <= i < n ==> v@[i] == self@.regs[i],
            decreases NUM_REGISTERS - n,
        {
            v.push(self.registers[n]);
            n += 1;
        }
        proof {
            assert(v@ =~= self@.regs);
        }
        Snapshot { pc: self.pc, ir: self.ir, v, delay_t: self.delay_t, sound_t: self.sound_t }
    }
}

/// The operation belongs to the arithmetic/logic family (top nibble 8).
pub open spec fn alu_family(op: Op) -> bool {
    ||| op matches Op::Mov(_, _)
    ||| op matches Op::Or(_, _)
    ||| op matches Op::And(_, _)
    ||| op matches Op::Xor(_, _)
    ||| op matches Op::Add(_, _)
    ||| op matches Op::Sub(_, _)
    ||| op matches Op::Shr(_, _)
    ||| op matches Op::SubFrom(_, _)
    ||| op matches Op::Shl(_, _)
}

/// The operation belongs to the key-skip family (top nibble E).
pub open spec fn key_family(op: Op) -> bool {
    ||| op matches Op::SkipKey(_)
    ||| op matches Op::SkipNoKey(_)
}

/// The operation belongs to the timer/memory/key-wait family (top nibble
/// F).
pub open spec fn misc_family(op: Op) -> bool {
    ||| op matches Op::ReadDelay(_)
    ||| op matches Op::WaitKey(_)
    ||| op matches Op::SetDelay(_)
    ||| op matches Op::SetSound(_)
    ||| op matches Op::AddIndex(_)
    ||| op matches Op::FontAddr(_)
    ||| op matches Op::StoreBcd(_)
    ||| op matches Op::StoreRegs(_)
    ||| op matches Op::LoadRegs(_)
}

/// Relies on rand::random: one byte drawn from the thread-local generator.
/// Nothing is promised of its value; the caller states what holds of every
/// outcome.
#[verifier::external_body]
fn random_byte() -> u8 {
    rand::random()
}

impl VM {
    /// Execute one fetch-decode-execute cycle: the machine moves to exactly
    /// the state `step` prescribes for the fetched instruction (with `b`
    /// the byte the random source produced for CXNN), or reports the error
    /// `step` prescribes and stays unchanged.
    #[verifier::rlimit(50)]
    pub fn emulate_cycle(&mut self) -> (r: Result<(), Chip8Error>)
        requires
            old(self).wf(),
        ensures
            final(self).wf(),
            exists|b: u8| #[trigger] cycle_post(old(self)@, final(self)@, b, r),
    {
        let instr = match self.memory.get_instr(self.pc) {
            Ok(i) => i,
            Err(e) => {
                proof {
                    assert(cycle_post(
                        old(self)@,
                        self@,
                        0u8,
                        Err::<(), Chip8Error>(Chip8Error::MemoryOutOfBounds),
                    ));
                }
                return Err(e);
            },
        };
        proof {
            lemma_field_bounds(instr);
        }
        let op = decode(instr);
        let pc2 = self.pc + 2;
        match op {
            Op::Cls | Op::Ret => self.handle_0x0(instr, op),
            Op::Jump(nnn) => {
                self.pc = nnn;
                proof {
                    assert(cycle_post(old(self)@, self@, 0u8, Ok::<(), Chip8Error>(())));
                }
                Ok(())
            },
            Op::Call(nnn) => {
                if self.stack.len() >= STACK_DEPTH {
                    proof {
                        assert(cycle_post(
                            old(self)@,
                            self@,
                            0u8,
                            Err::<(), Chip8Error>(Chip8Error::StackOverflow),
                        ));
                    }
                    return Err(Chip8Error::StackOverflow);
                }
                self.stack.push(pc2);
                self.pc = nnn;
                proof {
                    assert(cycle_post(old(self)@, self@, 0u8, Ok::<(), Chip8Error>(())));
                }
                Ok(())
            },
            Op::SkipEqImm(x, nn) => {
                let vx = self.registers[x];
                self.pc = if vx == nn {
                    pc2 + 2
                } else {
                    pc2
                };
                proof {
                    assert(cycle_post(old(self)@, self@, 0u8, Ok::<(), Chip8Error>(())));
                }
                Ok(())
            },
            Op::SkipNeImm(x, nn) => {
                let vx = self.registers[x];
                self.pc = if vx != nn {
                    pc2 + 2
                } else {
                    pc2
                };
                proof {
                    assert(cycle_post(old(self)@, self@, 0u8, Ok::<(), Chip8Error>(())));
                }
                Ok(())
            },
            Op::SkipEqReg(x, y) => {
                let vx = self.registers[x];
                let vy = self.registers[y];
                self.pc = if vx == vy {
                    pc2 + 2
                } else {
                    pc2
                };
                proof {
                    assert(cycle_post(old(self)@, self@, 0u8, Ok::<(), Chip8Error>(())));
                }
                Ok(())
            },
            Op::SkipNeReg(x, y) => {
                let vx = self.registers[x];
                let vy = self.registers[y];
                self.pc = if vx != vy {
                    pc2 + 2
                } else {
                    pc2
                };
                proof {
                    assert(cycle_post(old(self)@, self@, 0u8, Ok::<(), Chip8Error>(())));
                }
                Ok(())
            },
            Op::SetImm(x, nn) => {
                self.registers[x] = nn;
                self.pc = pc2;
                proof {
                    assert(cycle_post(old(self)@, self@, 0u8, Ok::<(), Chip8Error>(())));
                }
                Ok(())
            },
            Op::AddImm(x, nn) => {
                let vx = self.registers[x];
                let sum = vx as u16 + nn as u16;
                self.registers[x] = (sum % 256) as u8;
                self.pc = pc2;
                proof {
                    assert(cycle_post(old(self)@, self@, 0u8, Ok::<(), Chip8Error>(())));
                }
                Ok(())
            },
            Op::Mov(..) | Op::Or(..) | Op::And(..) | Op::Xor(..) | Op::Add(..) | Op::Sub(..)
                | Op::Shr(..) | Op::SubFrom(..) | Op::Shl(..) => {
                self.handle_0x8(instr, op);
                Ok(())
            },
            Op::SetIndex(nnn) => {
                self.ir = nnn;
                self.pc = pc2;
                proof {
                    assert(cycle_post(old(self)@, self@, 0u8, Ok::<(), Chip8Error>(())));
                }
                Ok(())
            },
            Op::JumpOffset(x, nnn) => {
                let off = if self.quirks.jump_reads_vx {
                    self.registers[x]
                } else {
                    self.registers[0]
                };
                self.pc = nnn + off as u16;
                proof {
                    assert(cycle_post(old(self)@, self@, 0u8, Ok::<(), Chip8Error>(())));
                }
                Ok(())
            },
            Op::Rand(x, nn) => {
                let b = random_byte();
                self.registers[x] = nn & b;
                self.pc = pc2;
                proof {
                    assert(cycle_post(old(self)@, self@, b, Ok::<(), Chip8Error>(())));
                }
                Ok(())
            },
            Op::Draw(x, y, n) => {
                if (self.ir as usize) + (n as usize) > MEM_SIZE {
                    proof {
                        assert(cycle_post(
                            old(self)@,
                            self@,
                            0u8,
                            Err::<(), Chip8Error>(Chip8Error::MemoryOutOfBounds),
                        ));
                    }
                    return Err(Chip8Error::MemoryOutOfBounds);
                }
                let sprite = match self.memory.get_range(self.ir as usize, n as usize) {
                    Ok(v) => v,
                    Err(e) => {
                        proof {
                            assert(false);
                        }
                        return Err(e);
                    },
                };
                let vx = self.registers[x];
                let vy = self.registers[y];
                let flag = self.display.draw(
                    vx as usize,
                    vy as usize,
                    n as usize,
                    sprite.as_slice(),
                );
                self.registers[15] = flag;
                self.redraw = true;
                self.pc = pc2;
                proof {
                    assert(self@ =~= step(old(self)@, 0u8)->Ok_0);
                    assert(cycle_post(old(self)@, self@, 0u8, Ok::<(), Chip8Error>(())));
                }
                Ok(())
            },
            Op::SkipKey(..) | Op::SkipNoKey(..) => {
                self.handle_0xe(instr, op);
                Ok(())
            },
            Op::ReadDelay(..) | Op::WaitKey(..) | Op::SetDelay(..) | Op::SetSound(..)
                | Op::AddIndex(..) | Op::FontAddr(..) | Op::StoreBcd(..) | Op::StoreRegs(..)
                | Op::LoadRegs(..) => self.handle_0xf(instr, op),
            Op::Illegal => {
                proof {
                    assert(cycle_post(
                        old(self)@,
                        self@,
                        0u8,
                        Err::<(), Chip8Error>(Chip8Error::IllegalInstruction),
                    ));
                }
                Err(Chip8Error::IllegalInstruction)
            },
        }
    }

    /// The system family: clear-screen and subroutine return.
    fn handle_0x0(&mut self, instr: u16, op: Op) -> (r: Result<(), Chip8Error>)
        requires
            old(self).wf(),
            old(self)@.pc as int + 1 < MEM_SIZE,
            instr == instr_at(old(self)@.mem, old(self)@.pc),
            decode_spec(instr) == op,
            op == Op::Cls || op == Op::Ret,
        ensures
            final(self).wf(),
            cycle_post(old(self)@, final(self)@, 0u8, r),
    {
        let pc2 = self.pc + 2;
        match op {
            Op::Cls => {
                self.display.clear();
                self.redraw = true;
                self.pc = pc2;
                proof {
                    assert(self@ =~= step(old(self)@, 0u8)->Ok_0);
                    assert(cycle_post(old(self)@, self@, 0u8, Ok::<(), Chip8Error>(())));
                }
                Ok(())
            },
            Op::Ret => {
                match self.stack.pop() {
                    Some(addr) => {
                        self.pc = addr;
                        proof {
                            assert(cycle_post(old(self)@, self@, 0u8, Ok::<(), Chip8Error>(())));
                        }
                        Ok(())
                    },
                    None => {
                        proof {
                            assert(cycle_post(
                                old(self)@,
                                self@,
                                0u8,
                                Err::<(), Chip8Error>(Chip8Error::StackUnderflow),
                            ));
                        }
                        Err(Chip8Error::StackUnderflow)
                    },
                }
            },
            _ => {
                proof {
                    assert(false);
                }
                Err(Chip8Error::IllegalInstruction)
            },
        }
    }

    /// The arithmetic/logic family: register moves, bit operations, adds
    /// and subtracts with their carry/borrow flags, and the two shifts.
    #[verifier::rlimit(50)]
    fn handle_0x8(&mut self, instr: u16, op: Op)
        requires
            old(self).wf(),
            old(self)@.pc as int + 1 < MEM_SIZE,
            instr == instr_at(old(self)@.mem, old(self)@.pc),
            decode_spec(instr) == op,
            alu_family(op),
        ensures
            final(self).wf(),
            cycle_post(old(self)@, final(self)@, 0u8, Ok::<(), Chip8Error>(())),
    {
        proof {
            lemma_field_bounds(instr);
        }
        let pc2 = self.pc + 2;
        match op {
            Op::Mov(x, y) => {
                self.registers[x] = self.registers[y];
                self.pc = pc2;
                proof {
                    assert(cycle_post(old(self)@, self@, 0u8, Ok::<(), Chip8Error>(())));
                }
            },
            Op::Or(x, y) => {
                let v = self.registers[x] | self.registers[y];
                self.registers[x] = v;
                self.pc = pc2;
                proof {
                    assert(cycle_post(old(self)@, self@, 0u8, Ok::<(), Chip8Error>(())));
                }
            },
            Op::And(x, y) => {
                let v = self.registers[x] & self.registers[y];
                self.registers[x] = v;
                self.pc = pc2;
                proof {
                    assert(cycle_post(old(self)@, self@, 0u8, Ok::<(), Chip8Error>(())));
                }
            },
            Op::Xor(x, y) => {
                let v = self.registers[x] ^ self.registers[y];
                self.registers[x] = v;
                self.pc = pc2;
                proof {
                    assert(cycle_post(old(self)@, self@, 0u8, Ok::<(), Chip8Error>(())));
                }
            },
            Op::Add(x, y) => {
                let sum = self.registers[x] as u16 + self.registers[y] as u16;
                self.registers[x] = (sum % 256) as u8;
                self.registers[15] = if sum > 255 {
                    1
                } else {
                    0
                };
                self.pc = pc2;
                proof {
                    assert(cycle_post(old(self)@, self@, 0u8, Ok::<(), Chip8Error>(())));
                }
            },
            Op::Sub(x, y) => {
                let vx = self.registers[x];
                let vy = self.registers[y];
                let diff = if vx >= vy {
                    vx - vy
                } else {
                    ((256 + vx as u16) - vy as u16) as u8
                };
                self.registers[x] = diff;
                self.registers[15] = if vx >= vy {
                    1
                } else {
                    0
                };
                self.pc = pc2;
                proof {
                    assert(diff == ((vx - vy) % 256) as u8);
                    assert(cycle_post(old(self)@, self@, 0u8, Ok::<(), Chip8Error>(())));
                }
            },
            Op::SubFrom(x, y) => {
                let vx = self.registers[x];
                let vy = self.registers[y];
                let diff = if vy >= vx {
                    vy - vx
                } else {
                    ((256 + vy as u16) - vx as u16) as u8
                };
                self.registers[x] = diff;
                self.registers[15] = if vy >= vx {
                    1
                } else {
                    0
                };
                self.pc = pc2;
                proof {
                    assert(diff == ((vy - vx) % 256) as u8);
                    assert(cycle_post(old(self)@, self@, 0u8, Ok::<(), Chip8Error>(())));
                }
            },
            Op::Shr(x, y) => {
                let src = if self.quirks.shift_reads_vy {
                    self.registers[y]
                } else {
                    self.registers[x]
                };
                self.registers[x] = src >> 1;
                self.registers[15] = src & 1;
                self.pc = pc2;
                proof {
                    assert(cycle_post(old(self)@, self@, 0u8, Ok::<(), Chip8Error>(())));
                }
            },
            Op::Shl(x, y) => {
                let src = if self.quirks.shift_reads_vy {
                    self.registers[y]
                } else {
                    self.registers[x]
                };
                self.registers[x] = ((src as u16 * 2) % 256) as u8;
                self.registers[15] = src >> 7;
                self.pc = pc2;
                proof {
                    assert(cycle_post(old(self)@, self@, 0u8, Ok::<(), Chip8Error>(())));
                }
            },
            _ => {
                proof {
                    assert(false);
                }
            },
        }
    }

    /// The key-skip family: skip the next instruction on the state of the
    /// key named by VX (low nibble).
    fn handle_0xe(&mut self, instr: u16, op: Op)
        requires
            old(self).wf(),
            old(self)@.pc as int + 1 < MEM_SIZE,
            instr == instr_at(old(self)@.mem, old(self)@.pc),
            decode_spec(instr) == op,
            key_family(op),
        ensures
            final(self).wf(),
            cycle_post(old(self)@, final(self)@, 0u8, Ok::<(), Chip8Error>(())),
    {
        proof {
            lemma_field_bounds(instr);
        }
        let pc2 = self.pc + 2;
        match op {
            Op::SkipKey(x) => {
                let vx = self.registers[x];
                let key = vx & 0x0F;
                proof {
                    assert(vx & 0x0F < 16) by (bit_vector);
                }
                self.pc = if self.keys.is_pressed(key) {
                    pc2 + 2
                } else {
                    pc2
                };
                proof {
                    assert(cycle_post(old(self)@, self@, 0u8, Ok::<(), Chip8Error>(())));
                }
            },
            Op::SkipNoKey(x) => {
                let vx = self.registers[x];
                let key = vx & 0x0F;
                proof {
                    assert(vx & 0x0F < 16) by (bit_vector);
                }
                self.pc = if !self.keys.is_pressed(key) {
                    pc2 + 2
                } else {
                    pc2
                };
                proof {
                    assert(cycle_post(old(self)@, self@, 0u8, Ok::<(), Chip8Error>(())));
                }
            },
            _ => {
                proof {
                    assert(false);
                }
            },
        }
    }

    /// The timer, key-wait, index and bulk-memory family (top nibble F).
    #[verifier::rlimit(50)]
    fn handle_0xf(&mut self, instr: u16, op: Op) -> (r: Result<(), Chip8Error>)
        requires
            old(self).wf(),
            old(self)@.pc as int + 1 < MEM_SIZE,
            instr == instr_at(old(self)@.mem, old(self)@.pc),
            decode_spec(instr) == op,
            misc_family(op),
        ensures
            final(self).wf(),
            cycle_post(old(self)@, final(self)@, 0u8, r),
    {
        proof {
            lemma_field_bounds(instr);
        }
        let pc2 = self.pc + 2;
        match op {
            Op::ReadDelay(x) => {
                self.registers[x] = self.delay_t;
                self.pc = pc2;
                proof {
                    assert(cycle_post(old(self)@, self@, 0u8, Ok::<(), Chip8Error>(())));
                }
                Ok(())
            },
            Op::WaitKey(x) => {
                if self.keys.no_keys_pressed() {
                    // Busy-poll: leave the program counter where it was so
                    // the instruction repeats next cycle.
                    proof {
                        assert(self@ =~= step(old(self)@, 0u8)->Ok_0);
                        assert(cycle_post(old(self)@, self@, 0u8, Ok::<(), Chip8Error>(())));
                    }
                    Ok(())
                } else {
                    let k = self.keys.get_first_key_pressed();
                    self.registers[x] = k;
                    self.pc = pc2;
                    proof {
                        assert(cycle_post(old(self)@, self@, 0u8, Ok::<(), Chip8Error>(())));
                    }
                    Ok(())
                }
            },
            Op::SetDelay(x) => {
                self.delay_t = self.registers[x];
                self.pc = pc2;
                proof {
                    assert(cycle_post(old(self)@, self@, 0u8, Ok::<(), Chip8Error>(())));
                }
                Ok(())
            },
            Op::SetSound(x) => {
                self.sound_t = self.registers[x];
                self.pc = pc2;
                proof {
                    assert(cycle_post(old(self)@, self@, 0u8, Ok::<(), Chip8Error>(())));
                }
                Ok(())
            },
            Op::AddIndex(x) => {
                let vx = self.registers[x];
                let sum: u32 = self.ir as u32 + vx as u32;
                if self.quirks.add_index_carry {
                    self.registers[15] = if sum > 0xFFF {
                        1
                    } else {
                        0
                    };
                }
                self.ir = (sum % 0x10000) as u16;
                self.pc = pc2;
                proof {
                    assert(cycle_post(old(self)@, self@, 0u8, Ok::<(), Chip8Error>(())));
                }
                Ok(())
            },
            Op::FontAddr(x) => {
                let vx = self.registers[x];
                self.ir = FONT_START_ADDR + FONT_HEIGHT * (vx as u16);
                self.pc = pc2;
                proof {
                    assert(cycle_post(old(self)@, self@, 0u8, Ok::<(), Chip8Error>(())));
                }
                Ok(())
            },
            Op::StoreBcd(x) => {
                if self.ir as usize + 2 >= MEM_SIZE {
                    proof {
                        assert(cycle_post(
                            old(self)@,
                            self@,
                            0u8,
                            Err::<(), Chip8Error>(Chip8Error::MemoryOutOfBounds),
                        ));
                    }
                    return Err(Chip8Error::MemoryOutOfBounds);
                }
                let v = self.registers[x];
                self.memory.set(self.ir, (v / 100) % 10);
                self.memory.set(self.ir + 1, (v / 10) % 10);
                self.memory.set(self.ir + 2, v % 10);
                self.pc = pc2;
                proof {
                    assert(cycle_post(old(self)@, self@, 0u8, Ok::<(), Chip8Error>(())));
                }
                Ok(())
            },
            Op::StoreRegs(x) => {
                if self.ir as usize + x + 1 > MEM_SIZE {
                    proof {
                        assert(cycle_post(
                            old(self)@,
                            self@,
                            0u8,
                            Err::<(), Chip8Error>(Chip8Error::MemoryOutOfBounds),
                        ));
                    }
                    return Err(Chip8Error::MemoryOutOfBounds);
                }
                let base = self.ir;
                let mut j: usize = 0;
                while j < x + 1
                    invariant
                        old(self).wf(),
                        x < 16,
                        j <= x + 1,
                        base == old(self)@.ir,
                        base as int + x as int + 1 <= MEM_SIZE,
                        self@ == (State { mem: self@.mem, ..old(self)@ }),
                        self@.mem.len() == MEM_SIZE,
                        forall|i: int|
                            0 <= i < MEM_SIZE ==> self@.mem[i] == (if base <= i < base + j {
                                old(self)@.regs[i - base]
                            } else {
                                old(self)@.mem[i]
                            }),
                    decreases x + 1 - j,
                {
                    let b = self.registers[j];
                    self.memory.set(base + j as u16, b);
                    j += 1;
                }
                self.pc = pc2;
                proof {
                    assert(self@.mem =~= write_range(
                        old(self)@.mem,
                        base as int,
                        old(self)@.regs.subrange(0, x as int + 1),
                    ));
                    assert(self@ =~= step(old(self)@, 0u8)->Ok_0);
                    assert(cycle_post(old(self)@, self@, 0u8, Ok::<(), Chip8Error>(())));
                }
                Ok(())
            },
            Op::LoadRegs(x) => {
                if self.ir as usize + x + 1 > MEM_SIZE {
                    proof {
                        assert(cycle_post(
                            old(self)@,
                            self@,
                            0u8,
                            Err::<(), Chip8Error>(Chip8Error::MemoryOutOfBounds),
                        ));
                    }
                    return Err(Chip8Error::MemoryOutOfBounds);
                }
                let base = self.ir;
                let mut j: usize = 0;
                while j < x + 1
                    invariant
                        old(self).wf(),
                        x < 16,
                        j <= x + 1,
                        base == old(self)@.ir,
                        base as int + x as int + 1 <= MEM_SIZE,
                        self@ == (State { regs: self@.regs, ..old(self)@ }),
                        self@.regs.len() == NUM_REGISTERS,
                        forall|i: int|
                            0 <= i < NUM_REGISTERS ==> self@.regs[i] == (if 0 <= i < j {
                                old(self)@.mem[base + i]
                            } else {
                                old(self)@.regs[i]
                            }),
                    decreases x + 1 - j,
                {
                    let b = self.memory.get(base + j as u16);
                    self.registers[j] = b;
                    j += 1;
                }
                self.pc = pc2;
                proof {
                    assert(self@.regs =~= write_range(
                        old(self)@.regs,
                        0,
                        old(self)@.mem.subrange(base as int, base as int + x as int + 1),
                    ));
                    assert(self@ =~= step(old(self)@, 0u8)->Ok_0);
                    assert(cycle_post(old(self)@, self@, 0u8, Ok::<(), Chip8Error>(())));
                }
                Ok(())
            },
            _ => {
                proof {
                    assert(false);
                }
                Err(Chip8Error::IllegalInstruction)
            },
        }
    }
}

/// 8XY4 adds modulo 256 and sets VF to exactly the carry: 1 when VX + VY
/// exceeds 255, else 0, for every pair of register values.
pub proof fn lemma_add_sets_carry(s: State, b: u8, x: usize, y: usize)
    requires
        state_wf(s),
        s.pc as int + 1 < MEM_SIZE,
        decode_spec(instr_at(s.mem, s.pc)) == Op::Add(x, y),
    ensures
        step(s, b) matches Ok(s2) && {
            let vx = s.regs[x as int];
            let vy = s.regs[y as int];
            &&& s2.regs[15] == (if vx + vy > 255 {
                1u8
            } else {
                0u8
            })
            &&& (x != 15 ==> s2.regs[x as int] == ((vx + vy) % 256) as u8)
        },
{
    lemma_field_bounds(instr_at(s.mem, s.pc));
}

/// 8XY5 sets VF to exactly the no-borrow flag: 1 when VX >= VY, else 0,
/// for every pair of register values; the difference wraps modulo 256.
pub proof fn lemma_sub_sets_borrow(s: State, b: u8, x: usize, y: usize)
    requires
        state_wf(s),
        s.pc as int + 1 < MEM_SIZE,
        decode_spec(instr_at(s.mem, s.pc)) == Op::Sub(x, y),
    ensures
        step(s, b) matches Ok(s2) && {
            let vx = s.regs[x as int];
            let vy = s.regs[y as int];
            &&& s2.regs[15] == (if vx >= vy {
                1u8
            } else {
                0u8
            })
            &&& (x != 15 ==> s2.regs[x as int] == ((vx - vy) % 256) as u8)
        },
{
    lemma_field_bounds(instr_at(s.mem, s.pc));
}

/// 8XY7 sets VF to exactly the no-borrow flag of the reversed
/// subtraction: 1 when VY >= VX, else 0, for every pair of register
/// values; the difference wraps modulo 256.
pub proof fn lemma_subfrom_sets_borrow(s: State, b: u8, x: usize, y: usize)
    requires
        state_wf(s),
        s.pc as int + 1 < MEM_SIZE,
        decode_spec(instr_at(s.mem, s.pc)) == Op::SubFrom(x, y),
    ensures
        step(s, b) matches Ok(s2) && {
            let vx = s.regs[x as int];
            let vy = s.regs[y as int];
            &&& s2.regs[15] == (if vy >= vx {
                1u8
            } else {
                0u8
            })
            &&& (x != 15 ==> s2.regs[x as int] == ((vy - vx) % 256) as u8)
        },
{
    lemma_field_bounds(instr_at(s.mem, s.pc));
}

/// 7XNN adds modulo 256 and, unlike 8XY4, is no flag instruction: when its
/// target is not VF itself, VF keeps its value.
pub proof fn lemma_add_imm_keeps_vf(s: State, b: u8, x: usize, nn: u8)
    requires
        state_wf(s),
        s.pc as int + 1 < MEM_SIZE,
        decode_spec(instr_at(s.mem, s.pc)) == Op::AddImm(x, nn),
    ensures
        step(s, b) matches Ok(s2) && {
            &&& s2.regs[x as int] == ((s.regs[x as int] + nn) % 256) as u8
            &&& (x != 15 ==> s2.regs[15] == s.regs[15])
            &&& (forall|i: int| 0 <= i < NUM_REGISTERS && i != x ==> s2.regs[i] == s.regs[i])
        },
{
    lemma_field_bounds(instr_at(s.mem, s.pc));
}

/// 00E0 leaves an all-zero framebuffer and raises the redraw mark.
pub proof fn lemma_cls_clears(s: State, b: u8)
    requires
        state_wf(s),
        s.pc as int + 1 < MEM_SIZE,
        decode_spec(instr_at(s.mem, s.pc)) == Op::Cls,
    ensures
        step(s, b) matches Ok(s2) && {
            &&& s2.redraw
            &&& forall|i: int| 0 <= i < NUM_PIXELS ==> s2.fb[i] == 0
        },
{
}

/// FX0A blocks by repetition: with no key pressed the cycle leaves the
/// machine exactly as it was, so the instruction runs again; once a key is
/// down, VX receives the lowest pressed index and the program counter
/// advances normally.
pub proof fn lemma_wait_key(s: State, b: u8, x: usize)
    requires
        state_wf(s),
        s.pc as int + 1 < MEM_SIZE,
        decode_spec(instr_at(s.mem, s.pc)) == Op::WaitKey(x),
    ensures
        s.keys == 0 ==> step(s, b) == Ok::<State, Chip8Error>(s),
        s.keys != 0 ==> (step(s, b) matches Ok(s2) && {
            let k = s2.regs[x as int];
            &&& s2.pc == (s.pc + 2) as u16
            &&& k < 16
            &&& key_down(s.keys, k as u16)
            &&& (forall|j: u16| j < k ==> !key_down(s.keys, j))
        }),
{
    lemma_field_bounds(instr_at(s.mem, s.pc));
    if s.keys == 0 {
        assert(step(s, b)->Ok_0 =~= s);
    } else {
        crate::keypad::lemma_first_key(s.keys);
    }
}

/// FX55 then FX65 through the same index round-trips the registers: what
/// the store wrote, the load reads back, and the register file comes out
/// exactly as it went in.
pub proof fn lemma_store_load_round_trip(mem: Seq<u8>, regs: Seq<u8>, ir: int, x: int)
    requires
        mem.len() == MEM_SIZE,
        regs.len() == NUM_REGISTERS,
        0 <= x < 16,
        0 <= ir,
        ir + x + 1 <= MEM_SIZE,
    ensures
        write_range(
            regs,
            0,
            write_range(mem, ir, regs.subrange(0, x + 1)).subrange(ir, ir + x + 1),
        ) == regs,
{
    let stored = write_range(mem, ir, regs.subrange(0, x + 1));
    assert(stored.subrange(ir, ir + x + 1) =~= regs.subrange(0, x + 1));
    assert(write_range(regs, 0, regs.subrange(0, x + 1)) =~= regs);
}

/// The font table as bytes to be copied into memory at construction.
fn font_table() -> (v: Vec<u8>)
    ensures
        v@ == font_seq(),
{
    let v: Vec<u8> = vec![
        0xF0u8, 0x90, 0x90, 0x90, 0xF0, 0x20, 0x60, 0x20, 0x20, 0x70, 0xF0, 0x10, 0xF0, 0x80,
        0xF0, 0xF0, 0x10, 0xF0, 0x10, 0xF0, 0x90, 0x90, 0xF0, 0x10, 0x10, 0xF0, 0x80, 0xF0, 0x10,
        0xF0, 0xF0, 0x80, 0xF0, 0x90, 0xF0, 0xF0, 0x10, 0x20, 0x40, 0x40, 0xF0, 0x90, 0xF0, 0x90,
        0xF0, 0xF0, 0x90, 0xF0, 0x10, 0xF0, 0xF0, 0x90, 0xF0, 0x90, 0x90, 0xE0, 0x90, 0xE0, 0x90,
        0xE0, 0xF0, 0x80, 0x80, 0x80, 0xF0, 0xE0, 0x90, 0x90, 0x90, 0xE0, 0xF0, 0x80, 0xF0, 0x80,
        0xF0, 0xF0, 0x80, 0xF0, 0x80, 0x80,
    ];
    proof {
        assert(v@ =~= font_seq());
    }
    v
}

} // verus!
