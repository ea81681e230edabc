//! Mathematical model of the interpreter's state and of one fetch/decode/execute step.
use vstd::prelude::*;

verus! {

/// Address at which a program image is loaded and execution starts.
pub const PROGRAM_START: u16 = 0x200;

/// Largest program image that fits between the load address and the end of memory.
pub const MAX_PROGRAM_LEN: usize = 3584;

/// Deepest nesting of subroutine calls.
pub const STACK_LIMIT: usize = 16;

/// Index of the register that receives carry, borrow, shift-out and collision flags.
pub const FLAG: usize = 15;

/// A fatal condition that stops the interpreter.
#[derive(Debug, Clone, Copy, PartialEq, Eq, Structural)]
pub enum CpuError {
    /// The instruction word `inst`, fetched at `pc`, is not part of the instruction set.
    UnsupportedInstruction { inst: u16, pc: u16 },
    /// The return at `pc` found an empty call stack.
    StackUnderflow { pc: u16 },
    /// The call at `pc` would nest deeper than the stack allows.
    StackOverflow { pc: u16 },
    /// The instruction at `pc` (or its fetch) reaches outside memory or the framebuffer.
    AddressOutOfRange { pc: u16 },
    /// A program image of `len` bytes does not fit in memory above the load address.
    ProgramTooLarge { len: usize },
}

/// The whole state of the interpreter, as plain mathematical values.
#[verifier::ext_equal]
pub struct Machine {
    pub pc: u16,
    pub i: u16,
    pub stack: Seq<u16>,
    pub delay: u8,
    pub sound: u8,
    pub regs: Seq<u8>,
    pub memory: Seq<u8>,
    pub screen: Seq<bool>,
    pub random: u32,
}

/// Register, memory and framebuffer sizes are those of the machine.
pub open spec fn well_formed(m: Machine) -> bool {
    &&& m.regs.len() == 16
    &&& m.memory.len() == 4096
    &&& m.screen.len() == 2048
}

/// The instruction word stored big-endian at address `a`.
pub open spec fn word_at(mem: Seq<u8>, a: int) -> u16 {
    (mem[a] as int * 256 + mem[a + 1] as int) as u16
}

/// The instruction word at the program counter.
pub open spec fn fetch_word(m: Machine) -> u16 {
    word_at(m.memory, m.pc as int)
}

/// Top nibble: the instruction's group.
pub open spec fn group(inst: u16) -> int {
    inst as int / 4096
}

/// Second nibble: the X register index.
pub open spec fn nib_x(inst: u16) -> int {
    (inst as int / 256) % 16
}

/// Third nibble: the Y register index.
pub open spec fn nib_y(inst: u16) -> int {
    (inst as int / 16) % 16
}

/// Bottom nibble.
pub open spec fn nib_n(inst: u16) -> int {
    inst as int % 16
}

/// Low byte.
pub open spec fn low_byte(inst: u16) -> u8 {
    (inst as int % 256) as u8
}

/// Low twelve bits: an address.
pub open spec fn low_addr(inst: u16) -> u16 {
    (inst as int % 4096) as u16
}

/// One step of the 32-bit xorshift generator (shifts 13, 17, 5).
pub open spec fn xorshift(s: u32) -> u32 {
    let a = s ^ (s << 13u32);
    let b = a ^ (a >> 17u32);
    b ^ (b << 5u32)
}

/// Bit `b` of a sprite row, counting from the most significant bit.
pub open spec fn sprite_bit(byte: u8, b: int) -> bool {
    (byte >> ((7 - b) as u8)) & 1u8 == 1u8
}

/// Number of sprite rows drawn from row `y0` on: clipped at the bottom edge.
pub open spec fn drawn_rows(y0: int, n: int) -> int {
    if n <= 32 - y0 {
        n
    } else {
        32 - y0
    }
}

/// Framebuffer index of bit `b` of sprite row `r` drawn from (`x0`, `y0`); columns run on
/// into the next row rather than wrap.
pub open spec fn pixel_pos(x0: int, y0: int, r: int, b: int) -> int {
    x0 + (y0 + r) * 64 + b
}

/// Every sprite row read lies in memory and every set bit lands inside the framebuffer.
pub open spec fn draw_fits(mem: Seq<u8>, i: int, x0: int, y0: int, rows: int) -> bool {
    &&& (rows == 0 || i + rows <= 4096)
    &&& forall|r: int, b: int|
        0 <= r < rows && 0 <= b < 8 && #[trigger] sprite_bit(mem[i + r], b) ==> pixel_pos(
            x0,
            y0,
            r,
            b,
        ) < 2048
}

/// Pixel `q` is under a set bit of the sprite.
pub open spec fn covered(mem: Seq<u8>, i: int, x0: int, y0: int, rows: int, q: int) -> bool {
    let d = q - (x0 + y0 * 64);
    &&& 0 <= d
    &&& d / 64 < rows
    &&& d % 64 < 8
    &&& sprite_bit(mem[i + d / 64], d % 64)
}

/// Some set bit of the sprite lands on a pixel that is already set.
pub open spec fn collides(
    screen: Seq<bool>,
    mem: Seq<u8>,
    i: int,
    x0: int,
    y0: int,
    rows: int,
) -> bool {
    exists|q: int| 0 <= q < 2048 && #[trigger] covered(mem, i, x0, y0, rows, q) && screen[q]
}

/// The framebuffer after XOR-drawing the sprite.
pub open spec fn drawn_screen(
    screen: Seq<bool>,
    mem: Seq<u8>,
    i: int,
    x0: int,
    y0: int,
    rows: int,
) -> Seq<bool> {
    Seq::new(2048, |q: int| screen[q] != covered(mem, i, x0, y0, rows, q))
}

/// Some key of the snapshot is pressed.
pub open spec fn any_pressed(keys: Seq<bool>) -> bool {
    exists|k: int| 0 <= k < 16 && #[trigger] keys[k]
}

/// The lowest index of a pressed key.
pub open spec fn first_pressed(keys: Seq<bool>) -> int {
    choose|k: int| 0 <= k < 16 && keys[k] && forall|j: int| 0 <= j < k ==> !#[trigger] keys[j]
}

/// The state with register `x` set to `v`.
pub open spec fn set_reg(m: Machine, x: int, v: u8) -> Machine {
    Machine { regs: m.regs.update(x, v), ..m }
}

/// The state with the program counter advanced past one more instruction when `c` holds.
pub open spec fn skip_if(m: Machine, c: bool) -> Machine {
    if c {
        Machine { pc: (m.pc + 2) as u16, ..m }
    } else {
        m
    }
}

/// The flag value for a condition.
pub open spec fn flag_of(c: bool) -> u8 {
    if c {
        1
    } else {
        0
    }
}

/// Group 8: register-to-register arithmetic and logic.
#[verifier::opaque]
pub open spec fn alu(m: Machine, inst: u16, at: u16) -> Result<Machine, CpuError> {
    let x = nib_x(inst);
    let a = m.regs[x];
    let b = m.regs[nib_y(inst)];
    let n = nib_n(inst);
    if n == 0 {
        Ok(set_reg(m, x, b))
    } else if n == 1 {
        Ok(set_reg(m, x, a | b))
    } else if n == 2 {
        Ok(set_reg(m, x, a & b))
    } else if n == 3 {
        Ok(set_reg(m, x, a ^ b))
    } else if n == 4 {
        Ok(set_reg(set_reg(m, x, ((a + b) % 256) as u8), 15, flag_of(a + b > 255)))
    } else if n == 5 {
        Ok(set_reg(set_reg(m, x, ((a - b + 256) % 256) as u8), 15, flag_of(a >= b)))
    } else if n == 6 {
        Ok(set_reg(set_reg(m, x, (b / 2) as u8), 15, (b % 2) as u8))
    } else if n == 7 {
        Ok(set_reg(set_reg(m, x, ((b - a + 256) % 256) as u8), 15, flag_of(b >= a)))
    } else if n == 14 {
        Ok(set_reg(set_reg(m, x, ((b * 2) % 256) as u8), 15, (b / 128) as u8))
    } else {
        Err(CpuError::UnsupportedInstruction { inst, pc: at })
    }
}

/// Group D: XOR-draw an N-row sprite from memory at the index register.
#[verifier::opaque]
pub open spec fn draw(m: Machine, inst: u16, at: u16) -> Result<Machine, CpuError> {
    let x0 = m.regs[nib_x(inst)] % 64;
    let y0 = m.regs[nib_y(inst)] % 32;
    let rows = drawn_rows(y0 as int, nib_n(inst));
    if !draw_fits(m.memory, m.i as int, x0 as int, y0 as int, rows) {
        Err(CpuError::AddressOutOfRange { pc: at })
    } else {
        Ok(
            Machine {
                screen: drawn_screen(m.screen, m.memory, m.i as int, x0 as int, y0 as int, rows),
                regs: m.regs.update(
                    15,
                    flag_of(collides(m.screen, m.memory, m.i as int, x0 as int, y0 as int, rows)),
                ),
                ..m
            },
        )
    }
}

/// Group F: timers, key wait, index register and memory transfers.
#[verifier::opaque]
pub open spec fn misc(m: Machine, inst: u16, at: u16, keys: Seq<bool>) -> Result<
    Machine,
    CpuError,
> {
    let x = nib_x(inst);
    let v = m.regs[x];
    let op = low_byte(inst);
    if op == 0x07 {
        Ok(set_reg(m, x, m.delay))
    } else if op == 0x0A {
        if any_pressed(keys) {
            Ok(set_reg(m, x, first_pressed(keys) as u8))
        } else {
            Ok(Machine { pc: (m.pc - 2) as u16, ..m })
        }
    } else if op == 0x15 {
        Ok(Machine { delay: v, ..m })
    } else if op == 0x18 {
        Ok(Machine { sound: v, ..m })
    } else if op == 0x1E {
        let s = ((m.i + v) % 65536) as u16;
        Ok(set_reg(Machine { i: s, ..m }, 15, flag_of(s >= 4096)))
    } else if op == 0x29 {
        Ok(Machine { i: (v * 5) as u16, ..m })
    } else if op == 0x33 {
        if m.i + 2 >= 4096 {
            Err(CpuError::AddressOutOfRange { pc: at })
        } else {
            Ok(
                Machine {
                    memory: m.memory.update(m.i as int, v / 100).update(
                        m.i + 1,
                        (v / 10) % 10,
                    ).update(m.i + 2, v % 10),
                    ..m
                },
            )
        }
    } else if op == 0x55 {
        if m.i + x >= 4096 {
            Err(CpuError::AddressOutOfRange { pc: at })
        } else {
            Ok(
                Machine {
                    memory: Seq::new(
                        4096,
                        |a: int|
                            if m.i <= a <= m.i + x {
                                m.regs[a - m.i]
                            } else {
                                m.memory[a]
                            },
                    ),
                    ..m
                },
            )
        }
    } else if op == 0x65 {
        if m.i + x >= 4096 {
            Err(CpuError::AddressOutOfRange { pc: at })
        } else {
            Ok(
                Machine {
                    regs: Seq::new(
                        16,
                        |j: int|
                            if j <= x {
                                m.memory[m.i + j]
                            } else {
                                m.regs[j]
                            },
                    ),
                    ..m
                },
            )
        }
    } else {
        Err(CpuError::UnsupportedInstruction { inst, pc: at })
    }
}

/// Executes the instruction `inst`, fetched at `at`, on a state whose program counter has
/// already moved past it.
pub open spec fn execute(m: Machine, inst: u16, at: u16, keys: Seq<bool>) -> Result<
    Machine,
    CpuError,
> {
    let g = group(inst);
    let x = nib_x(inst);
    let vx = m.regs[x];
    let vy = m.regs[nib_y(inst)];
    let nn = low_byte(inst);
    let nnn = low_addr(inst);
    let bad = Err(CpuError::UnsupportedInstruction { inst, pc: at });
    if g == 0 {
        if inst == 0x00E0 {
            Ok(Machine { screen: Seq::new(2048, |q: int| false), ..m })
        } else if inst == 0x00EE {
            if m.stack.len() == 0 {
                Err(CpuError::StackUnderflow { pc: at })
            } else {
                Ok(Machine { pc: m.stack.last(), stack: m.stack.drop_last(), ..m })
            }
        } else {
            bad
        }
    } else if g == 1 {
        Ok(Machine { pc: nnn, ..m })
    } else if g == 2 {
        if m.stack.len() >= 16 {
            Err(CpuError::StackOverflow { pc: at })
        } else {
            Ok(Machine { pc: nnn, stack: m.stack.push(m.pc), ..m })
        }
    } else if g == 3 {
        Ok(skip_if(m, vx == nn))
    } else if g == 4 {
        Ok(skip_if(m, vx != nn))
    } else if g == 5 {
        if nib_n(inst) == 0 {
            Ok(skip_if(m, vx == vy))
        } else {
            bad
        }
    } else if g == 6 {
        Ok(set_reg(m, x, nn))
    } else if g == 7 {
        Ok(set_reg(m, x, ((vx + nn) % 256) as u8))
    } else if g == 8 {
        alu(m, inst, at)
    } else if g == 9 {
        if nib_n(inst) == 0 {
            Ok(skip_if(m, vx != vy))
        } else {
            bad
        }
    } else if g == 10 {
        Ok(Machine { i: nnn, ..m })
    } else if g == 11 {
        Ok(Machine { pc: (nnn + vx) as u16, ..m })
    } else if g == 12 {
        let r = xorshift(m.random);
        Ok(set_reg(Machine { random: r, ..m }, x, ((r % 256) as u8) & nn))
    } else if g == 13 {
        draw(m, inst, at)
    } else if g == 14 {
        if nn == 0x9E {
            Ok(skip_if(m, keys[vx as int % 16]))
        } else if nn == 0xA1 {
            Ok(skip_if(m, !keys[vx as int % 16]))
        } else {
            bad
        }
    } else {
        misc(m, inst, at, keys)
    }
}

/// One interpreter step: fetch the word at the program counter, advance past it, execute it.
/// A fetch that would read past the end of memory is fatal.
pub open spec fn step(m: Machine, keys: Seq<bool>) -> Result<Machine, CpuError> {
    if m.pc + 1 >= 4096 {
        Err(CpuError::AddressOutOfRange { pc: m.pc })
    } else {
        execute(Machine { pc: (m.pc + 2) as u16, ..m }, fetch_word(m), m.pc, keys)
    }
}

} // verus!
