//! The interpreter: state, construction from a program image, and the step operation.
use vstd::prelude::*;
use crate::font::{font, font_bytes};
use crate::machine::{
    alu, any_pressed, collides, covered, draw, draw_fits, drawn_rows, drawn_screen, execute,
    first_pressed, misc, nib_n, nib_x, nib_y, pixel_pos, sprite_bit, step, xorshift, CpuError,
    Machine, FLAG, MAX_PROGRAM_LEN, PROGRAM_START, STACK_LIMIT,
};
use crate::screen::Screen;
use crate::sprite::{
    collides_upto, covered_upto, lemma_row_done, lemma_row_start, lemma_skip_pixel,
    lemma_step_pixel,
};

verus! {

/// The interpreter's state. The framebuffer is owned here; read it through `screen`.
#[derive(Debug)]
pub struct CPU {
    pub pc: u16,
    pub i: u16,
    pub stack: Vec<u16>,
    pub delay: u8,
    pub sound: u8,
    pub regs: [u8; 16],
    pub memory: [u8; 4096],
    pub screen: Screen,
    pub random: u32,
}

/// The keypad as seen by one step: key `k` is pressed when `key_pressed[k]` holds.
#[derive(Debug, Clone, Copy)]
pub struct CpuInput {
    pub key_pressed: [bool; 16],
}

/// What one step signals to the host.
#[derive(Debug, Clone, Copy)]
pub struct CpuOutput {
    /// The sound timer is nonzero.
    pub should_beep: bool,
}

impl View for CPU {
    type V = Machine;

    open spec fn view(&self) -> Machine {
        Machine {
            pc: self.pc,
            i: self.i,
            stack: self.stack@,
            delay: self.delay,
            sound: self.sound,
            regs: self.regs@,
            memory: self.memory@,
            screen: self.screen.data@,
            random: self.random,
        }
    }
}

/// Memory after loading: the glyph table at address 0, the program at the load address,
/// zero elsewhere.
pub open spec fn loaded_memory(code: Seq<u8>) -> Seq<u8> {
    Seq::new(
        4096,
        |a: int|
            if a < 80 {
                font_bytes()[a]
            } else if 512 <= a < 512 + code.len() {
                code[a - 512]
            } else {
                0u8
            },
    )
}

/// The state in which a program starts.
pub open spec fn initial_machine(screen: Seq<bool>, code: Seq<u8>) -> Machine {
    Machine {
        pc: 0x200,
        i: 0,
        stack: Seq::empty(),
        delay: 0,
        sound: 0,
        regs: Seq::new(16, |j: int| 0u8),
        memory: loaded_memory(code),
        screen,
        random: 1,
    }
}

impl CPU {
    /// An interpreter over `screen` with `code` loaded at the program start address.
    /// A program longer than the memory above that address is refused.
    pub fn new(screen: Screen, code: Vec<u8>) -> (r: Result<CPU, CpuError>)
        ensures
            code@.len() <= MAX_PROGRAM_LEN ==> (r matches Ok(c) && c@ == initial_machine(
                screen.data@,
                code@,
            )),
            code@.len() > MAX_PROGRAM_LEN ==> r == Err::<CPU, CpuError>(
                CpuError::ProgramTooLarge { len: code.len() },
            ),
    {
        if code.len() > MAX_PROGRAM_LEN {
            return Err(CpuError::ProgramTooLarge { len: code.len() });
        }
        let glyphs = font();
        let mut mem: [u8; 4096] = [0; 4096];
        let mut a: usize = 0;
        while a < 80
            invariant
                a <= 80,
                glyphs@ == font_bytes(),
                forall|k: int| 0 <= k < a ==> mem@[k] == font_bytes()[k],
                forall|k: int| a <= k < 4096 ==> mem@[k] == 0,
            decreases 80 - a,
        {
            mem[a] = glyphs[a];
            a = a + 1;
        }
        let mut j: usize = 0;
        while j < code.len()
            invariant
                j <= code@.len() <= MAX_PROGRAM_LEN,
                forall|k: int| 0 <= k < 80 ==> mem@[k] == font_bytes()[k],
                forall|k: int| 512 <= k < 512 + j ==> mem@[k] == code@[k - 512],
                forall|k: int| 80 <= k < 4096 && !(512 <= k < 512 + j) ==> mem@[k] == 0,
            decreases code@.len() - j,
        {
            mem[512 + j] = code[j];
            j = j + 1;
        }
        let c = CPU {
            pc: PROGRAM_START,
            i: 0,
            stack: Vec::with_capacity(STACK_LIMIT),
            delay: 0,
            sound: 0,
            regs: [0; 16],
            memory: mem,
            screen,
            random: 1,
        };
        assert(c@.memory =~= loaded_memory(code@));
        assert(c@.regs =~= Seq::new(16, |j: int| 0u8));
        assert(c@.stack =~= Seq::empty());
        Ok(c)
    }

    /// Fetches, decodes and executes one instruction with the keypad in `input`.
    /// On success the state is that of one step and the output tells whether the sound
    /// timer is nonzero; on a fatal condition the state is left as it was.
    pub fn cycle(&mut self, input: CpuInput) -> (r: Result<CpuOutput, CpuError>)
        ensures
            match r {
                Ok(out) => step(old(self)@, input.key_pressed@) == Ok::<Machine, CpuError>(
                    final(self)@,
                ) && out.should_beep == (final(self).sound != 0),
                Err(e) => step(old(self)@, input.key_pressed@) == Err::<Machine, CpuError>(e)
                    && final(self)@ == old(self)@,
            },
    {
        let at = self.pc;
        if at >= 4095 {
            return Err(CpuError::AddressOutOfRange { pc: at });
        }
        let hi = self.memory[at as usize];
        let lo = self.memory[at as usize + 1];
        let inst: u16 = hi as u16 * 256 + lo as u16;
        self.pc = at + 2;
        match self.run_instruction(inst, at, &input.key_pressed) {
            Ok(()) => Ok(CpuOutput { should_beep: self.sound != 0 }),
            Err(e) => {
                self.pc = at;
                proof {
                    assert(self@ =~= old(self)@);
                }
                Err(e)
            },
        }
    }

    /// Counts both timers down by one, stopping at zero. The host calls this at its own
    /// fixed cadence, independent of how many steps it runs.
    pub fn tick_timers(&mut self)
        ensures
            final(self)@ == (Machine {
                delay: if old(self).delay > 0 {
                    (old(self).delay - 1) as u8
                } else {
                    0u8
                },
                sound: if old(self).sound > 0 {
                    (old(self).sound - 1) as u8
                } else {
                    0u8
                },
                ..old(self)@
            }),
    {
        self.delay = self.delay.saturating_sub(1);
        self.sound = self.sound.saturating_sub(1);
    }

    /// Executes `inst`, fetched at `at`, once the program counter has moved past it.
    fn run_instruction(&mut self, inst: u16, at: u16, keys: &[bool; 16]) -> (r: Result<
        (),
        CpuError,
    >)
        requires
            2 <= old(self).pc <= 4096,
        ensures
            outcome(execute(old(self)@, inst, at, keys@), r, old(self)@, final(self)@),
    {
        let g = inst / 4096;
        if g == 8 {
            self.alu_op(inst, at)
        } else if g == 13 {
            self.draw_op(inst, at)
        } else if g == 15 {
            self.misc_op(inst, at, keys)
        } else if g == 0 || g == 1 || g == 2 || g == 11 {
            self.flow_op(inst, at)
        } else if g == 3 || g == 4 || g == 5 || g == 9 || g == 14 {
            self.skip_op(inst, at, keys)
        } else {
            self.load_op(inst)
        }
    }

    /// Groups 0, 1, 2 and B: clear screen, return, jump, call, jump with offset.
    fn flow_op(&mut self, inst: u16, at: u16) -> (r: Result<(), CpuError>)
        requires
            inst / 4096 == 0 || inst / 4096 == 1 || inst / 4096 == 2 || inst / 4096 == 11,
        ensures
            forall|keys: Seq<bool>|
                #[trigger] outcome(
                    execute(old(self)@, inst, at, keys),
                    r,
                    old(self)@,
                    final(self)@,
                ),
    {
        let g = inst / 4096;
        let nnn = inst % 4096;
        if g == 0 {
            if inst == 0x00E0 {
                self.screen.data = [false; 2048];
                proof {
                    assert(self.screen.data@ =~= Seq::new(2048, |q: int| false));
                }
            } else if inst == 0x00EE {
                match self.stack.pop() {
                    Some(ret) => {
                        self.pc = ret;
                    },
                    None => {
                        return Err(CpuError::StackUnderflow { pc: at });
                    },
                }
            } else {
                return Err(CpuError::UnsupportedInstruction { inst, pc: at });
            }
        } else if g == 1 {
            self.pc = nnn;
        } else if g == 2 {
            if self.stack.len() >= STACK_LIMIT {
                return Err(CpuError::StackOverflow { pc: at });
            }
            self.stack.push(self.pc);
            self.pc = nnn;
        } else {
            let vx = self.regs[((inst / 256) % 16) as usize];
            self.pc = nnn + vx as u16;
        }
        proof {
            assert forall|keys: Seq<bool>|
                #[trigger] outcome(
                    execute(old(self)@, inst, at, keys),
                    Ok::<(), CpuError>(()),
                    old(self)@,
                    self@,
                ) by {
                assert(self@ =~= execute(old(self)@, inst, at, keys)->Ok_0);
            }
        }
        Ok(())
    }

    /// Groups 3, 4, 5, 9 and E: skip the next instruction on a condition.
    fn skip_op(&mut self, inst: u16, at: u16, keys: &[bool; 16]) -> (r: Result<(), CpuError>)
        requires
            inst / 4096 == 3 || inst / 4096 == 4 || inst / 4096 == 5 || inst / 4096 == 9
                || inst / 4096 == 14,
            old(self).pc <= 4096,
        ensures
            outcome(execute(old(self)@, inst, at, keys@), r, old(self)@, final(self)@),
    {
        let g = inst / 4096;
        let vx = self.regs[((inst / 256) % 16) as usize];
        let vy = self.regs[((inst / 16) % 16) as usize];
        let nn = (inst % 256) as u8;
        let c = if g == 3 {
            vx == nn
        } else if g == 4 {
            vx != nn
        } else if g == 5 || g == 9 {
            if inst % 16 != 0 {
                return Err(CpuError::UnsupportedInstruction { inst, pc: at });
            }
            if g == 5 {
                vx == vy
            } else {
                vx != vy
            }
        } else {
            let k = (vx % 16) as usize;
            if nn == 0x9E {
                keys[k]
            } else if nn == 0xA1 {
                !keys[k]
            } else {
                return Err(CpuError::UnsupportedInstruction { inst, pc: at });
            }
        };
        if c {
            self.pc = self.pc + 2;
        }
        proof {
            assert(self@ =~= execute(old(self)@, inst, at, keys@)->Ok_0);
        }
        Ok(())
    }

    /// Groups 6, 7, A and C: load or add an immediate, set the index, draw a random value.
    fn load_op(&mut self, inst: u16) -> (r: Result<(), CpuError>)
        requires
            inst / 4096 == 6 || inst / 4096 == 7 || inst / 4096 == 10 || inst / 4096 == 12,
        ensures
            r is Ok,
            forall|at: u16, keys: Seq<bool>|
                #[trigger] execute(old(self)@, inst, at, keys) == Ok::<Machine, CpuError>(
                    final(self)@,
                ),
    {
        let g = inst / 4096;
        let x = ((inst / 256) % 16) as usize;
        let nn = (inst % 256) as u8;
        if g == 6 {
            self.regs[x] = nn;
        } else if g == 7 {
            self.regs[x] = self.regs[x].wrapping_add(nn);
        } else if g == 10 {
            self.i = inst % 4096;
        } else {
            self.random = next_random(self.random);
            self.regs[x] = (self.random % 256) as u8 & nn;
        }
        proof {
            assert forall|at: u16, keys: Seq<bool>|
                #[trigger] execute(old(self)@, inst, at, keys) == Ok::<Machine, CpuError>(
                    self@,
                ) by {
                assert(self@ =~= execute(old(self)@, inst, at, keys)->Ok_0);
            }
        }
        Ok(())
    }

    /// Group 8: register-to-register arithmetic and logic.
    fn alu_op(&mut self, inst: u16, at: u16) -> (r: Result<(), CpuError>)
        requires
            inst / 4096 == 8,
        ensures
            outcome(alu(old(self)@, inst, at), r, old(self)@, final(self)@),
    {
        reveal(alu);
        let x = ((inst / 256) % 16) as usize;
        let a = self.regs[x];
        let b = self.regs[((inst / 16) % 16) as usize];
        let n = inst % 16;
        if n == 0 {
            self.regs[x] = b;
        } else if n == 1 {
            self.regs[x] = a | b;
        } else if n == 2 {
            self.regs[x] = a & b;
        } else if n == 3 {
            self.regs[x] = a ^ b;
        } else if n == 4 {
            self.regs[x] = a.wrapping_add(b);
            self.regs[FLAG] = if a as u16 + b as u16 > 255 { 1 } else { 0 };
        } else if n == 5 {
            self.regs[x] = a.wrapping_sub(b);
            self.regs[FLAG] = if a >= b { 1 } else { 0 };
        } else if n == 6 {
            proof {
                assert(b >> 1u8 == b / 2 && b & 1u8 == b % 2) by (bit_vector);
            }
            self.regs[x] = b >> 1;
            self.regs[FLAG] = b & 1;
        } else if n == 7 {
            self.regs[x] = b.wrapping_sub(a);
            self.regs[FLAG] = if b >= a { 1 } else { 0 };
        } else if n == 14 {
            proof {
                assert(b << 1u8 == ((b * 2) % 256) as u8 && b >> 7u8 == b / 128) by (bit_vector);
            }
            self.regs[x] = b << 1;
            self.regs[FLAG] = b >> 7;
        } else {
            return Err(CpuError::UnsupportedInstruction { inst, pc: at });
        }
        proof {
            assert(self@ =~= alu(old(self)@, inst, at)->Ok_0);
        }
        Ok(())
    }
    /// Group F: timers, key wait, index register and memory transfers.
    fn misc_op(&mut self, inst: u16, at: u16, keys: &[bool; 16]) -> (r: Result<(), CpuError>)
        requires
            inst / 4096 == 15,
            old(self).pc >= 2,
        ensures
            outcome(misc(old(self)@, inst, at, keys@), r, old(self)@, final(self)@),
    {
        reveal(misc);
        let x = ((inst / 256) % 16) as usize;
        let v = self.regs[x];
        let op = (inst % 256) as u8;
        if op == 0x07 {
            self.regs[x] = self.delay;
        } else if op == 0x0A {
            match first_pressed_key(keys) {
                Some(k) => {
                    self.regs[x] = k as u8;
                },
                None => {
                    self.pc = self.pc - 2;
                },
            }
        } else if op == 0x15 {
            self.delay = v;
        } else if op == 0x18 {
            self.sound = v;
        } else if op == 0x1E {
            let s = self.i.wrapping_add(v as u16);
            self.i = s;
            self.regs[FLAG] = if s >= 4096 { 1 } else { 0 };
        } else if op == 0x29 {
            self.i = v as u16 * 5;
        } else if op == 0x33 {
            if self.i >= 4094 {
                return Err(CpuError::AddressOutOfRange { pc: at });
            }
            let a = self.i as usize;
            self.memory[a] = v / 100;
            self.memory[a + 1] = (v / 10) % 10;
            self.memory[a + 2] = v % 10;
        } else if op == 0x55 {
            if self.i as usize + x >= 4096 {
                return Err(CpuError::AddressOutOfRange { pc: at });
            }
            let base = self.i as usize;
            let mut n: usize = 0;
            while n <= x
                invariant
                    x < 16,
                    base == old(self).i,
                    base + x < 4096,
                    n <= x + 1,
                    self.regs@ == old(self).regs@,
                    self.pc == old(self).pc,
                    self.i == old(self).i,
                    self.stack@ == old(self).stack@,
                    self.delay == old(self).delay,
                    self.sound == old(self).sound,
                    self.screen.data@ == old(self).screen.data@,
                    self.random == old(self).random,
                    forall|a: int|
                        0 <= a < 4096 ==> #[trigger] self.memory@[a] == if base <= a < base + n {
                            old(self).regs@[a - base]
                        } else {
                            old(self).memory@[a]
                        },
                decreases x + 1 - n,
            {
                self.memory[base + n] = self.regs[n];
                n = n + 1;
            }
        } else if op == 0x65 {
            if self.i as usize + x >= 4096 {
                return Err(CpuError::AddressOutOfRange { pc: at });
            }
            let base = self.i as usize;
            let mut n: usize = 0;
            while n <= x
                invariant
                    x < 16,
                    base == old(self).i,
                    base + x < 4096,
                    n <= x + 1,
                    self.memory@ == old(self).memory@,
                    self.pc == old(self).pc,
                    self.i == old(self).i,
                    self.stack@ == old(self).stack@,
                    self.delay == old(self).delay,
                    self.sound == old(self).sound,
                    self.screen.data@ == old(self).screen.data@,
                    self.random == old(self).random,
                    forall|j: int|
                        0 <= j < 16 ==> #[trigger] self.regs@[j] == if j < n {
                            old(self).memory@[base + j]
                        } else {
                            old(self).regs@[j]
                        },
                decreases x + 1 - n,
            {
                self.regs[n] = self.memory[base + n];
                n = n + 1;
            }
        } else {
            return Err(CpuError::UnsupportedInstruction { inst, pc: at });
        }
        proof {
            assert(self@ =~= misc(old(self)@, inst, at, keys@)->Ok_0);
        }
        Ok(())
    }
    /// Group D: XOR-draws an N-row sprite from memory at the index register onto the
    /// framebuffer, and sets the flag register to whether a set pixel was cleared.
    fn draw_op(&mut self, inst: u16, at: u16) -> (r: Result<(), CpuError>)
        requires
            inst / 4096 == 13,
        ensures
            outcome(draw(old(self)@, inst, at), r, old(self)@, final(self)@),
    {
        reveal(draw);
        let x0 = (self.regs[((inst / 256) % 16) as usize] % 64) as usize;
        let y0 = (self.regs[((inst / 16) % 16) as usize] % 32) as usize;
        let n = (inst % 16) as usize;
        let rows: usize = if n <= 32 - y0 {
            n
        } else {
            32 - y0
        };
        let base = self.i as usize;
        if rows > 0 && base + rows > 4096 {
            return Err(CpuError::AddressOutOfRange { pc: at });
        }
        let ghost mem = self.memory@;
        let ghost old_scr = self.screen.data@;
        let mut scr = self.screen.data;
        let mut hit = false;
        let mut r: usize = 0;
        while r < rows
            invariant
                x0 < 64,
                y0 < 32,
                rows <= 32 - y0,
                rows == 0 || base + rows <= 4096,
                x0 == old(self).regs@[nib_x(inst)] % 64,
                y0 == old(self).regs@[nib_y(inst)] % 32,
                rows == drawn_rows(y0 as int, nib_n(inst)),
                base == old(self).i,
                r <= rows,
                self@ == old(self)@,
                mem == self.memory@,
                forall|rr: int, bb: int|
                    0 <= rr < r && 0 <= bb < 8 && #[trigger] sprite_bit(mem[base + rr], bb)
                        ==> pixel_pos(x0 as int, y0 as int, rr, bb) < 2048,
                forall|q: int|
                    0 <= q < 2048 ==> #[trigger] scr@[q] == (old_scr[q] != covered(
                        mem,
                        base as int,
                        x0 as int,
                        y0 as int,
                        r as int,
                        q,
                    )),
                hit == collides(old_scr, mem, base as int, x0 as int, y0 as int, r as int),
            decreases rows - r,
        {
            let spr = self.memory[base + r];
            proof {
                lemma_row_start(old_scr, mem, base as int, x0 as int, y0 as int, r as int);
            }
            let mut b: usize = 0;
            while b < 8
                invariant
                    x0 < 64,
                    y0 < 32,
                    r < rows <= 32 - y0,
                    base + rows <= 4096,
                    x0 == old(self).regs@[nib_x(inst)] % 64,
                    y0 == old(self).regs@[nib_y(inst)] % 32,
                    rows == drawn_rows(y0 as int, nib_n(inst)),
                    base == old(self).i,
                    b <= 8,
                    self@ == old(self)@,
                    mem == self.memory@,
                    spr == mem[base + r],
                    forall|rr: int, bb: int|
                        0 <= rr < r && 0 <= bb < 8 && #[trigger] sprite_bit(mem[base + rr], bb)
                            ==> pixel_pos(x0 as int, y0 as int, rr, bb) < 2048,
                    forall|bb: int|
                        0 <= bb < b && #[trigger] sprite_bit(spr, bb) ==> pixel_pos(
                            x0 as int,
                            y0 as int,
                            r as int,
                            bb,
                        ) < 2048,
                    forall|q: int|
                        0 <= q < 2048 ==> #[trigger] scr@[q] == (old_scr[q] != covered_upto(
                            mem,
                            base as int,
                            x0 as int,
                            y0 as int,
                            r as int,
                            b as int,
                            q,
                        )),
                    hit == collides_upto(
                        old_scr,
                        mem,
                        base as int,
                        x0 as int,
                        y0 as int,
                        r as int,
                        b as int,
                    ),
                decreases 8 - b,
            {
                let sh = (7 - b) as u8;
                if (spr >> sh) & 1 == 1 {
                    let p = x0 + (y0 + r) * 64 + b;
                    proof {
                        assert(sprite_bit(mem[base + r], b as int));
                    }
                    if p >= 2048 {
                        proof {
                            reveal(draw);
                            assert(!draw_fits(mem, base as int, x0 as int, y0 as int, rows as int));
                        }
                        return Err(CpuError::AddressOutOfRange { pc: at });
                    }
                    proof {
                        lemma_step_pixel(
                            old_scr,
                            mem,
                            base as int,
                            x0 as int,
                            y0 as int,
                            r as int,
                            b as int,
                        );
                    }
                    if scr[p] {
                        hit = true;
                    }
                    scr[p] = !scr[p];
                } else {
                    proof {
                        lemma_skip_pixel(
                            old_scr,
                            mem,
                            base as int,
                            x0 as int,
                            y0 as int,
                            r as int,
                            b as int,
                        );
                    }
                }
                b = b + 1;
            }
            proof {
                lemma_row_done(old_scr, mem, base as int, x0 as int, y0 as int, r as int);
            }
            r = r + 1;
        }
        self.screen.data = scr;
        self.regs[FLAG] = if hit {
            1
        } else {
            0
        };
        proof {
            assert(self.screen.data@ =~= drawn_screen(
                old_scr,
                mem,
                base as int,
                x0 as int,
                y0 as int,
                rows as int,
            ));
            assert(self@ =~= draw(old(self)@, inst, at)->Ok_0);
        }
        Ok(())
    }
}

/// The lowest index of a pressed key, if any key is pressed.
fn first_pressed_key(keys: &[bool; 16]) -> (r: Option<usize>)
    ensures
        r is None <==> !any_pressed(keys@),
        r matches Some(k) ==> k == first_pressed(keys@),
{
    let mut k: usize = 0;
    while k < 16
        invariant
            k <= 16,
            forall|j: int| 0 <= j < k ==> !keys@[j],
        decreases 16 - k,
    {
        if keys[k] {
            proof {
                let f = first_pressed(keys@);
                assert(0 <= k < 16 && keys@[k as int] && forall|j: int|
                    0 <= j < k ==> !#[trigger] keys@[j]);
                if f < k {
                    assert(!keys@[f]);
                } else if f > k {
                    assert(!keys@[k as int]);
                }
            }
            return Some(k);
        }
        k = k + 1;
    }
    None
}


/// A step's exact outcome: on success the new state is the one that `expected` holds,
/// on failure the error is the expected one and the state is unchanged.
spec fn outcome(
    expected: Result<Machine, CpuError>,
    r: Result<(), CpuError>,
    before: Machine,
    after: Machine,
) -> bool {
    match r {
        Ok(_) => expected == Ok::<Machine, CpuError>(after),
        Err(e) => expected == Err::<Machine, CpuError>(e) && after == before,
    }
}

/// Advances the xorshift generator one step.
fn next_random(s: u32) -> (r: u32)
    ensures
        r == xorshift(s),
{
    let mut r = s;
    r ^= r << 13;
    r ^= r >> 17;
    r ^= r << 5;
    r
}

} // verus!
