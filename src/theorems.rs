//! Properties of the step function that relate several steps or hold for every state.
use vstd::prelude::*;
use vstd::arithmetic::div_mod::lemma_fundamental_div_mod_converse;
use crate::machine::{
    alu, draw, collides, drawn_rows, flag_of, group, low_addr, low_byte, nib_n, nib_x, nib_y, step,
    set_reg, well_formed, word_at, CpuError, Machine,
};

verus! {

/// An instruction word assembled from its four nibbles decodes back into them.
pub proof fn lemma_decode(inst: u16, g: int, x: int, y: int, n: int)
    requires
        0 <= g < 16,
        0 <= x < 16,
        0 <= y < 16,
        0 <= n < 16,
        inst == g * 4096 + x * 256 + y * 16 + n,
    ensures
        group(inst) == g,
        nib_x(inst) == x,
        nib_y(inst) == y,
        nib_n(inst) == n,
        low_byte(inst) == y * 16 + n,
        low_addr(inst) == x * 256 + y * 16 + n,
{
    let w = inst as int;
    lemma_fundamental_div_mod_converse(w, 4096, g, x * 256 + y * 16 + n);
    lemma_fundamental_div_mod_converse(w, 256, g * 16 + x, y * 16 + n);
    lemma_fundamental_div_mod_converse(g * 16 + x, 16, g, x);
    lemma_fundamental_div_mod_converse(w, 16, g * 256 + x * 16 + y, n);
    lemma_fundamental_div_mod_converse(g * 256 + x * 16 + y, 16, g * 16 + x, y);
}

/// One `7XNN` step: register X gains NN modulo 256 and the program counter moves on.
proof fn lemma_add_immediate_step(m: Machine, keys: Seq<bool>, x: int, nn: u8)
    requires
        well_formed(m),
        0 <= x < 16,
        m.pc + 1 < 4096,
        word_at(m.memory, m.pc as int) == 0x7000 + x * 256 + nn,
    ensures
        step(m, keys) == Ok::<Machine, CpuError>(
            set_reg(
                Machine { pc: (m.pc + 2) as u16, ..m },
                x,
                ((m.regs[x] + nn) % 256) as u8,
            ),
        ),
{
    lemma_decode((0x7000 + x * 256 + nn) as u16, 7, x, nn as int / 16, nn as int % 16);
}

/// Adding the same immediate to register `x` in two consecutive steps adds it twice,
/// modulo 256, and leaves every other register, the flag register among them, unchanged.
pub proof fn add_immediate_twice(m: Machine, keys1: Seq<bool>, keys2: Seq<bool>, x: int, nn: u8)
    requires
        well_formed(m),
        0 <= x < 16,
        m.pc + 3 < 4096,
        word_at(m.memory, m.pc as int) == 0x7000 + x * 256 + nn,
        word_at(m.memory, m.pc + 2) == 0x7000 + x * 256 + nn,
    ensures
        step(m, keys1) is Ok,
        step(step(m, keys1)->Ok_0, keys2) is Ok,
        step(step(m, keys1)->Ok_0, keys2)->Ok_0.regs[x] == (m.regs[x] + 2 * nn) % 256,
        forall|j: int|
            0 <= j < 16 && j != x ==> step(step(m, keys1)->Ok_0, keys2)->Ok_0.regs[j]
                == m.regs[j],
{
    lemma_add_immediate_step(m, keys1, x, nn);
    let m1 = step(m, keys1)->Ok_0;
    lemma_add_immediate_step(m1, keys2, x, nn);
}

/// `8XY4` sets the flag register to 1 exactly when the unsigned sum of registers X and Y
/// exceeds 255.
pub proof fn add_sets_carry(m: Machine, keys: Seq<bool>, x: int, y: int)
    requires
        well_formed(m),
        0 <= x < 16,
        0 <= y < 16,
        m.pc + 1 < 4096,
        word_at(m.memory, m.pc as int) == 0x8004 + x * 256 + y * 16,
    ensures
        step(m, keys) is Ok,
        step(m, keys)->Ok_0.regs[15] == flag_of(m.regs[x] + m.regs[y] > 255),
{
    reveal(alu);
    lemma_decode((0x8004 + x * 256 + y * 16) as u16, 8, x, y, 4);
}

/// `8XY5` sets the flag register to 1 exactly when register X is at least register Y.
pub proof fn sub_sets_no_borrow(m: Machine, keys: Seq<bool>, x: int, y: int)
    requires
        well_formed(m),
        0 <= x < 16,
        0 <= y < 16,
        m.pc + 1 < 4096,
        word_at(m.memory, m.pc as int) == 0x8005 + x * 256 + y * 16,
    ensures
        step(m, keys) is Ok,
        step(m, keys)->Ok_0.regs[15] == flag_of(m.regs[x] >= m.regs[y]),
{
    reveal(alu);
    lemma_decode((0x8005 + x * 256 + y * 16) as u16, 8, x, y, 5);
}

/// `00E0` leaves every pixel of the framebuffer off, whatever it held before.
pub proof fn clear_blanks_screen(m: Machine, keys: Seq<bool>)
    requires
        well_formed(m),
        m.pc + 1 < 4096,
        word_at(m.memory, m.pc as int) == 0x00E0,
    ensures
        step(m, keys) is Ok,
        step(m, keys)->Ok_0.screen.len() == 2048,
        forall|q: int| 0 <= q < 2048 ==> !step(m, keys)->Ok_0.screen[q],
{
}

/// Drawing the same sprite twice at the same place restores the framebuffer, and the
/// second draw reports a collision exactly when a set bit of the sprite falls on a pixel
/// that the first draw left on.
pub proof fn draw_twice_restores(
    m: Machine,
    keys1: Seq<bool>,
    keys2: Seq<bool>,
    x: int,
    y: int,
    n: int,
)
    requires
        well_formed(m),
        0 <= x < 15,
        0 <= y < 15,
        0 <= n < 16,
        m.pc + 3 < 4096,
        word_at(m.memory, m.pc as int) == 0xD000 + x * 256 + y * 16 + n,
        word_at(m.memory, m.pc + 2) == 0xD000 + x * 256 + y * 16 + n,
        step(m, keys1) is Ok,
    ensures
        step(step(m, keys1)->Ok_0, keys2) is Ok,
        step(step(m, keys1)->Ok_0, keys2)->Ok_0.screen == m.screen,
        step(step(m, keys1)->Ok_0, keys2)->Ok_0.regs[15] == flag_of(
            collides(
                step(m, keys1)->Ok_0.screen,
                m.memory,
                m.i as int,
                (m.regs[x] % 64) as int,
                (m.regs[y] % 32) as int,
                drawn_rows((m.regs[y] % 32) as int, n),
            ),
        ),
{
    reveal(draw);
    lemma_decode((0xD000 + x * 256 + y * 16 + n) as u16, 13, x, y, n);
    let m1 = step(m, keys1)->Ok_0;
    let m2 = step(m1, keys2)->Ok_0;
    assert(m1.memory == m.memory);
    assert(m1.regs[x] == m.regs[x]);
    assert(m1.regs[y] == m.regs[y]);
    assert(m2.screen =~= m.screen);
}

/// One `2NNN` step on a stack with room: the return address is pushed and control
/// moves to NNN.
proof fn lemma_call_step(m: Machine, keys: Seq<bool>, nnn: int)
    requires
        well_formed(m),
        0 <= nnn < 4096,
        m.pc + 1 < 4096,
        m.stack.len() < 16,
        word_at(m.memory, m.pc as int) == 0x2000 + nnn,
    ensures
        step(m, keys) == Ok::<Machine, CpuError>(
            Machine { pc: nnn as u16, stack: m.stack.push((m.pc + 2) as u16), ..m },
        ),
{
    lemma_decode((0x2000 + nnn) as u16, 2, nnn / 256, (nnn / 16) % 16, nnn % 16);
}

/// One `00EE` step on a nonempty stack: the top address is popped into the program counter.
proof fn lemma_return_step(m: Machine, keys: Seq<bool>)
    requires
        well_formed(m),
        m.pc + 1 < 4096,
        m.stack.len() > 0,
        word_at(m.memory, m.pc as int) == 0x00EE,
    ensures
        step(m, keys) == Ok::<Machine, CpuError>(
            Machine { pc: m.stack.last(), stack: m.stack.drop_last(), ..m },
        ),
{
    lemma_decode(0x00EEu16, 0, 0, 14, 14);
}

/// A call at address A followed, once the stack is back to what the call left, by a
/// return brings the program counter to A + 2 and the stack to what it was before the call.
pub proof fn call_then_return(
    m: Machine,
    keys1: Seq<bool>,
    later: Machine,
    keys2: Seq<bool>,
    nnn: int,
)
    requires
        well_formed(m),
        well_formed(later),
        0 <= nnn < 4096,
        m.pc + 1 < 4096,
        m.stack.len() < 16,
        word_at(m.memory, m.pc as int) == 0x2000 + nnn,
        later.pc + 1 < 4096,
        word_at(later.memory, later.pc as int) == 0x00EE,
        later.stack == step(m, keys1)->Ok_0.stack,
    ensures
        step(m, keys1) is Ok,
        step(m, keys1)->Ok_0.pc == nnn,
        step(later, keys2) is Ok,
        step(later, keys2)->Ok_0.pc == m.pc + 2,
        step(later, keys2)->Ok_0.stack == m.stack,
{
    lemma_call_step(m, keys1, nnn);
    lemma_return_step(later, keys2);
    assert(later.stack.drop_last() =~= m.stack);
}

/// `CX00` sets register X to 0, whatever the state of the random source.
pub proof fn random_masked_by_zero(m: Machine, keys: Seq<bool>, x: int)
    requires
        well_formed(m),
        0 <= x < 16,
        m.pc + 1 < 4096,
        word_at(m.memory, m.pc as int) == 0xC000 + x * 256,
    ensures
        step(m, keys) is Ok,
        step(m, keys)->Ok_0.regs[x] == 0,
{
    lemma_decode((0xC000 + x * 256) as u16, 12, x, 0, 0);
    let v = ((crate::machine::xorshift(m.random) % 256) as u8);
    assert(v & 0u8 == 0u8) by (bit_vector);
}

} // verus!
