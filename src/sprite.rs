//! Lemmas behind the sprite-drawing loop: what a partly drawn sprite covers, one bit at a
//! time, measured against `covered` and `collides` of the model.
use vstd::prelude::*;
use vstd::arithmetic::div_mod::{lemma_fundamental_div_mod, lemma_fundamental_div_mod_converse};
use crate::machine::{collides, covered, pixel_pos, sprite_bit};

verus! {

/// Pixel `q` is under a set bit among the sprite rows before `r` and the first `b` bits of
/// row `r`.
pub open spec fn covered_upto(
    mem: Seq<u8>,
    i: int,
    x0: int,
    y0: int,
    r: int,
    b: int,
    q: int,
) -> bool {
    let d = q - (x0 + y0 * 64);
    &&& 0 <= d
    &&& (d / 64 < r || (d / 64 == r && d % 64 < b))
    &&& d % 64 < 8
    &&& sprite_bit(mem[i + d / 64], d % 64)
}

/// Some bit counted by `covered_upto` lands on a set pixel.
pub open spec fn collides_upto(
    screen: Seq<bool>,
    mem: Seq<u8>,
    i: int,
    x0: int,
    y0: int,
    r: int,
    b: int,
) -> bool {
    exists|q: int|
        0 <= q < 2048 && #[trigger] covered_upto(mem, i, x0, y0, r, b, q) && screen[q]
}

/// Taking in a set bit adds exactly its own pixel to the covered ones.
pub proof fn lemma_step_pixel(
    screen: Seq<bool>,
    mem: Seq<u8>,
    i: int,
    x0: int,
    y0: int,
    r: int,
    b: int,
)
    requires
        0 <= r,
        0 <= b < 8,
        sprite_bit(mem[i + r], b),
        0 <= pixel_pos(x0, y0, r, b) < 2048,
    ensures
        covered_upto(mem, i, x0, y0, r, b + 1, pixel_pos(x0, y0, r, b)),
        !covered_upto(mem, i, x0, y0, r, b, pixel_pos(x0, y0, r, b)),
        forall|q: int|
            q != pixel_pos(x0, y0, r, b) ==> #[trigger] covered_upto(mem, i, x0, y0, r, b + 1, q)
                == covered_upto(mem, i, x0, y0, r, b, q),
        collides_upto(screen, mem, i, x0, y0, r, b + 1) == (collides_upto(
            screen,
            mem,
            i,
            x0,
            y0,
            r,
            b,
        ) || screen[pixel_pos(x0, y0, r, b)]),
{
    let p = pixel_pos(x0, y0, r, b);
    lemma_fundamental_div_mod_converse(r * 64 + b, 64, r, b);
    assert forall|q: int| q != p implies #[trigger] covered_upto(mem, i, x0, y0, r, b + 1, q)
        == covered_upto(mem, i, x0, y0, r, b, q) by {
        lemma_fundamental_div_mod(q - (x0 + y0 * 64), 64);
    }
    if collides_upto(screen, mem, i, x0, y0, r, b + 1) {
        let q = choose|q: int|
            0 <= q < 2048 && #[trigger] covered_upto(mem, i, x0, y0, r, b + 1, q) && screen[q];
        if q != p {
            assert(covered_upto(mem, i, x0, y0, r, b, q));
        }
    }
    if collides_upto(screen, mem, i, x0, y0, r, b) {
        let q = choose|q: int|
            0 <= q < 2048 && #[trigger] covered_upto(mem, i, x0, y0, r, b, q) && screen[q];
        assert(covered_upto(mem, i, x0, y0, r, b + 1, q));
    }
    if screen[p] {
        assert(covered_upto(mem, i, x0, y0, r, b + 1, p));
    }
}

/// Passing over a clear bit covers nothing new.
pub proof fn lemma_skip_pixel(
    screen: Seq<bool>,
    mem: Seq<u8>,
    i: int,
    x0: int,
    y0: int,
    r: int,
    b: int,
)
    requires
        0 <= r,
        0 <= b < 8,
        !sprite_bit(mem[i + r], b),
    ensures
        forall|q: int|
            #[trigger] covered_upto(mem, i, x0, y0, r, b + 1, q) == covered_upto(
                mem,
                i,
                x0,
                y0,
                r,
                b,
                q,
            ),
        collides_upto(screen, mem, i, x0, y0, r, b + 1) == collides_upto(
            screen,
            mem,
            i,
            x0,
            y0,
            r,
            b,
        ),
{
    assert forall|q: int| #[trigger]
        covered_upto(mem, i, x0, y0, r, b + 1, q) == covered_upto(mem, i, x0, y0, r, b, q) by {
        let d = q - (x0 + y0 * 64);
        if d >= 0 && d / 64 == r && d % 64 == b {
            assert(mem[i + d / 64] == mem[i + r]);
        }
    }
    if collides_upto(screen, mem, i, x0, y0, r, b + 1) {
        let q = choose|q: int|
            0 <= q < 2048 && #[trigger] covered_upto(mem, i, x0, y0, r, b + 1, q) && screen[q];
        assert(covered_upto(mem, i, x0, y0, r, b, q));
    }
    if collides_upto(screen, mem, i, x0, y0, r, b) {
        let q = choose|q: int|
            0 <= q < 2048 && #[trigger] covered_upto(mem, i, x0, y0, r, b, q) && screen[q];
        assert(covered_upto(mem, i, x0, y0, r, b + 1, q));
    }
}

/// Before row `r` begins, the partial count is `covered` with `r` rows.
pub proof fn lemma_row_start(screen: Seq<bool>, mem: Seq<u8>, i: int, x0: int, y0: int, r: int)
    ensures
        forall|q: int|
            #[trigger] covered_upto(mem, i, x0, y0, r, 0, q) == covered(mem, i, x0, y0, r, q),
        collides_upto(screen, mem, i, x0, y0, r, 0) == collides(screen, mem, i, x0, y0, r),
{
    assert forall|q: int| #[trigger]
        covered_upto(mem, i, x0, y0, r, 0, q) == covered(mem, i, x0, y0, r, q) by {}
    if collides(screen, mem, i, x0, y0, r) {
        let q = choose|q: int|
            0 <= q < 2048 && #[trigger] covered(mem, i, x0, y0, r, q) && screen[q];
        assert(covered_upto(mem, i, x0, y0, r, 0, q));
    }
    if collides_upto(screen, mem, i, x0, y0, r, 0) {
        let q = choose|q: int|
            0 <= q < 2048 && #[trigger] covered_upto(mem, i, x0, y0, r, 0, q) && screen[q];
        assert(covered(mem, i, x0, y0, r, q));
    }
}

/// Once all eight bits of row `r` are in, the partial count is `covered` with `r + 1` rows.
pub proof fn lemma_row_done(screen: Seq<bool>, mem: Seq<u8>, i: int, x0: int, y0: int, r: int)
    ensures
        forall|q: int|
            #[trigger] covered_upto(mem, i, x0, y0, r, 8, q) == covered(mem, i, x0, y0, r + 1, q),
        collides_upto(screen, mem, i, x0, y0, r, 8) == collides(screen, mem, i, x0, y0, r + 1),
{
    assert forall|q: int| #[trigger]
        covered_upto(mem, i, x0, y0, r, 8, q) == covered(mem, i, x0, y0, r + 1, q) by {}
    if collides(screen, mem, i, x0, y0, r + 1) {
        let q = choose|q: int|
            0 <= q < 2048 && #[trigger] covered(mem, i, x0, y0, r + 1, q) && screen[q];
        assert(covered_upto(mem, i, x0, y0, r, 8, q));
    }
    if collides_upto(screen, mem, i, x0, y0, r, 8) {
        let q = choose|q: int|
            0 <= q < 2048 && #[trigger] covered_upto(mem, i, x0, y0, r, 8, q) && screen[q];
        assert(covered(mem, i, x0, y0, r + 1, q));
    }
}

} // verus!
