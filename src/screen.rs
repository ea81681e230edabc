//! The 64x32 monochrome framebuffer and its export to RGBA bytes.
use vstd::prelude::*;

verus! {

/// Pixel states, row-major: pixel (x, y) is at `x + 64 * y`.
#[derive(Debug, Clone)]
pub struct Screen {
    pub data: [bool; 2048],
}

/// Byte `c` (0 to 3) of the RGBA color of a pixel that is on or off.
pub open spec fn color_byte(on: bool, c: int) -> u8 {
    if on {
        if c == 0 {
            0xab
        } else if c == 1 {
            0xb2
        } else if c == 2 {
            0xbf
        } else {
            0xff
        }
    } else {
        if c == 0 {
            0x28
        } else if c == 1 {
            0x2c
        } else if c == 2 {
            0x34
        } else {
            0xff
        }
    }
}

impl Screen {
    /// A framebuffer with every pixel off.
    pub fn new() -> (r: Screen)
        ensures
            r.data@ == Seq::new(2048, |q: int| false),
    {
        let r = Screen { data: [false; 2048] };
        assert(r.data@ =~= Seq::new(2048, |q: int| false));
        r
    }

    /// Four RGBA bytes per pixel, in framebuffer order.
    pub fn export(&self) -> (r: Vec<u8>)
        ensures
            r@.len() == 4 * 2048,
            forall|k: int|
                0 <= k < 4 * 2048 ==> #[trigger] r@[k] == color_byte(self.data@[k / 4], k % 4),
    {
        let mut scr: Vec<u8> = Vec::with_capacity(4 * 2048);
        let mut p: usize = 0;
        while p < 2048
            invariant
                p <= 2048,
                scr@.len() == 4 * p,
                forall|k: int|
                    0 <= k < 4 * p ==> #[trigger] scr@[k] == color_byte(self.data@[k / 4], k % 4),
            decreases 2048 - p,
        {
            if self.data[p] {
                scr.push(0xab);
                scr.push(0xb2);
                scr.push(0xbf);
                scr.push(0xff);
            } else {
                scr.push(0x28);
                scr.push(0x2c);
                scr.push(0x34);
                scr.push(0xff);
            }
            assert forall|k: int| 0 <= k < 4 * (p + 1) implies #[trigger] scr@[k] == color_byte(
                self.data@[k / 4],
                k % 4,
            ) by {
                if k >= 4 * p {
                    assert(k / 4 == p as int);
                    assert(k % 4 == k - 4 * p);
                }
            }
            p = p + 1;
        }
        scr
    }
}

} // verus!
