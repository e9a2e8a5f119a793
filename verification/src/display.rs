use vstd::prelude::*;

verus! {

use vstd::arithmetic::div_mod::{
    lemma_fundamental_div_mod,
    lemma_fundamental_div_mod_converse,
    lemma_mod_multiples_vanish,
    lemma_mod_bound,
    lemma_small_mod,
};

/// Width of the framebuffer in pixels.
pub const DISPLAY_WIDTH: usize = 64;

/// Height of the framebuffer in pixels.
pub const DISPLAY_HEIGHT: usize = 32;

/// Number of pixels in the framebuffer.
pub const NUM_PIXELS: usize = 2048;

/// 64x32 one-bit-per-pixel framebuffer, row-major, each cell 0 or 1.
/// Mutated only by `clear` and the XOR sprite `draw`.
pub struct Display {
    pixels: Vec<u8>,
}

impl View for Display {
    type V = Seq<u8>;

    closed spec fn view(&self) -> Seq<u8> {
        self.pixels@
    }
}

/// Bit `c` of one sprite row byte, most significant bit first, as 0 or 1.
pub open spec fn sprite_bit(byte: u8, c: int) -> u8 {
    (byte >> ((7 - c) as u8)) & 1
}

/// Row-major index of the pixel at column `cx`, row `cy`.
pub open spec fn px(cx: int, cy: int) -> int {
    64 * cy + cx
}

/// The framebuffer after XOR-drawing the first `h` rows of `sprite` with its
/// top-left corner at `(x, y)`: sprite row `r`, column `c` lands on pixel
/// `((x + c) % 64, (y + r) % 32)` (toroidal wrap on both axes) and is XORed
/// into it; every other pixel keeps its value.
pub open spec fn draw_spec(fb: Seq<u8>, x: int, y: int, h: int, sprite: Seq<u8>) -> Seq<u8> {
    Seq::new(
        fb.len(),
        |i: int|
            {
                let c = (i % 64 - x) % 64;
                let r = (i / 64 - y) % 32;
                if c < 8 && r < h {
                    fb[i] ^ sprite_bit(sprite[r], c)
                } else {
                    fb[i]
                }
            },
    )
}

/// Some set sprite bit lands on a pixel that is currently set, i.e. the draw
/// turns at least one pixel off.
pub open spec fn draw_collides(fb: Seq<u8>, x: int, y: int, h: int, sprite: Seq<u8>) -> bool {
    exists|r: int, c: int|
        #![auto]
        0 <= r < h && 0 <= c < 8 && fb[px((x + c) % 64, (y + r) % 32)] == 1 && sprite_bit(
            sprite[r],
            c,
        ) == 1
}

/// Wrapping an offset `off` in `[0, m)` around `base` and taking the
/// distance back from `base` recovers `off`.
proof fn lemma_wrap_round(base: int, off: int, m: int)
    requires
        0 <= base,
        0 <= off < m,
        0 < m,
    ensures
        (((base + off) % m) - base) % m == off,
{
    let w = (base + off) % m;
    let q = (base + off) / m;
    lemma_fundamental_div_mod(base + off, m);
    assert(w - base == m * (-q) + off) by (nonlinear_arith)
        requires
            base + off == m * q + w,
    ;
    lemma_mod_multiples_vanish(-q, off, m);
    lemma_small_mod(off as nat, m as nat);
}

/// Two values in `[0, m)` with the same distance (mod `m`) from `base` are
/// equal.
proof fn lemma_wrap_unique(base: int, a: int, b: int, m: int)
    requires
        0 <= a < m,
        0 <= b < m,
        0 < m,
        (a - base) % m == (b - base) % m,
    ensures
        a == b,
{
    let qa = (a - base) / m;
    let qb = (b - base) / m;
    lemma_fundamental_div_mod(a - base, m);
    lemma_fundamental_div_mod(b - base, m);
    assert(a - b == m * (qa - qb)) by (nonlinear_arith)
        requires
            a - base == m * qa + (a - base) % m,
            b - base == m * qb + (b - base) % m,
            (a - base) % m == (b - base) % m,
    ;
    assert(qa - qb == 0) by (nonlinear_arith)
        requires
            a - b == m * (qa - qb),
            -m < a - b < m,
            0 < m,
    ;
}

/// XOR-drawing is its own inverse: drawing the same sprite twice at the
/// same coordinates restores the framebuffer exactly as it was before the
/// first draw.
pub proof fn lemma_draw_self_inverse(fb: Seq<u8>, x: int, y: int, h: int, sprite: Seq<u8>)
    ensures
        draw_spec(draw_spec(fb, x, y, h, sprite), x, y, h, sprite) == fb,
{
    let once = draw_spec(fb, x, y, h, sprite);
    let twice = draw_spec(once, x, y, h, sprite);
    assert forall|i: int| 0 <= i < fb.len() implies twice[i] == fb[i] by {
        let c = (i % 64 - x) % 64;
        let r = (i / 64 - y) % 32;
        if c < 8 && r < h {
            let a = fb[i];
            let b = sprite_bit(sprite[r], c);
            assert((a ^ b) ^ b == a) by (bit_vector);
        }
    }
    assert(twice =~= fb);
}

/// When every set sprite bit lands on a pixel that is currently set,
/// drawing turns exactly those pixels off, and drawing the same sprite
/// again reports no collision. (With any set sprite bit over a clear
/// pixel, the first draw turns that pixel on and the second draw does
/// collide.)
pub proof fn lemma_second_draw_no_collision(fb: Seq<u8>, x: int, y: int, h: int, sprite: Seq<u8>)
    requires
        fb.len() == NUM_PIXELS,
        0 <= x,
        0 <= y,
        0 <= h <= 32,
        h <= sprite.len(),
        forall|r: int, c: int|
            #![auto]
            0 <= r < h && 0 <= c < 8 && sprite_bit(sprite[r], c) == 1 ==> fb[px(
                (x + c) % 64,
                (y + r) % 32,
            )] == 1,
    ensures
        !draw_collides(draw_spec(fb, x, y, h, sprite), x, y, h, sprite),
{
    let once = draw_spec(fb, x, y, h, sprite);
    if draw_collides(once, x, y, h, sprite) {
        let (r, c) = choose|r: int, c: int|
            #![auto]
            0 <= r < h && 0 <= c < 8 && once[px((x + c) % 64, (y + r) % 32)] == 1 && sprite_bit(
                sprite[r],
                c,
            ) == 1;
        lemma_mod_bound(x + c, 64);
        lemma_mod_bound(y + r, 32);
        let t = px((x + c) % 64, (y + r) % 32);
        lemma_fundamental_div_mod_converse(t, 64, (y + r) % 32, (x + c) % 64);
        lemma_wrap_round(x, c, 64);
        lemma_wrap_round(y, r, 32);
        assert(once[t] == fb[t] ^ sprite_bit(sprite[r], c));
        assert(fb[t] == 1);
        assert(1u8 ^ 1u8 == 0u8) by (bit_vector);
        assert(false);
    }
}

impl Display {
    /// The grid holds exactly `NUM_PIXELS` cells, each 0 or 1.
    pub open spec fn wf(&self) -> bool {
        &&& self@.len() == NUM_PIXELS
        &&& forall|i: int| 0 <= i < NUM_PIXELS ==> (self@[i] == 0 || self@[i] == 1)
    }

    pub fn new() -> (d: Display)
        ensures
            d.wf(),
            forall|i: int| 0 <= i < NUM_PIXELS ==> d@[i] == 0,
    {
        Display { pixels: zero_pixels() }
    }

    /// Read-only view of the pixel grid, row-major.
    pub fn pixels(&self) -> (r: &Vec<u8>)
        ensures
            r@ == self@,
    {
        &self.pixels
    }

    /// Fill the whole grid with 0.
    pub fn clear(&mut self)
        ensures
            final(self).wf(),
            forall|i: int| 0 <= i < NUM_PIXELS ==> final(self)@[i] == 0,
    {
        self.pixels = zero_pixels();
    }

    /// XOR-draw the first `sprite_height` rows of `sprite` at `(x, y)` with
    /// toroidal wrap, and report whether any set sprite bit landed on an
    /// already-set pixel (the collision flag, 0 or 1). The caller owns
    /// writing the flag into VF and raising the redraw mark.
    pub fn draw(&mut self, x: usize, y: usize, sprite_height: usize, sprite: &[u8]) -> (collide:
        u8)
        requires
            old(self).wf(),
            sprite_height <= sprite@.len(),
            sprite_height <= 15,
            x <= 0xFFFF,
            y <= 0xFFFF,
        ensures
            final(self).wf(),
            final(self)@ == draw_spec(
                old(self)@,
                x as int,
                y as int,
                sprite_height as int,
                sprite@,
            ),
            collide == (if draw_collides(
                old(self)@,
                x as int,
                y as int,
                sprite_height as int,
                sprite@,
            ) {
                1u8
            } else {
                0u8
            }),
    {
        let ghost fb0 = self.pixels@;
        let mut collide: u8 = 0;
        let mut row: usize = 0;
        while row < sprite_height
            invariant
                old(self).wf(),
                fb0 == old(self)@,
                row <= sprite_height,
                sprite_height <= sprite@.len(),
                sprite_height <= 15,
                x <= 0xFFFF,
                y <= 0xFFFF,
                self.pixels@.len() == NUM_PIXELS,
                forall|i: int|
                    0 <= i < NUM_PIXELS ==> self.pixels@[i] == ({
                        let c = (i % 64 - x as int) % 64;
                        let r = (i / 64 - y as int) % 32;
                        if c < 8 && r < row {
                            fb0[i] ^ sprite_bit(sprite@[r], c)
                        } else {
                            fb0[i]
                        }
                    }),
                collide == 0 || collide == 1,
                (collide == 1) == (exists|r: int, c: int|
                    #![auto]
                    0 <= r < row && 0 <= c < 8 && fb0[px(
                        (x as int + c) % 64,
                        (y as int + r) % 32,
                    )] == 1 && sprite_bit(sprite@[r], c) == 1),
            decreases sprite_height - row,
        {
            let byte = sprite[row];
            let mut col: usize = 0;
            while col < 8
                invariant
                    old(self).wf(),
                    fb0 == old(self)@,
                    row < sprite_height,
                    col <= 8,
                    sprite_height <= sprite@.len(),
                    sprite_height <= 15,
                    x <= 0xFFFF,
                    y <= 0xFFFF,
                    byte == sprite@[row as int],
                    self.pixels@.len() == NUM_PIXELS,
                    forall|i: int|
                        0 <= i < NUM_PIXELS ==> self.pixels@[i] == ({
                            let c = (i % 64 - x as int) % 64;
                            let r = (i / 64 - y as int) % 32;
                            if c < 8 && (r < row || (r == row && c < col)) {
                                fb0[i] ^ sprite_bit(sprite@[r], c)
                            } else {
                                fb0[i]
                            }
                        }),
                    collide == 0 || collide == 1,
                    (collide == 1) == (exists|r: int, c: int|
                        #![auto]
                        0 <= r && 0 <= c < 8 && (r < row || (r == row && c < col)) && fb0[px(
                            (x as int + c) % 64,
                            (y as int + r) % 32,
                        )] == 1 && sprite_bit(sprite@[r], c) == 1),
                decreases 8 - col,
            {
                let vx_w = (x + col) % DISPLAY_WIDTH;
                let vy_w = (y + row) % DISPLAY_HEIGHT;
                let i = DISPLAY_WIDTH * vy_w + vx_w;
                let bit = (byte >> ((7 - col) as u8)) & 1;
                proof {
                    lemma_mod_bound(x as int + col as int, 64);
                    lemma_mod_bound(y as int + row as int, 32);
                    lemma_fundamental_div_mod_converse(i as int, 64, vy_w as int, vx_w as int);
                    lemma_wrap_round(x as int, col as int, 64);
                    lemma_wrap_round(y as int, row as int, 32);
                    let sh = (7 - col) as u8;
                    assert((byte >> sh) & 1 == 0 || (byte >> sh) & 1 == 1) by (bit_vector);
                    assert(bit == sprite_bit(sprite@[row as int], col as int));
                    // The pixel this sprite bit lands on has not been touched
                    // yet in this draw.
                    assert(((i as int % 64 - x as int) % 64) == col as int);
                    assert(((i as int / 64 - y as int) % 32) == row as int);
                    assert(self.pixels@[i as int] == fb0[i as int]);
                }
                let p = self.pixels[i];
                if p == 1 && bit == 1 {
                    collide = 1;
                }
                let ghost prev = self.pixels@;
                self.pixels[i] = p ^ bit;
                proof {
                    assert forall|j: int| 0 <= j < NUM_PIXELS implies self.pixels@[j] == ({
                        let c = (j % 64 - x as int) % 64;
                        let r = (j / 64 - y as int) % 32;
                        if c < 8 && (r < row || (r == row && c < col + 1)) {
                            fb0[j] ^ sprite_bit(sprite@[r], c)
                        } else {
                            fb0[j]
                        }
                    }) by {
                        let c = (j % 64 - x as int) % 64;
                        let r = (j / 64 - y as int) % 32;
                        if j == i as int {
                            assert(self.pixels@[j] == fb0[j] ^ sprite_bit(sprite@[r], c));
                        } else {
                            lemma_mod_bound(j, 64);
                            lemma_mod_bound(j % 64 - x as int, 64);
                            lemma_mod_bound(j / 64 - y as int, 32);
                            if c == col as int && r == row as int {
                                // Then j addresses the same wrapped pixel as
                                // (row, col), which is i: contradiction.
                                lemma_wrap_unique(x as int, j % 64, i as int % 64, 64);
                                lemma_wrap_unique(y as int, j / 64, i as int / 64, 32);
                                lemma_fundamental_div_mod(j, 64);
                                lemma_fundamental_div_mod(i as int, 64);
                                assert(false);
                            }
                            assert(self.pixels@[j] == prev[j]);
                        }
                    }
                    if p == 1 && bit == 1 {
                        assert(fb0[px((x as int + col as int) % 64, (y as int + row as int) % 32)]
                            == 1 && sprite_bit(sprite@[row as int], col as int) == 1);
                    } else {
                        assert((collide == 1) == (exists|r: int, c: int|
                            #![auto]
                            0 <= r && 0 <= c < 8 && (r < row || (r == row && c < col + 1)) && fb0[px(
                                (x as int + c) % 64,
                                (y as int + r) % 32,
                            )] == 1 && sprite_bit(sprite@[r], c) == 1)) by {
                            if exists|r: int, c: int|
                                #![auto]
                                0 <= r && 0 <= c < 8 && (r < row || (r == row && c < col + 1))
                                    && fb0[px((x as int + c) % 64, (y as int + r) % 32)] == 1
                                    && sprite_bit(sprite@[r], c) == 1 {
                                let (r, c) = choose|r: int, c: int|
                                    #![auto]
                                    0 <= r && 0 <= c < 8 && (r < row || (r == row && c < col + 1))
                                        && fb0[px((x as int + c) % 64, (y as int + r) % 32)] == 1
                                        && sprite_bit(sprite@[r], c) == 1;
                                if r == row as int && c == col as int {
                                    assert(fb0[i as int] == 1 && bit == 1);
                                    assert(false);
                                }
                            }
                        }
                    }
                }
                col += 1;
            }
            row += 1;
        }
        proof {
            assert(self.pixels@ =~= draw_spec(
                fb0,
                x as int,
                y as int,
                sprite_height as int,
                sprite@,
            )) by {
                assert forall|i: int| 0 <= i < NUM_PIXELS implies self.pixels@[i] == draw_spec(
                    fb0,
                    x as int,
                    y as int,
                    sprite_height as int,
                    sprite@,
                )[i] by {
                    lemma_mod_bound(i % 64 - x as int, 64);
                    lemma_mod_bound(i / 64 - y as int, 32);
                }
            }
            assert forall|i: int| 0 <= i < NUM_PIXELS implies (self.pixels@[i] == 0
                || self.pixels@[i] == 1) by {
                let a = fb0[i];
                let c = (i % 64 - x as int) % 64;
                let r = (i / 64 - y as int) % 32;
                lemma_mod_bound(i % 64 - x as int, 64);
                lemma_mod_bound(i / 64 - y as int, 32);
                if 0 <= r < sprite_height && 0 <= c < 8 {
                    let byte = sprite@[r];
                    let sh = (7 - c) as u8;
                    assert((byte >> sh) & 1 == 0 || (byte >> sh) & 1 == 1) by (bit_vector);
                    let b = sprite_bit(sprite@[r], c);
                    assert(a == 0 || a == 1 ==> ((a ^ b) == 0 || (a ^ b) == 1)) by (bit_vector)
                        requires
                            b == 0 || b == 1,
                    ;
                }
            }
        }
        collide
    }
}

/// A fresh all-zero pixel grid.
fn zero_pixels() -> (v: Vec<u8>)
    ensures
        v@.len() == NUM_PIXELS,
        forall|i: int| 0 <= i < NUM_PIXELS ==> v@[i] == 0,
{
    let mut v: Vec<u8> = Vec::new();
    let mut n: usize = 0;
    while n < NUM_PIXELS
        invariant
            n <= NUM_PIXELS,
            v@.len() == n,
            forall|i: int| 0 <= i < n ==> v@[i] == 0u8,
        decreases NUM_PIXELS - n,
    {
        v.push(0u8);
        n += 1;
    }
    v
}

} // verus!
