use vstd::prelude::*;
use crate::layout::{RIP8_DISPLAY_HEIGHT, RIP8_DISPLAY_SIZE, RIP8_DISPLAY_WIDTH};

verus! {

/// The pixel at column `x`, row `y` of a packed framebuffer: bit `7 - x % 8`
/// of byte `8 * y + x / 8`.
pub open spec fn pixel(display: Seq<u8>, x: int, y: int) -> bool {
    (display[8 * y + x / 8] >> ((7 - x % 8) as u8)) & 1u8 == 1u8
}

/// The XOR mask that sprite byte `s`, drawn at column `x0`, lays on byte
/// column `c` (0 to 7) of its framebuffer row: the byte holding column `x0`
/// takes `s` shifted right by `x0 % 8`, the next byte of the same row takes
/// the bits that spill over, and nothing wraps to the next row.
pub open spec fn row_mask(s: u8, x0: int, c: int) -> u8 {
    let shift = (x0 % 8) as u8;
    if c == x0 / 8 {
        s >> shift
    } else if c == x0 / 8 + 1 && shift != 0 {
        s << ((8 - shift) as u8)
    } else {
        0
    }
}

/// The XOR mask that the first `count` rows of a sprite, drawn at `(x0, y0)`,
/// lay on framebuffer byte `b`. Rows below the display and sprites that start
/// right of it are clipped.
pub open spec fn draw_mask(rows: Seq<u8>, count: int, x0: int, y0: int, b: int) -> u8 {
    let y = b / 8;
    if x0 < RIP8_DISPLAY_WIDTH && y0 <= y < y0 + count {
        row_mask(rows[y - y0], x0, b % 8)
    } else {
        0
    }
}

/// The framebuffer after the first `count` rows of a sprite are XOR-drawn at
/// `(x0, y0)`.
pub open spec fn drawn(display: Seq<u8>, rows: Seq<u8>, count: int, x0: int, y0: int) -> Seq<u8> {
    Seq::new(display.len(), |b: int| display[b] ^ draw_mask(rows, count, x0, y0, b))
}

/// Drawing the first `count` rows of a sprite at `(x0, y0)` turns off a pixel
/// that was on.
pub open spec fn collides(display: Seq<u8>, rows: Seq<u8>, count: int, x0: int, y0: int) -> bool {
    exists|b: int|
        0 <= b < display.len() && #[trigger] (display[b] & draw_mask(rows, count, x0, y0, b))
            != 0
}

proof fn lemma_zero_mask(a: u8)
    ensures
        a ^ 0u8 == a,
        a & 0u8 == 0u8,
{
    assert(a ^ 0u8 == a) by (bit_vector);
    assert(a & 0u8 == 0u8) by (bit_vector);
}

proof fn lemma_byte_position(y: int, c: int)
    requires
        0 <= c < 8,
    ensures
        (8 * y + c) / 8 == y,
        (8 * y + c) % 8 == c,
{
    assert((8 * y + c) / 8 == y) by (nonlinear_arith)
        requires
            0 <= c < 8,
    ;
    assert((8 * y + c) % 8 == c) by (nonlinear_arith)
        requires
            0 <= c < 8,
    ;
}

/// Reads the pixel at `(x, y)` of a packed framebuffer; off outside the display.
pub fn display_spot(display: &Vec<u8>, x: usize, y: usize) -> (r: bool)
    requires
        display@.len() == RIP8_DISPLAY_SIZE,
    ensures
        r == (x < RIP8_DISPLAY_WIDTH && y < RIP8_DISPLAY_HEIGHT && pixel(
            display@,
            x as int,
            y as int,
        )),
{
    if x < RIP8_DISPLAY_WIDTH && y < RIP8_DISPLAY_HEIGHT {
        let byte_offset = y * 8 + x / 8;
        let bit_offset = (x % 8) as u8;
        ((display[byte_offset] >> (7 - bit_offset)) & 1) == 1
    } else {
        false
    }
}

/// XOR-draws the `n` sprite rows at `memory[start..start + n]` with their top
/// left corner at `(x0, y0)`, and tells whether a pixel that was on went off.
pub fn draw_sprite(
    display: &mut Vec<u8>,
    memory: &Vec<u8>,
    start: usize,
    n: usize,
    x0: usize,
    y0: usize,
) -> (collision: bool)
    requires
        old(display)@.len() == RIP8_DISPLAY_SIZE,
        start + n <= memory.len(),
        n < 0x10,
        x0 < 0x100,
        y0 < 0x100,
    ensures
        final(display)@ == drawn(
            old(display)@,
            memory@.subrange(start as int, start + n),
            n as int,
            x0 as int,
            y0 as int,
        ),
        collision == collides(
            old(display)@,
            memory@.subrange(start as int, start + n),
            n as int,
            x0 as int,
            y0 as int,
        ),
{
    let ghost d0 = display@;
    let ghost rows = memory@.subrange(start as int, start + n);
    let mut collision = false;
    let mut r: usize = 0;
    proof {
        assert forall|b: int| 0 <= b < d0.len() implies d0[b] ^ draw_mask(
            rows,
            0,
            x0 as int,
            y0 as int,
            b,
        ) == d0[b] && d0[b] & draw_mask(rows, 0, x0 as int, y0 as int, b) == 0 by {
            lemma_zero_mask(d0[b]);
        }
        assert(display@ =~= drawn(d0, rows, 0, x0 as int, y0 as int));
    }
    while r < n
        invariant
            0 <= r <= n,
            n < 0x10,
            x0 < 0x100,
            y0 < 0x100,
            start + n <= memory.len(),
            rows == memory@.subrange(start as int, start + n),
            d0.len() == RIP8_DISPLAY_SIZE,
            display@ == drawn(d0, rows, r as int, x0 as int, y0 as int),
            collision == collides(d0, rows, r as int, x0 as int, y0 as int),
        decreases n - r,
    {
        let ghost before = display@;
        let y = y0 + r;
        if x0 < RIP8_DISPLAY_WIDTH && y < RIP8_DISPLAY_HEIGHT {
            let s = memory[start + r];
            let column = x0 / 8;
            let byte_offset = y * 8 + column;
            let shift = (x0 % 8) as u8;
            proof {
                lemma_byte_position(y as int, column as int);
            }
            let first = s >> shift;
            let hit_first = (display[byte_offset] & first) != 0;
            let updated = display[byte_offset] ^ first;
            display.set(byte_offset, updated);
            let mut hit_second = false;
            if column < 7 && shift != 0 {
                proof {
                    lemma_byte_position(y as int, column + 1);
                }
                let second = s << (8 - shift);
                hit_second = (display[byte_offset + 1] & second) != 0;
                let updated = display[byte_offset + 1] ^ second;
                display.set(byte_offset + 1, updated);
            }
            collision = collision || hit_first || hit_second;
            proof {
                let next = r + 1;
                assert forall|b: int| 0 <= b < d0.len() implies display@[b] == d0[b] ^ draw_mask(
                    rows,
                    next as int,
                    x0 as int,
                    y0 as int,
                    b,
                ) by {
                    if b / 8 != y {
                        assert(draw_mask(rows, next as int, x0 as int, y0 as int, b) == draw_mask(
                            rows,
                            r as int,
                            x0 as int,
                            y0 as int,
                            b,
                        ));
                    } else {
                        assert(draw_mask(rows, r as int, x0 as int, y0 as int, b) == 0);
                        assert(rows[y - y0] == s);
                        let zero = d0[b];
                        assert(zero ^ 0u8 == zero) by (bit_vector);
                    }
                }
                assert(display@ =~= drawn(d0, rows, next as int, x0 as int, y0 as int));
                // collision bookkeeping
                let cnew = collides(d0, rows, next as int, x0 as int, y0 as int);
                let cold = collides(d0, rows, r as int, x0 as int, y0 as int);
                if cold {
                    let b = choose|b: int|
                        0 <= b < d0.len() && #[trigger] (d0[b] & draw_mask(
                            rows,
                            r as int,
                            x0 as int,
                            y0 as int,
                            b,
                        )) != 0;
                    lemma_zero_mask(d0[b]);
                    assert(draw_mask(rows, next as int, x0 as int, y0 as int, b) == draw_mask(
                        rows,
                        r as int,
                        x0 as int,
                        y0 as int,
                        b,
                    ));
                    assert(cnew);
                }
                if hit_first {
                    lemma_zero_mask(d0[byte_offset as int]);
                    assert(d0[byte_offset as int] == before[byte_offset as int]);
                    assert(draw_mask(rows, next as int, x0 as int, y0 as int, byte_offset as int)
                        == first);
                    assert(cnew);
                }
                if hit_second {
                    let b2 = byte_offset + 1;
                    lemma_zero_mask(d0[b2 as int]);
                    assert(d0[b2 as int] == before[b2 as int]);
                    assert(draw_mask(rows, next as int, x0 as int, y0 as int, b2 as int)
                        == s << ((8 - shift) as u8));
                    assert(cnew);
                }
                if cnew {
                    let b = choose|b: int|
                        0 <= b < d0.len() && #[trigger] (d0[b] & draw_mask(
                            rows,
                            next as int,
                            x0 as int,
                            y0 as int,
                            b,
                        )) != 0;
                    if b / 8 != y {
                        assert(draw_mask(rows, next as int, x0 as int, y0 as int, b) == draw_mask(
                            rows,
                            r as int,
                            x0 as int,
                            y0 as int,
                            b,
                        ));
                        assert(cold);
                    } else {
                        let zero = d0[b];
                        assert(zero & 0u8 == 0) by (bit_vector);
                        assert(draw_mask(rows, r as int, x0 as int, y0 as int, b) == 0);
                        lemma_zero_mask(d0[byte_offset as int]);
                        if b == byte_offset {
                            assert(before[byte_offset as int] == d0[byte_offset as int]);
                            assert(hit_first);
                        } else {
                            assert(b == byte_offset + 1 && column < 7 && shift != 0);
                            lemma_zero_mask(d0[b]);
                            assert(before[b] == d0[b]);
                            assert(hit_second);
                        }
                    }
                }
                assert(cnew == collision);
            }
        } else {
            proof {
                assert forall|b: int|
                    0 <= b < d0.len() implies #[trigger] draw_mask(
                    rows,
                    r + 1,
                    x0 as int,
                    y0 as int,
                    b,
                ) == draw_mask(rows, r as int, x0 as int, y0 as int, b) by {}
                assert(display@ =~= drawn(d0, rows, r + 1, x0 as int, y0 as int));
                let cnew = collides(d0, rows, r + 1, x0 as int, y0 as int);
                let cold = collides(d0, rows, r as int, x0 as int, y0 as int);
                if cnew {
                    let b = choose|b: int|
                        0 <= b < d0.len() && #[trigger] (d0[b] & draw_mask(
                            rows,
                            r + 1,
                            x0 as int,
                            y0 as int,
                            b,
                        )) != 0;
                    assert(draw_mask(rows, r + 1, x0 as int, y0 as int, b) == draw_mask(
                        rows,
                        r as int,
                        x0 as int,
                        y0 as int,
                        b,
                    ));
                }
                if cold {
                    let b = choose|b: int|
                        0 <= b < d0.len() && #[trigger] (d0[b] & draw_mask(
                            rows,
                            r as int,
                            x0 as int,
                            y0 as int,
                            b,
                        )) != 0;
                    assert(draw_mask(rows, r + 1, x0 as int, y0 as int, b) == draw_mask(
                        rows,
                        r as int,
                        x0 as int,
                        y0 as int,
                        b,
                    ));
                }
            }
        }
        r += 1;
    }
    collision
}

/// The sprite whose first `count` rows are drawn at `(x0, y0)` has a set bit
/// over pixel `(x, y)`: bit `7 - (x - x0)` of row `y - y0`. A sprite that
/// starts right of the display covers nothing.
pub open spec fn sprite_bit(rows: Seq<u8>, count: int, x0: int, y0: int, x: int, y: int) -> bool {
    &&& x0 < RIP8_DISPLAY_WIDTH
    &&& x0 <= x < x0 + 8
    &&& y0 <= y < y0 + count
    &&& (rows[y - y0] >> ((7 - (x - x0)) as u8)) & 1u8 == 1u8
}

proof fn lemma_bit_of_first_byte(d: u8, s: u8, sh: u8, j: u8)
    requires
        sh < 8,
        j < 8,
    ensures
        (((d ^ (s >> sh)) >> ((7 - j) as u8)) & 1u8 == 1u8) == (((d >> ((7 - j) as u8)) & 1u8
            == 1u8) != (j >= sh && (s >> ((7 - j + sh) as u8)) & 1u8 == 1u8)),
{
    assert((((d ^ (s >> sh)) >> ((7 - j) as u8)) & 1u8 == 1u8) == (((d >> ((7 - j) as u8)) & 1u8
        == 1u8) != (j >= sh && (s >> ((7 - j + sh) as u8)) & 1u8 == 1u8))) by (bit_vector)
        requires
            sh < 8,
            j < 8,
    ;
}

proof fn lemma_bit_of_second_byte(d: u8, s: u8, sh: u8, j: u8)
    requires
        0 < sh < 8,
        j < 8,
    ensures
        (((d ^ (s << ((8 - sh) as u8))) >> ((7 - j) as u8)) & 1u8 == 1u8) == (((d >> ((7
            - j) as u8)) & 1u8 == 1u8) != (j < sh && (s >> ((sh - 1 - j) as u8)) & 1u8 == 1u8)),
{
    assert((((d ^ (s << ((8 - sh) as u8))) >> ((7 - j) as u8)) & 1u8 == 1u8) == (((d >> ((7
        - j) as u8)) & 1u8 == 1u8) != (j < sh && (s >> ((sh - 1 - j) as u8)) & 1u8 == 1u8)))
        by (bit_vector)
        requires
            0 < sh < 8,
            j < 8,
    ;
}

proof fn lemma_bit_of_untouched_byte(d: u8, j: u8)
    requires
        j < 8,
    ensures
        (((d ^ 0u8) >> ((7 - j) as u8)) & 1u8 == 1u8) == ((d >> ((7 - j) as u8)) & 1u8 == 1u8),
{
    assert((((d ^ 0u8) >> ((7 - j) as u8)) & 1u8 == 1u8) == ((d >> ((7 - j) as u8)) & 1u8
        == 1u8)) by (bit_vector)
        requires
            j < 8,
    ;
}

/// Drawing a sprite toggles exactly the pixels under its set bits: each
/// pixel of the display is flipped if the sprite has a set bit over it, and
/// kept otherwise. Bits that would fall right of or below the display are
/// dropped, not wrapped.
pub proof fn lemma_drawn_pixels(
    display: Seq<u8>,
    rows: Seq<u8>,
    count: int,
    x0: int,
    y0: int,
    x: int,
    y: int,
)
    requires
        display.len() == RIP8_DISPLAY_SIZE,
        0 <= x < RIP8_DISPLAY_WIDTH,
        0 <= y < RIP8_DISPLAY_HEIGHT,
        0 <= x0,
    ensures
        pixel(drawn(display, rows, count, x0, y0), x, y) == (pixel(display, x, y) != sprite_bit(
            rows,
            count,
            x0,
            y0,
            x,
            y,
        )),
{
    let c = x / 8;
    let j = x % 8;
    let b = 8 * y + c;
    lemma_byte_position(y, c);
    let d = display[b];
    let mask = draw_mask(rows, count, x0, y0, b);
    assert(drawn(display, rows, count, x0, y0)[b] == d ^ mask);
    let c0 = x0 / 8;
    let sh = x0 % 8;
    if x0 < RIP8_DISPLAY_WIDTH && y0 <= y < y0 + count {
        let s = rows[y - y0];
        if c == c0 {
            lemma_bit_of_first_byte(d, s, sh as u8, j as u8);
        } else if c == c0 + 1 && sh != 0 {
            lemma_bit_of_second_byte(d, s, sh as u8, j as u8);
        } else {
            lemma_bit_of_untouched_byte(d, j as u8);
        }
    } else {
        lemma_bit_of_untouched_byte(d, j as u8);
    }
}

} // verus!
