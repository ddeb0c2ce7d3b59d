use vstd::prelude::*;

verus! {

/// Bytes of addressable memory.
pub const RIP8_MEMORY_SIZE: usize = 0x1000;

/// Conventional load and start address of a program.
pub const RIP8_ROM_START: u16 = 0x200;

/// Bytes of call stack: each return address takes two, so 32 entries.
pub const RIP8_STACK_MAX_SIZE: usize = 0x40;

/// Width of the display in pixels.
pub const RIP8_DISPLAY_WIDTH: usize = 64;

/// Height of the display in pixels.
pub const RIP8_DISPLAY_HEIGHT: usize = 32;

/// Number of logical keys.
pub const RIP8_KEY_COUNT: usize = 0x10;

/// Number of general registers, V0 to VF.
pub const RIP8_REGISTER_COUNT: usize = 0x10;

/// Bytes of packed framebuffer, eight pixels to a byte.
pub const RIP8_DISPLAY_SIZE: usize = RIP8_DISPLAY_WIDTH * RIP8_DISPLAY_HEIGHT / 8;

/// Bytes of the built-in font: 16 glyphs of 5 rows each, from address 0.
pub const RIP8_FONT_SIZE: usize = 0x10 * 5;

/// Index of the flag register VF.
pub const FLAG: usize = 0xf;

/// The byte that fills memory that neither the font nor a program occupies.
pub const FILLER: u8 = 0xff;

/// The built-in hexadecimal font, glyph `g` at bytes `5 * g .. 5 * g + 5`.
pub open spec fn font_glyphs() -> Seq<u8> {
    seq![
        0xf0u8, 0x90, 0x90, 0x90, 0xf0,
        0x20, 0x60, 0x20, 0x20, 0x70,
        0xf0, 0x10, 0xf0, 0x80, 0xf0,
        0xf0, 0x10, 0xf0, 0x10, 0xf0,
        0x90, 0x90, 0xf0, 0x10, 0x10,
        0xf0, 0x80, 0xf0, 0x10, 0xf0,
        0xf0, 0x80, 0xf0, 0x90, 0xf0,
        0xf0, 0x10, 0x20, 0x40, 0x40,
        0xf0, 0x90, 0xf0, 0x90, 0xf0,
        0xf0, 0x90, 0xf0, 0x10, 0xf0,
        0xf0, 0x90, 0xf0, 0x90, 0x90,
        0xe0, 0x90, 0xe0, 0x90, 0xe0,
        0xf0, 0x80, 0x80, 0x80, 0xf0,
        0xe0, 0x90, 0x90, 0x90, 0xe0,
        0xf0, 0x80, 0xf0, 0x80, 0xf0,
        0xf0, 0x80, 0xf0, 0x80, 0x80
    ]
}

/// The font as a vector.
pub fn font_data() -> (r: Vec<u8>)
    ensures
        r@ == font_glyphs(),
        r@.len() == RIP8_FONT_SIZE,
{
    let r: Vec<u8> = vec![
        0xf0, 0x90, 0x90, 0x90, 0xf0,
        0x20, 0x60, 0x20, 0x20, 0x70,
        0xf0, 0x10, 0xf0, 0x80, 0xf0,
        0xf0, 0x10, 0xf0, 0x10, 0xf0,
        0x90, 0x90, 0xf0, 0x10, 0x10,
        0xf0, 0x80, 0xf0, 0x10, 0xf0,
        0xf0, 0x80, 0xf0, 0x90, 0xf0,
        0xf0, 0x10, 0x20, 0x40, 0x40,
        0xf0, 0x90, 0xf0, 0x90, 0xf0,
        0xf0, 0x90, 0xf0, 0x10, 0xf0,
        0xf0, 0x90, 0xf0, 0x90, 0x90,
        0xe0, 0x90, 0xe0, 0x90, 0xe0,
        0xf0, 0x80, 0x80, 0x80, 0xf0,
        0xe0, 0x90, 0x90, 0x90, 0xe0,
        0xf0, 0x80, 0xf0, 0x80, 0xf0,
        0xf0, 0x80, 0xf0, 0x80, 0x80
    ];
    assert(r@ =~= font_glyphs());
    r
}

} // verus!
