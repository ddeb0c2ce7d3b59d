use vstd::prelude::*;

verus! {

/// One decoded instruction. Register operands `x` and `y` are indices below
/// 16; `addr` is a 12-bit address, `k` an immediate byte, `n` a row count
/// below 16.
#[derive(Clone, Copy, Debug, PartialEq, Eq, Structural)]
pub enum Instruction {
    /// `00E0`: clear the display.
    Cls,
    /// `00EE`: return from a subroutine.
    Ret,
    /// `1nnn`: jump to `addr`.
    Jp { addr: u16 },
    /// `2nnn`: call the subroutine at `addr`.
    Call { addr: u16 },
    /// `3xkk`: skip the next instruction if `Vx == k`.
    SeByte { x: usize, k: u8 },
    /// `4xkk`: skip the next instruction if `Vx != k`.
    SneByte { x: usize, k: u8 },
    /// `5xy0`: skip the next instruction if `Vx == Vy`.
    SeReg { x: usize, y: usize },
    /// `6xkk`: `Vx = k`.
    LdByte { x: usize, k: u8 },
    /// `7xkk`: `Vx = Vx + k`, wrapping, flag untouched.
    AddByte { x: usize, k: u8 },
    /// `8xy0`: `Vx = Vy`.
    LdReg { x: usize, y: usize },
    /// `8xy1`: `Vx = Vx | Vy`.
    Or { x: usize, y: usize },
    /// `8xy2`: `Vx = Vx & Vy`.
    And { x: usize, y: usize },
    /// `8xy3`: `Vx = Vx ^ Vy`.
    Xor { x: usize, y: usize },
    /// `8xy4`: `Vx = Vx + Vy`, `VF` = carry.
    AddReg { x: usize, y: usize },
    /// `8xy5`: `Vx = Vx - Vy`, `VF` = no borrow.
    Sub { x: usize, y: usize },
    /// `8xy6`: `Vx = Vy >> 1`, `VF` = low bit of `Vy`.
    Shr { x: usize, y: usize },
    /// `8xy7`: `Vx = Vy - Vx`, `VF` = no borrow.
    Subn { x: usize, y: usize },
    /// `8xyE`: `Vx = Vy << 1`, `VF` = high bit of `Vy`.
    Shl { x: usize, y: usize },
    /// `9xy0`: skip the next instruction if `Vx != Vy`.
    SneReg { x: usize, y: usize },
    /// `Annn`: `I = addr`.
    LdI { addr: u16 },
    /// `Bnnn`: jump to `addr + V0`.
    JpV0 { addr: u16 },
    /// `Cxkk`: `Vx` = a random byte `& k`.
    Rnd { x: usize, k: u8 },
    /// `Dxyn`: draw `n` sprite rows from memory at `I` at `(Vx, Vy)`.
    Drw { x: usize, y: usize, n: u8 },
    /// `Ex9E`: skip the next instruction if the key `Vx` is down.
    Skp { x: usize },
    /// `ExA1`: skip the next instruction if the key `Vx` is up.
    Sknp { x: usize },
    /// `Fx07`: `Vx` = delay timer.
    LdVxDt { x: usize },
    /// `Fx0A`: block until a key is released, and put it in `Vx`.
    WaitKey { x: usize },
    /// `Fx15`: delay timer = `Vx`.
    LdDtVx { x: usize },
    /// `Fx18`: sound timer = `Vx`.
    LdStVx { x: usize },
    /// `Fx1E`: `I = I + Vx`, wrapping at 16 bits.
    AddI { x: usize },
    /// `Fx29`: `I` = address of the font glyph for the low nibble of `Vx`.
    LdFont { x: usize },
    /// `Fx33`: store the decimal digits of `Vx` at `I`, `I + 1`, `I + 2`.
    Bcd { x: usize },
    /// `Fx55`: store `V0..=Vx` from `I` on; `I` moves past them.
    StoreRegs { x: usize },
    /// `Fx65`: load `V0..=Vx` from `I` on; `I` moves past them.
    LoadRegs { x: usize },
}

/// Bits 8 to 11 of an instruction word.
pub open spec fn field_x(ir: u16) -> usize {
    ((ir / 0x100) % 0x10) as usize
}

/// Bits 4 to 7 of an instruction word.
pub open spec fn field_y(ir: u16) -> usize {
    ((ir / 0x10) % 0x10) as usize
}

/// The low byte of an instruction word.
pub open spec fn field_k(ir: u16) -> u8 {
    (ir % 0x100) as u8
}

/// The low 12 bits of an instruction word.
pub open spec fn field_addr(ir: u16) -> u16 {
    (ir % 0x1000) as u16
}

/// The low 4 bits of an instruction word.
pub open spec fn field_n(ir: u16) -> u8 {
    (ir % 0x10) as u8
}

/// The instruction that a word encodes, or `None` for a word that encodes none.
/// The high nibble selects the group; within a group the low nibble or the
/// low byte selects the operation.
pub open spec fn decode_spec(ir: u16) -> Option<Instruction> {
    let x = field_x(ir);
    let y = field_y(ir);
    let k = field_k(ir);
    let addr = field_addr(ir);
    let n = field_n(ir);
    let op = ir / 0x1000;
    if ir == 0x00e0 {
        Some(Instruction::Cls)
    } else if ir == 0x00ee {
        Some(Instruction::Ret)
    } else if op == 0x1 {
        Some(Instruction::Jp { addr })
    } else if op == 0x2 {
        Some(Instruction::Call { addr })
    } else if op == 0x3 {
        Some(Instruction::SeByte { x, k })
    } else if op == 0x4 {
        Some(Instruction::SneByte { x, k })
    } else if op == 0x5 && n == 0x0 {
        Some(Instruction::SeReg { x, y })
    } else if op == 0x6 {
        Some(Instruction::LdByte { x, k })
    } else if op == 0x7 {
        Some(Instruction::AddByte { x, k })
    } else if op == 0x8 && n == 0x0 {
        Some(Instruction::LdReg { x, y })
    } else if op == 0x8 && n == 0x1 {
        Some(Instruction::Or { x, y })
    } else if op == 0x8 && n == 0x2 {
        Some(Instruction::And { x, y })
    } else if op == 0x8 && n == 0x3 {
        Some(Instruction::Xor { x, y })
    } else if op == 0x8 && n == 0x4 {
        Some(Instruction::AddReg { x, y })
    } else if op == 0x8 && n == 0x5 {
        Some(Instruction::Sub { x, y })
    } else if op == 0x8 && n == 0x6 {
        Some(Instruction::Shr { x, y })
    } else if op == 0x8 && n == 0x7 {
        Some(Instruction::Subn { x, y })
    } else if op == 0x8 && n == 0xe {
        Some(Instruction::Shl { x, y })
    } else if op == 0x9 && n == 0x0 {
        Some(Instruction::SneReg { x, y })
    } else if op == 0xa {
        Some(Instruction::LdI { addr })
    } else if op == 0xb {
        Some(Instruction::JpV0 { addr })
    } else if op == 0xc {
        Some(Instruction::Rnd { x, k })
    } else if op == 0xd {
        Some(Instruction::Drw { x, y, n })
    } else if op == 0xe && k == 0x9e {
        Some(Instruction::Skp { x })
    } else if op == 0xe && k == 0xa1 {
        Some(Instruction::Sknp { x })
    } else if op == 0xf && k == 0x07 {
        Some(Instruction::LdVxDt { x })
    } else if op == 0xf && k == 0x0a {
        Some(Instruction::WaitKey { x })
    } else if op == 0xf && k == 0x15 {
        Some(Instruction::LdDtVx { x })
    } else if op == 0xf && k == 0x18 {
        Some(Instruction::LdStVx { x })
    } else if op == 0xf && k == 0x1e {
        Some(Instruction::AddI { x })
    } else if op == 0xf && k == 0x29 {
        Some(Instruction::LdFont { x })
    } else if op == 0xf && k == 0x33 {
        Some(Instruction::Bcd { x })
    } else if op == 0xf && k == 0x55 {
        Some(Instruction::StoreRegs { x })
    } else if op == 0xf && k == 0x65 {
        Some(Instruction::LoadRegs { x })
    } else {
        None
    }
}

/// The operands of a decoded instruction are in range.
pub open spec fn operands_in_range(ins: Instruction) -> bool {
    match ins {
        Instruction::Cls | Instruction::Ret => true,
        Instruction::Jp { addr } | Instruction::Call { addr } | Instruction::LdI { addr }
        | Instruction::JpV0 { addr } => addr < 0x1000,
        Instruction::SeByte { x, .. } | Instruction::SneByte { x, .. } | Instruction::LdByte {
            x,
            ..
        } | Instruction::AddByte { x, .. } | Instruction::Rnd { x, .. } => x < 0x10,
        Instruction::SeReg { x, y } | Instruction::LdReg { x, y } | Instruction::Or { x, y }
        | Instruction::And { x, y } | Instruction::Xor { x, y } | Instruction::AddReg { x, y }
        | Instruction::Sub { x, y } | Instruction::Shr { x, y } | Instruction::Subn { x, y }
        | Instruction::Shl { x, y } | Instruction::SneReg { x, y } => x < 0x10 && y < 0x10,
        Instruction::Drw { x, y, n } => x < 0x10 && y < 0x10 && n < 0x10,
        Instruction::Skp { x } | Instruction::Sknp { x } | Instruction::LdVxDt { x }
        | Instruction::WaitKey { x } | Instruction::LdDtVx { x } | Instruction::LdStVx { x }
        | Instruction::AddI { x } | Instruction::LdFont { x } | Instruction::Bcd { x }
        | Instruction::StoreRegs { x } | Instruction::LoadRegs { x } => x < 0x10,
    }
}

/// Every decoded instruction has its operands in range.
pub proof fn lemma_decoded_operands_in_range(ir: u16)
    ensures
        decode_spec(ir) matches Some(ins) ==> operands_in_range(ins),
{
}

/// Decodes an instruction word.
pub fn decode(ir: u16) -> (r: Option<Instruction>)
    ensures
        r == decode_spec(ir),
        r matches Some(ins) ==> operands_in_range(ins),
{
    let x: usize = ((ir / 0x100) % 0x10) as usize;
    let y: usize = ((ir / 0x10) % 0x10) as usize;
    let k: u8 = (ir % 0x100) as u8;
    let addr: u16 = ir % 0x1000;
    let n: u8 = (ir % 0x10) as u8;
    let op: u16 = ir / 0x1000;
    if ir == 0x00e0 {
        Some(Instruction::Cls)
    } else if ir == 0x00ee {
        Some(Instruction::Ret)
    } else if op == 0x1 {
        Some(Instruction::Jp { addr })
    } else if op == 0x2 {
        Some(Instruction::Call { addr })
    } else if op == 0x3 {
        Some(Instruction::SeByte { x, k })
    } else if op == 0x4 {
        Some(Instruction::SneByte { x, k })
    } else if op == 0x5 && n == 0x0 {
        Some(Instruction::SeReg { x, y })
    } else if op == 0x6 {
        Some(Instruction::LdByte { x, k })
    } else if op == 0x7 {
        Some(Instruction::AddByte { x, k })
    } else if op == 0x8 && n == 0x0 {
        Some(Instruction::LdReg { x, y })
    } else if op == 0x8 && n == 0x1 {
        Some(Instruction::Or { x, y })
    } else if op == 0x8 && n == 0x2 {
        Some(Instruction::And { x, y })
    } else if op == 0x8 && n == 0x3 {
        Some(Instruction::Xor { x, y })
    } else if op == 0x8 && n == 0x4 {
        Some(Instruction::AddReg { x, y })
    } else if op == 0x8 && n == 0x5 {
        Some(Instruction::Sub { x, y })
    } else if op == 0x8 && n == 0x6 {
        Some(Instruction::Shr { x, y })
    } else if op == 0x8 && n == 0x7 {
        Some(Instruction::Subn { x, y })
    } else if op == 0x8 && n == 0xe {
        Some(Instruction::Shl { x, y })
    } else if op == 0x9 && n == 0x0 {
        Some(Instruction::SneReg { x, y })
    } else if op == 0xa {
        Some(Instruction::LdI { addr })
    } else if op == 0xb {
        Some(Instruction::JpV0 { addr })
    } else if op == 0xc {
        Some(Instruction::Rnd { x, k })
    } else if op == 0xd {
        Some(Instruction::Drw { x, y, n })
    } else if op == 0xe && k == 0x9e {
        Some(Instruction::Skp { x })
    } else if op == 0xe && k == 0xa1 {
        Some(Instruction::Sknp { x })
    } else if op == 0xf && k == 0x07 {
        Some(Instruction::LdVxDt { x })
    } else if op == 0xf && k == 0x0a {
        Some(Instruction::WaitKey { x })
    } else if op == 0xf && k == 0x15 {
        Some(Instruction::LdDtVx { x })
    } else if op == 0xf && k == 0x18 {
        Some(Instruction::LdStVx { x })
    } else if op == 0xf && k == 0x1e {
        Some(Instruction::AddI { x })
    } else if op == 0xf && k == 0x29 {
        Some(Instruction::LdFont { x })
    } else if op == 0xf && k == 0x33 {
        Some(Instruction::Bcd { x })
    } else if op == 0xf && k == 0x55 {
        Some(Instruction::StoreRegs { x })
    } else if op == 0xf && k == 0x65 {
        Some(Instruction::LoadRegs { x })
    } else {
        None
    }
}

/// The instruction a word encodes, read off the canonical table of
/// (mask, value) pairs: the word encodes the first entry whose value equals
/// the word masked. Fields are taken by mask and shift.
pub open spec fn decode_by_masks(ir: u16) -> Option<Instruction> {
    let x = ((ir & 0x0f00) >> 8u16) as usize;
    let y = ((ir & 0x00f0) >> 4u16) as usize;
    let k = (ir & 0x00ff) as u8;
    let addr = ir & 0x0fff;
    let n = (ir & 0x000f) as u8;
    if ir & 0xffff == 0x00e0 {
        Some(Instruction::Cls)
    } else if ir & 0xffff == 0x00ee {
        Some(Instruction::Ret)
    } else if ir & 0xf000 == 0x1000 {
        Some(Instruction::Jp { addr })
    } else if ir & 0xf000 == 0x2000 {
        Some(Instruction::Call { addr })
    } else if ir & 0xf000 == 0x3000 {
        Some(Instruction::SeByte { x, k })
    } else if ir & 0xf000 == 0x4000 {
        Some(Instruction::SneByte { x, k })
    } else if ir & 0xf00f == 0x5000 {
        Some(Instruction::SeReg { x, y })
    } else if ir & 0xf000 == 0x6000 {
        Some(Instruction::LdByte { x, k })
    } else if ir & 0xf000 == 0x7000 {
        Some(Instruction::AddByte { x, k })
    } else if ir & 0xf00f == 0x8000 {
        Some(Instruction::LdReg { x, y })
    } else if ir & 0xf00f == 0x8001 {
        Some(Instruction::Or { x, y })
    } else if ir & 0xf00f == 0x8002 {
        Some(Instruction::And { x, y })
    } else if ir & 0xf00f == 0x8003 {
        Some(Instruction::Xor { x, y })
    } else if ir & 0xf00f == 0x8004 {
        Some(Instruction::AddReg { x, y })
    } else if ir & 0xf00f == 0x8005 {
        Some(Instruction::Sub { x, y })
    } else if ir & 0xf00f == 0x8006 {
        Some(Instruction::Shr { x, y })
    } else if ir & 0xf00f == 0x8007 {
        Some(Instruction::Subn { x, y })
    } else if ir & 0xf00f == 0x800e {
        Some(Instruction::Shl { x, y })
    } else if ir & 0xf00f == 0x9000 {
        Some(Instruction::SneReg { x, y })
    } else if ir & 0xf000 == 0xa000 {
        Some(Instruction::LdI { addr })
    } else if ir & 0xf000 == 0xb000 {
        Some(Instruction::JpV0 { addr })
    } else if ir & 0xf000 == 0xc000 {
        Some(Instruction::Rnd { x, k })
    } else if ir & 0xf000 == 0xd000 {
        Some(Instruction::Drw { x, y, n })
    } else if ir & 0xf0ff == 0xe09e {
        Some(Instruction::Skp { x })
    } else if ir & 0xf0ff == 0xe0a1 {
        Some(Instruction::Sknp { x })
    } else if ir & 0xf0ff == 0xf007 {
        Some(Instruction::LdVxDt { x })
    } else if ir & 0xf0ff == 0xf00a {
        Some(Instruction::WaitKey { x })
    } else if ir & 0xf0ff == 0xf015 {
        Some(Instruction::LdDtVx { x })
    } else if ir & 0xf0ff == 0xf018 {
        Some(Instruction::LdStVx { x })
    } else if ir & 0xf0ff == 0xf01e {
        Some(Instruction::AddI { x })
    } else if ir & 0xf0ff == 0xf029 {
        Some(Instruction::LdFont { x })
    } else if ir & 0xf0ff == 0xf033 {
        Some(Instruction::Bcd { x })
    } else if ir & 0xf0ff == 0xf055 {
        Some(Instruction::StoreRegs { x })
    } else if ir & 0xf0ff == 0xf065 {
        Some(Instruction::LoadRegs { x })
    } else {
        None
    }
}

proof fn lemma_masks_and_nibbles(ir: u16, op: u16, low: u16)
    by (bit_vector)
    requires
        op < 0x10,
        low < 0x100,
    ensures
        (ir & 0xf000 == op * 0x1000) == (ir / 0x1000 == op),
        (ir & 0xf00f == op * 0x1000 + low % 0x10) == (ir / 0x1000 == op && ir % 0x10 == low % 0x10),
        (ir & 0xf0ff == op * 0x1000 + low) == (ir / 0x1000 == op && ir % 0x100 == low),
        (ir & 0x0f00) >> 8u16 == (ir / 0x100) % 0x10,
        (ir & 0x00f0) >> 4u16 == (ir / 0x10) % 0x10,
        ir & 0x00ff == ir % 0x100,
        ir & 0x0fff == ir % 0x1000,
        ir & 0x000f == ir % 0x10,
        ir & 0xffff == ir,
{
}

/// Decoding by nibbles agrees, on every word, with the canonical mask table.
pub proof fn lemma_decode_matches_mask_table(ir: u16)
    ensures
        decode_spec(ir) == decode_by_masks(ir),
{
    lemma_masks_and_nibbles(ir, 0x1, 0x0);
    lemma_masks_and_nibbles(ir, 0x2, 0x0);
    lemma_masks_and_nibbles(ir, 0x3, 0x0);
    lemma_masks_and_nibbles(ir, 0x4, 0x0);
    lemma_masks_and_nibbles(ir, 0x5, 0x0);
    lemma_masks_and_nibbles(ir, 0x6, 0x0);
    lemma_masks_and_nibbles(ir, 0x7, 0x0);
    lemma_masks_and_nibbles(ir, 0x8, 0x0);
    lemma_masks_and_nibbles(ir, 0x8, 0x1);
    lemma_masks_and_nibbles(ir, 0x8, 0x2);
    lemma_masks_and_nibbles(ir, 0x8, 0x3);
    lemma_masks_and_nibbles(ir, 0x8, 0x4);
    lemma_masks_and_nibbles(ir, 0x8, 0x5);
    lemma_masks_and_nibbles(ir, 0x8, 0x6);
    lemma_masks_and_nibbles(ir, 0x8, 0x7);
    lemma_masks_and_nibbles(ir, 0x8, 0xe);
    lemma_masks_and_nibbles(ir, 0x9, 0x0);
    lemma_masks_and_nibbles(ir, 0xa, 0x0);
    lemma_masks_and_nibbles(ir, 0xb, 0x0);
    lemma_masks_and_nibbles(ir, 0xc, 0x0);
    lemma_masks_and_nibbles(ir, 0xd, 0x0);
    lemma_masks_and_nibbles(ir, 0xe, 0x9e);
    lemma_masks_and_nibbles(ir, 0xe, 0xa1);
    lemma_masks_and_nibbles(ir, 0xf, 0x7);
    lemma_masks_and_nibbles(ir, 0xf, 0xa);
    lemma_masks_and_nibbles(ir, 0xf, 0x15);
    lemma_masks_and_nibbles(ir, 0xf, 0x18);
    lemma_masks_and_nibbles(ir, 0xf, 0x1e);
    lemma_masks_and_nibbles(ir, 0xf, 0x29);
    lemma_masks_and_nibbles(ir, 0xf, 0x33);
    lemma_masks_and_nibbles(ir, 0xf, 0x55);
    lemma_masks_and_nibbles(ir, 0xf, 0x65);
}

} // verus!
