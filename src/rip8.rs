use vstd::prelude::*;
use crate::decode::{decode, operands_in_range, Instruction};
use crate::display::{display_spot, draw_sprite, pixel};
use crate::layout::{
    font_data, font_glyphs, FILLER, FLAG, RIP8_DISPLAY_HEIGHT, RIP8_DISPLAY_SIZE,
    RIP8_DISPLAY_WIDTH, RIP8_FONT_SIZE, RIP8_KEY_COUNT, RIP8_MEMORY_SIZE, RIP8_REGISTER_COUNT,
    RIP8_ROM_START, RIP8_STACK_MAX_SIZE,
};
use crate::model::{
    advance_timers, draws_random, execute_spec, fetch_word, initial_machine, keydown_spec,
    rom_image, step_spec, Machine,
};
use crate::timers::{advance, count_down_by};

verus! {

/// A CHIP-8 machine. `F` is its source of random bytes, called once for each
/// `Rnd` instruction.
pub struct Rip8<F: Fn() -> u8> {
    pc: u16,
    memory: Vec<u8>,
    // The COSMAC VIP interpreter kept the stack in main memory; programs cannot
    // rely on where it lies, so it is kept apart and all 4096 bytes stay free.
    stack: Vec<u8>,
    v: Vec<u8>,
    i: u16,
    display: Vec<u8>,
    keyboard: Vec<bool>,
    dt: u8,
    st: u8,
    awaiting_input: bool,
    awaiter_index: usize,
    elapsed: u64,
    get_random: F,
}

impl<F: Fn() -> u8> View for Rip8<F> {
    type V = Machine;

    closed spec fn view(&self) -> Machine {
        Machine {
            pc: self.pc,
            memory: self.memory@,
            stack: self.stack@,
            v: self.v@,
            i: self.i,
            display: self.display@,
            keyboard: self.keyboard@,
            dt: self.dt,
            st: self.st,
            awaiting_input: self.awaiting_input,
            awaiter_index: self.awaiter_index as int,
            carry: self.elapsed as int,
        }
    }
}

/// A vector of `n` copies of `b`.
fn filled(b: u8, n: usize) -> (r: Vec<u8>)
    ensures
        r@ == Seq::new(n as nat, |_k: int| b),
{
    let mut r: Vec<u8> = Vec::new();
    let mut k: usize = 0;
    while k < n
        invariant
            k <= n,
            r@ == Seq::new(k as nat, |_j: int| b),
        decreases n - k,
    {
        r.push(b);
        k += 1;
        assert(r@ =~= Seq::new(k as nat, |_j: int| b));
    }
    r
}

/// A vector of `n` keys, all up.
fn keys_up(n: usize) -> (r: Vec<bool>)
    ensures
        r@ == Seq::new(n as nat, |_k: int| false),
{
    let mut r: Vec<bool> = Vec::new();
    let mut k: usize = 0;
    while k < n
        invariant
            k <= n,
            r@ == Seq::new(k as nat, |_j: int| false),
        decreases n - k,
    {
        r.push(false);
        k += 1;
        assert(r@ =~= Seq::new(k as nat, |_j: int| false));
    }
    r
}

impl<F: Fn() -> u8> Rip8<F> {
    /// The random source the machine was built with.
    pub closed spec fn random_source(&self) -> F {
        self.get_random
    }

    /// A machine over the complete memory image `image`, which must be
    /// exactly 4096 bytes, starting at `start_address`.
    pub fn from_image_at_start(image: &Vec<u8>, start_address: u16, get_random: F) -> (r: Self)
        requires
            image@.len() == RIP8_MEMORY_SIZE,
        ensures
            r@ == initial_machine(image@, start_address),
            r@.wf(),
            r.random_source() == get_random,
    {
        let memory = image.clone();
        Rip8 {
            pc: start_address,
            memory,
            stack: Vec::new(),
            v: filled(0xff, RIP8_REGISTER_COUNT),
            i: 0xff,
            display: filled(0, RIP8_DISPLAY_SIZE),
            keyboard: keys_up(RIP8_KEY_COUNT),
            dt: 0,
            st: 0,
            awaiting_input: false,
            awaiter_index: 0,
            elapsed: 0,
            get_random,
        }
    }

    /// A machine over the complete memory image `image` that starts at the
    /// conventional start address.
    pub fn from_image(image: &Vec<u8>, get_random: F) -> (r: Self)
        requires
            image@.len() == RIP8_MEMORY_SIZE,
        ensures
            r@ == initial_machine(image@, RIP8_ROM_START),
            r@.wf(),
            r.random_source() == get_random,
    {
        Self::from_image_at_start(image, RIP8_ROM_START, get_random)
    }

    /// A machine with `rom` loaded at `loading_address`, which must be at or
    /// past the conventional start address and leave room for the whole
    /// program. Below the program lies the font, then the filler byte 0xFF;
    /// after it the filler byte again. Execution starts at the program.
    pub fn from_rom_at_address(rom: &Vec<u8>, loading_address: u16, get_random: F) -> (r: Self)
        requires
            loading_address >= RIP8_ROM_START,
            rom@.len() <= RIP8_MEMORY_SIZE - loading_address,
        ensures
            r@ == initial_machine(rom_image(rom@, loading_address as int), loading_address),
            r@.wf(),
            r.random_source() == get_random,
    {
        let ghost image = rom_image(rom@, loading_address as int);
        let font = font_data();
        let load = loading_address as usize;
        let mut memory: Vec<u8> = Vec::new();
        let mut a: usize = 0;
        while a < load
            invariant
                a <= load,
                load >= RIP8_ROM_START,
                load + rom@.len() <= RIP8_MEMORY_SIZE,
                font@ == font_glyphs(),
                image == rom_image(rom@, load as int),
                memory@ == image.subrange(0, a as int),
            decreases load - a,
        {
            if a < RIP8_FONT_SIZE {
                memory.push(font[a]);
            } else {
                memory.push(FILLER);
            }
            a += 1;
            assert(memory@ =~= image.subrange(0, a as int));
        }
        let mut k: usize = 0;
        while k < rom.len()
            invariant
                k <= rom@.len(),
                load >= RIP8_ROM_START,
                load + rom@.len() <= RIP8_MEMORY_SIZE,
                image == rom_image(rom@, load as int),
                memory@ == image.subrange(0, load + k),
            decreases rom@.len() - k,
        {
            memory.push(rom[k]);
            k += 1;
            assert(memory@ =~= image.subrange(0, load + k));
        }
        let mut a: usize = load + rom.len();
        while a < RIP8_MEMORY_SIZE
            invariant
                load + rom@.len() <= a <= RIP8_MEMORY_SIZE,
                image == rom_image(rom@, load as int),
                memory@ == image.subrange(0, a as int),
            decreases RIP8_MEMORY_SIZE - a,
        {
            memory.push(FILLER);
            a += 1;
            assert(memory@ =~= image.subrange(0, a as int));
        }
        assert(memory@ =~= image);
        Self::from_image_at_start(&memory, loading_address, get_random)
    }

    /// A machine with `rom` loaded and started at the conventional start
    /// address.
    pub fn from_rom(rom: &Vec<u8>, get_random: F) -> (r: Self)
        requires
            rom@.len() <= RIP8_MEMORY_SIZE - RIP8_ROM_START,
        ensures
            r@ == initial_machine(rom_image(rom@, RIP8_ROM_START as int), RIP8_ROM_START),
            r@.wf(),
            r.random_source() == get_random,
    {
        Self::from_rom_at_address(rom, RIP8_ROM_START, get_random)
    }

    /// A machine over the complete memory image `image` starting at
    /// `start_address`, or `None` when the image is not exactly 4096 bytes.
    pub fn try_from_image_at_start(image: &Vec<u8>, start_address: u16, get_random: F) -> (r:
        Option<Self>)
        ensures
            r is Some <==> image@.len() == RIP8_MEMORY_SIZE,
            r matches Some(m) ==> m@ == initial_machine(image@, start_address) && m.random_source()
                == get_random,
    {
        if image.len() == RIP8_MEMORY_SIZE {
            Some(Self::from_image_at_start(image, start_address, get_random))
        } else {
            None
        }
    }

    /// A machine with `rom` loaded at `loading_address`, or `None` when the
    /// address lies below the conventional start address or the program does
    /// not fit between it and the end of memory.
    pub fn try_from_rom_at_address(rom: &Vec<u8>, loading_address: u16, get_random: F) -> (r:
        Option<Self>)
        ensures
            r is Some <==> (loading_address >= RIP8_ROM_START && rom@.len() <= RIP8_MEMORY_SIZE
                - loading_address),
            r matches Some(m) ==> m@ == initial_machine(
                rom_image(rom@, loading_address as int),
                loading_address,
            ) && m.random_source() == get_random,
    {
        let load = loading_address as usize;
        if loading_address >= RIP8_ROM_START && load <= RIP8_MEMORY_SIZE && rom.len()
            <= RIP8_MEMORY_SIZE - load {
            Some(Self::from_rom_at_address(rom, loading_address, get_random))
        } else {
            None
        }
    }

    /// Sets register `x` to `val`.
    fn set_v(&mut self, x: usize, val: u8)
        requires
            old(self)@.wf(),
            x < RIP8_REGISTER_COUNT,
        ensures
            final(self)@ == old(self)@.with_v(x as int, val),
            final(self).random_source() == old(self).random_source(),
    {
        self.v.set(x, val);
    }

    /// Moves the program counter past the next instruction if `cond` holds.
    fn skip_if(&mut self, cond: bool)
        ensures
            final(self)@ == old(self)@.skip_if(cond),
            final(self).random_source() == old(self).random_source(),
    {
        if cond {
            self.pc = self.pc.wrapping_add(2);
        }
    }

    /// Clears the display.
    fn clear_display(&mut self)
        requires
            old(self)@.wf(),
        ensures
            final(self)@.wf(),
            final(self).random_source() == old(self).random_source(),
            execute_spec(old(self)@, Instruction::Cls, 0) == Some(final(self)@),
    {
        let ghost m = self@;
        let mut b: usize = 0;
        assert(Seq::new(0, |_j: int| 0u8) + m.display.subrange(0, RIP8_DISPLAY_SIZE as int)
            =~= m.display);
        while b < RIP8_DISPLAY_SIZE
            invariant
                self@ == (Machine {
                    display: Seq::new(b as nat, |_j: int| 0u8) + m.display.subrange(
                        b as int,
                        RIP8_DISPLAY_SIZE as int,
                    ),
                    ..m
                }),
                m.wf(),
                b <= RIP8_DISPLAY_SIZE,
                self.random_source() == old(self).random_source(),
            decreases RIP8_DISPLAY_SIZE - b,
        {
            self.display.set(b, 0);
            b += 1;
            assert(self.display@ =~= Seq::new(b as nat, |_j: int| 0u8) + m.display.subrange(
                b as int,
                RIP8_DISPLAY_SIZE as int,
            ));
        }
        assert(self.display@ =~= Seq::new(RIP8_DISPLAY_SIZE as nat, |_j: int| 0u8));
    }

    /// Returns, jumps and calls.
    fn exec_flow(&mut self, ins: Instruction, random_byte: u8) -> (r: bool)
        requires
            old(self)@.wf(),
            operands_in_range(ins),
            ins matches Instruction::Ret || ins matches Instruction::Jp { .. }
            || ins matches Instruction::Call { .. } || ins matches Instruction::JpV0 { .. },
        ensures
            final(self)@.wf(),
            final(self).random_source() == old(self).random_source(),
            match execute_spec(old(self)@, ins, random_byte) {
                Some(next) => r && final(self)@ == next,
                None => !r && final(self)@ == old(self)@,
            },
    {
        let ghost m = self@;
        match ins {
            Instruction::Ret => {
                if self.stack.len() < 2 {
                    return false;
                }
                let hi = self.stack.pop().unwrap();
                let lo = self.stack.pop().unwrap();
                self.pc = (hi as u16) * 0x100 + lo as u16;
                assert(self.stack@ =~= m.stack.subrange(0, m.stack.len() - 2));
            },
            Instruction::Jp { addr } => {
                self.pc = addr;
            },
            Instruction::Call { addr } => {
                if self.stack.len() > RIP8_STACK_MAX_SIZE - 2 {
                    return false;
                }
                self.stack.push((self.pc % 0x100) as u8);
                self.stack.push((self.pc / 0x100) as u8);
                self.pc = addr;
            },
            Instruction::JpV0 { addr } => {
                self.pc = addr + self.v[0] as u16;
            },
            _ => {},
        }
        true
    }

    /// Conditional skips.
    fn exec_skip(&mut self, ins: Instruction, random_byte: u8) -> (r: bool)
        requires
            old(self)@.wf(),
            operands_in_range(ins),
            ins matches Instruction::SeByte { .. } || ins matches Instruction::SneByte { .. }
            || ins matches Instruction::SeReg { .. } || ins matches Instruction::SneReg { .. }
            || ins matches Instruction::Skp { .. } || ins matches Instruction::Sknp { .. },
        ensures
            final(self)@.wf(),
            final(self).random_source() == old(self).random_source(),
            match execute_spec(old(self)@, ins, random_byte) {
                Some(next) => r && final(self)@ == next,
                None => !r && final(self)@ == old(self)@,
            },
    {
        match ins {
            Instruction::SeByte { x, k } => {
                let cond = self.v[x] == k;
                self.skip_if(cond);
            },
            Instruction::SneByte { x, k } => {
                let cond = self.v[x] != k;
                self.skip_if(cond);
            },
            Instruction::SeReg { x, y } => {
                let cond = self.v[x] == self.v[y];
                self.skip_if(cond);
            },
            Instruction::SneReg { x, y } => {
                let cond = self.v[x] != self.v[y];
                self.skip_if(cond);
            },
            Instruction::Skp { x } => {
                let key = self.v[x] as usize;
                let cond = key < RIP8_KEY_COUNT && self.keyboard[key];
                self.skip_if(cond);
            },
            Instruction::Sknp { x } => {
                let key = self.v[x] as usize;
                let cond = !(key < RIP8_KEY_COUNT && self.keyboard[key]);
                self.skip_if(cond);
            },
            _ => {},
        }
        true
    }

    /// Register loads and arithmetic.
    fn exec_register(&mut self, ins: Instruction, random_byte: u8) -> (r: bool)
        requires
            old(self)@.wf(),
            operands_in_range(ins),
            ins matches Instruction::LdByte { .. } || ins matches Instruction::AddByte { .. }
            || ins matches Instruction::LdReg { .. } || ins matches Instruction::Or { .. }
            || ins matches Instruction::And { .. } || ins matches Instruction::Xor { .. }
            || ins matches Instruction::AddReg { .. } || ins matches Instruction::Sub { .. }
            || ins matches Instruction::Shr { .. } || ins matches Instruction::Subn { .. }
            || ins matches Instruction::Shl { .. } || ins matches Instruction::Rnd { .. }
            || ins matches Instruction::LdVxDt { .. },
        ensures
            final(self)@.wf(),
            final(self).random_source() == old(self).random_source(),
            match execute_spec(old(self)@, ins, random_byte) {
                Some(next) => r && final(self)@ == next,
                None => !r && final(self)@ == old(self)@,
            },
    {
        match ins {
            Instruction::LdByte { x, k } => {
                self.set_v(x, k);
            },
            Instruction::AddByte { x, k } => {
                let val = self.v[x].wrapping_add(k);
                self.set_v(x, val);
            },
            Instruction::LdReg { x, y } => {
                let val = self.v[y];
                self.set_v(x, val);
            },
            Instruction::Or { x, y } => {
                let val = self.v[x] | self.v[y];
                self.set_v(x, val);
            },
            Instruction::And { x, y } => {
                let val = self.v[x] & self.v[y];
                self.set_v(x, val);
            },
            Instruction::Xor { x, y } => {
                let val = self.v[x] ^ self.v[y];
                self.set_v(x, val);
            },
            Instruction::AddReg { x, y } => {
                let (a, b) = (self.v[x], self.v[y]);
                let carry = a as u16 + b as u16 > 0xff;
                self.set_v(x, a.wrapping_add(b));
                self.set_v(FLAG, if carry { 1 } else { 0 });
            },
            Instruction::Sub { x, y } => {
                let (a, b) = (self.v[x], self.v[y]);
                self.set_v(x, a.wrapping_sub(b));
                self.set_v(FLAG, if a >= b { 1 } else { 0 });
            },
            Instruction::Shr { x, y } => {
                let src = self.v[y];
                self.set_v(FLAG, src % 2);
                self.set_v(x, src / 2);
            },
            Instruction::Subn { x, y } => {
                let (a, b) = (self.v[y], self.v[x]);
                self.set_v(x, a.wrapping_sub(b));
                self.set_v(FLAG, if a >= b { 1 } else { 0 });
            },
            Instruction::Shl { x, y } => {
                let src = self.v[y];
                self.set_v(FLAG, src / 0x80);
                self.set_v(x, ((src as u16 * 2) % 0x100) as u8);
            },
            Instruction::Rnd { x, k } => {
                self.set_v(x, random_byte & k);
            },
            Instruction::LdVxDt { x } => {
                let val = self.dt;
                self.set_v(x, val);
            },
            _ => {},
        }
        true
    }

    /// Draws the `n` sprite rows at `I` at `(Vx, Vy)`; `VF` tells whether a pixel went off.
    fn draw(&mut self, x: usize, y: usize, n: u8) -> (r: bool)
        requires
            old(self)@.wf(),
            x < RIP8_REGISTER_COUNT,
            y < RIP8_REGISTER_COUNT,
            n < 0x10,
        ensures
            final(self)@.wf(),
            final(self).random_source() == old(self).random_source(),
            match execute_spec(old(self)@, Instruction::Drw { x, y, n }, 0) {
                Some(next) => r && final(self)@ == next,
                None => !r && final(self)@ == old(self)@,
            },
    {
        let start = self.i as usize;
        if start + n as usize > RIP8_MEMORY_SIZE {
            return false;
        }
        let x0 = self.v[x] as usize;
        let y0 = self.v[y] as usize;
        let collision = draw_sprite(&mut self.display, &self.memory, start, n as usize, x0, y0);
        self.set_v(FLAG, if collision { 1 } else { 0 });
        true
    }

    /// Timers, the key wait and the index register.
    fn exec_special(&mut self, ins: Instruction, random_byte: u8) -> (r: bool)
        requires
            old(self)@.wf(),
            operands_in_range(ins),
            ins matches Instruction::LdI { .. } || ins matches Instruction::WaitKey { .. }
            || ins matches Instruction::LdDtVx { .. } || ins matches Instruction::LdStVx { .. }
            || ins matches Instruction::AddI { .. } || ins matches Instruction::LdFont { .. },
        ensures
            final(self)@.wf(),
            final(self).random_source() == old(self).random_source(),
            match execute_spec(old(self)@, ins, random_byte) {
                Some(next) => r && final(self)@ == next,
                None => !r && final(self)@ == old(self)@,
            },
    {
        match ins {
            Instruction::LdI { addr } => {
                self.i = addr;
            },
            Instruction::WaitKey { x } => {
                self.awaiting_input = true;
                self.awaiter_index = x;
            },
            Instruction::LdDtVx { x } => {
                self.dt = self.v[x];
            },
            Instruction::LdStVx { x } => {
                self.st = self.v[x];
            },
            Instruction::AddI { x } => {
                self.i = self.i.wrapping_add(self.v[x] as u16);
            },
            Instruction::LdFont { x } => {
                self.i = (self.v[x] % 0x10) as u16 * 5;
            },
            _ => {},
        }
        true
    }

    /// Stores the decimal digits of `Vx` at `I`, `I + 1` and `I + 2`.
    fn store_bcd(&mut self, x: usize) -> (r: bool)
        requires
            old(self)@.wf(),
            x < RIP8_REGISTER_COUNT,
        ensures
            final(self)@.wf(),
            final(self).random_source() == old(self).random_source(),
            match execute_spec(old(self)@, Instruction::Bcd { x }, 0) {
                Some(next) => r && final(self)@ == next,
                None => !r && final(self)@ == old(self)@,
            },
    {
        let base = self.i as usize;
        if base + 3 > RIP8_MEMORY_SIZE {
            return false;
        }
        let val = self.v[x];
        self.memory.set(base, val / 100 % 10);
        self.memory.set(base + 1, val / 10 % 10);
        self.memory.set(base + 2, val % 10);
        true
    }

    /// Stores `V0..=Vx` from `I` on and moves `I` past them.
    fn store_registers(&mut self, x: usize) -> (r: bool)
        requires
            old(self)@.wf(),
            x < RIP8_REGISTER_COUNT,
        ensures
            final(self)@.wf(),
            final(self).random_source() == old(self).random_source(),
            match execute_spec(old(self)@, Instruction::StoreRegs { x }, 0) {
                Some(next) => r && final(self)@ == next,
                None => !r && final(self)@ == old(self)@,
            },
    {
        let ghost m = self@;
        let base = self.i as usize;
        if base + x + 1 > RIP8_MEMORY_SIZE {
            return false;
        }
        let mut r: usize = 0;
        assert(m.memory =~= Seq::new(
            m.memory.len(),
            |a: int|
                if base <= a < base + 0 {
                    m.v[a - base]
                } else {
                    m.memory[a]
                },
        ));
        while r <= x
            invariant
                m.wf(),
                x < RIP8_REGISTER_COUNT,
                base == m.i,
                base + x + 1 <= RIP8_MEMORY_SIZE,
                r <= x + 1,
                self@ == (Machine {
                    memory: Seq::new(
                        m.memory.len(),
                        |a: int|
                            if base <= a < base + r {
                                m.v[a - base]
                            } else {
                                m.memory[a]
                            },
                    ),
                    ..m
                }),
                self.random_source() == old(self).random_source(),
            decreases x + 1 - r,
        {
            let val = self.v[r];
            self.memory.set(base + r, val);
            r += 1;
            assert(self.memory@ =~= Seq::new(
                m.memory.len(),
                |a: int|
                    if base <= a < base + r {
                        m.v[a - base]
                    } else {
                        m.memory[a]
                    },
            ));
        }
        self.i = (base + x + 1) as u16;
        assert(self.memory@ =~= Seq::new(
            m.memory.len(),
            |a: int|
                if m.i <= a <= m.i + x {
                    m.v[a - m.i]
                } else {
                    m.memory[a]
                },
        ));
        true
    }

    /// Loads `V0..=Vx` from `I` on and moves `I` past them.
    fn load_registers(&mut self, x: usize) -> (r: bool)
        requires
            old(self)@.wf(),
            x < RIP8_REGISTER_COUNT,
        ensures
            final(self)@.wf(),
            final(self).random_source() == old(self).random_source(),
            match execute_spec(old(self)@, Instruction::LoadRegs { x }, 0) {
                Some(next) => r && final(self)@ == next,
                None => !r && final(self)@ == old(self)@,
            },
    {
        let ghost m = self@;
        let base = self.i as usize;
        if base + x + 1 > RIP8_MEMORY_SIZE {
            return false;
        }
        let mut r: usize = 0;
        assert(m.v =~= Seq::new(
            m.v.len(),
            |j: int|
                if j < 0 {
                    m.memory[base + j]
                } else {
                    m.v[j]
                },
        ));
        while r <= x
            invariant
                m.wf(),
                x < RIP8_REGISTER_COUNT,
                base == m.i,
                base + x + 1 <= RIP8_MEMORY_SIZE,
                r <= x + 1,
                self@ == (Machine {
                    v: Seq::new(
                        m.v.len(),
                        |j: int|
                            if j < r {
                                m.memory[base + j]
                            } else {
                                m.v[j]
                            },
                    ),
                    ..m
                }),
                self.random_source() == old(self).random_source(),
            decreases x + 1 - r,
        {
            let val = self.memory[base + r];
            self.v.set(r, val);
            r += 1;
            assert(self.v@ =~= Seq::new(
                m.v.len(),
                |j: int|
                    if j < r {
                        m.memory[base + j]
                    } else {
                        m.v[j]
                    },
            ));
        }
        self.i = (base + x + 1) as u16;
        assert(self.v@ =~= Seq::new(
            m.v.len(),
            |j: int|
                if j <= x {
                    m.memory[m.i + j]
                } else {
                    m.v[j]
                },
        ));
        true
    }

    /// Executes one decoded instruction, with `random_byte` as the random
    /// byte for `Rnd`. Returns false on a fault (call stack overflow, return
    /// with an empty stack, a memory access past the last byte), and then the
    /// machine is left as it was.
    pub fn execute(&mut self, ins: Instruction, random_byte: u8) -> (r: bool)
        requires
            old(self)@.wf(),
            operands_in_range(ins),
        ensures
            final(self)@.wf(),
            final(self).random_source() == old(self).random_source(),
            match execute_spec(old(self)@, ins, random_byte) {
                Some(next) => r && final(self)@ == next,
                None => !r && final(self)@ == old(self)@,
            },
    {
        match ins {
            Instruction::Cls => {
                self.clear_display();
                true
            },
            Instruction::Ret | Instruction::Jp { .. } | Instruction::Call { .. }
            | Instruction::JpV0 { .. } => {
                self.exec_flow(ins, random_byte)
            },
            Instruction::SeByte { .. } | Instruction::SneByte { .. } | Instruction::SeReg { .. }
            | Instruction::SneReg { .. } | Instruction::Skp { .. } | Instruction::Sknp { .. } => {
                self.exec_skip(ins, random_byte)
            },
            Instruction::LdByte { .. } | Instruction::AddByte { .. } | Instruction::LdReg { .. }
            | Instruction::Or { .. } | Instruction::And { .. } | Instruction::Xor { .. }
            | Instruction::AddReg { .. } | Instruction::Sub { .. } | Instruction::Shr { .. }
            | Instruction::Subn { .. } | Instruction::Shl { .. } | Instruction::Rnd { .. }
            | Instruction::LdVxDt { .. } => {
                self.exec_register(ins, random_byte)
            },
            Instruction::Drw { x, y, n } => self.draw(x, y, n),
            Instruction::LdI { .. } | Instruction::WaitKey { .. } | Instruction::LdDtVx { .. }
            | Instruction::LdStVx { .. } | Instruction::AddI { .. }
            | Instruction::LdFont { .. } => {
                self.exec_special(ins, random_byte)
            },
            Instruction::Bcd { x } => self.store_bcd(x),
            Instruction::StoreRegs { x } => self.store_registers(x),
            Instruction::LoadRegs { x } => self.load_registers(x),
        }
    }

    /// Advances the timers by `delta_nanos` nanoseconds of elapsed time, then,
    /// unless the machine waits for a key, fetches the instruction at the
    /// program counter, moves the counter past it and executes it. Returns
    /// false when the machine halts: the instruction lies past the end of
    /// memory, the word encodes no instruction, or the instruction faults.
    /// The random source is called only for `Rnd`.
    pub fn step(&mut self, delta_nanos: u64) -> (r: bool)
        requires
            old(self)@.wf(),
            call_requires(old(self).random_source(), ()),
        ensures
            final(self)@.wf(),
            final(self).random_source() == old(self).random_source(),
            exists|rnd: u8|
                (draws_random(old(self)@, delta_nanos) ==> call_ensures(
                    old(self).random_source(),
                    (),
                    rnd,
                )) && #[trigger] step_spec(old(self)@, delta_nanos, rnd) == (final(self)@, r),
    {
        let ghost m = self@;
        let (ticks, carry) = advance(self.elapsed, delta_nanos);
        self.dt = count_down_by(self.dt, ticks);
        self.st = count_down_by(self.st, ticks);
        self.elapsed = carry;
        assert(self@ == advance_timers(m, delta_nanos));
        if self.awaiting_input {
            assert(step_spec(m, delta_nanos, 0) == (self@, true));
            return true;
        }
        let pc = self.pc as usize;
        if pc + 1 >= RIP8_MEMORY_SIZE {
            assert(step_spec(m, delta_nanos, 0) == (self@, false));
            return false;
        }
        let ir = (self.memory[pc] as u16) * 0x100 + self.memory[pc + 1] as u16;
        assert(ir == fetch_word(advance_timers(m, delta_nanos)));
        self.pc = self.pc + 2;
        match decode(ir) {
            None => {
                assert(step_spec(m, delta_nanos, 0) == (self@, false));
                false
            },
            Some(ins) => {
                let random_byte = match ins {
                    Instruction::Rnd { .. } => (self.get_random)(),
                    _ => 0,
                };
                let r = self.execute(ins, random_byte);
                assert(step_spec(m, delta_nanos, random_byte) == (self@, r));
                r
            },
        }
    }

    /// Reports key `k` down or up. Keys outside 0 to 15 are ignored. While
    /// the machine waits for a key, a key that was down and is now reported
    /// up ends the wait and its index goes to the waiting register; a press
    /// alone never does.
    pub fn set_keydown(&mut self, k: usize, v: bool)
        requires
            old(self)@.wf(),
        ensures
            final(self)@.wf(),
            final(self).random_source() == old(self).random_source(),
            final(self)@ == keydown_spec(old(self)@, k as int, v),
    {
        if k < RIP8_KEY_COUNT {
            // The wait ends on a release, not a press: the instruction set has
            // no "key released" event, and levels alone would let a key that
            // is still held from before end the wait at once.
            if self.keyboard[k] && !v && self.awaiting_input {
                self.awaiting_input = false;
                let index = self.awaiter_index;
                self.set_v(index, k as u8);
            }
            self.keyboard.set(k, v);
        }
    }

    /// Whether the pixel at `(x, y)` is on; false outside the 64 by 32 display.
    pub fn get_display_spot(&self, x: usize, y: usize) -> (r: bool)
        requires
            self@.wf(),
        ensures
            r == (x < RIP8_DISPLAY_WIDTH && y < RIP8_DISPLAY_HEIGHT && pixel(
                self@.display,
                x as int,
                y as int,
            )),
    {
        display_spot(&self.display, x, y)
    }

    /// Whether the tone sounds: the sound timer is not zero.
    pub fn is_tone_on(&self) -> (r: bool)
        ensures
            r == (self@.st != 0),
    {
        self.st != 0
    }

    /// Whether the machine waits for a key release.
    pub fn is_awaiting_input(&self) -> (r: bool)
        ensures
            r == self@.awaiting_input,
    {
        self.awaiting_input
    }

    /// The program counter.
    pub fn pc(&self) -> (r: u16)
        ensures
            r == self@.pc,
    {
        self.pc
    }

    /// The index register.
    pub fn i(&self) -> (r: u16)
        ensures
            r == self@.i,
    {
        self.i
    }

    /// The registers V0 to VF.
    pub fn v(&self) -> (r: &Vec<u8>)
        ensures
            r@ == self@.v,
    {
        &self.v
    }

    /// The memory.
    pub fn memory(&self) -> (r: &Vec<u8>)
        ensures
            r@ == self@.memory,
    {
        &self.memory
    }

    /// The call stack, two bytes per return address.
    pub fn stack(&self) -> (r: &Vec<u8>)
        ensures
            r@ == self@.stack,
    {
        &self.stack
    }

    /// The delay timer.
    pub fn dt(&self) -> (r: u8)
        ensures
            r == self@.dt,
    {
        self.dt
    }

    /// The sound timer.
    pub fn st(&self) -> (r: u8)
        ensures
            r == self@.st,
    {
        self.st
    }
}

} // verus!
