use vstd::prelude::*;
use crate::decode::{decode_spec, Instruction};
use crate::display::{collides, drawn};
use crate::layout::{
    font_glyphs, FILLER, FLAG, RIP8_DISPLAY_SIZE, RIP8_FONT_SIZE, RIP8_KEY_COUNT,
    RIP8_MEMORY_SIZE, RIP8_REGISTER_COUNT, RIP8_STACK_MAX_SIZE,
};
use crate::timers::{carry_after, count_down, tick_units, ticks_due};

verus! {

/// The whole state of the machine, as mathematical values.
pub struct Machine {
    /// Program counter.
    pub pc: u16,
    /// Memory, 4096 bytes.
    pub memory: Seq<u8>,
    /// Call stack, two bytes per return address: low byte, then high byte.
    pub stack: Seq<u8>,
    /// Registers V0 to VF.
    pub v: Seq<u8>,
    /// Index register.
    pub i: u16,
    /// Packed framebuffer, 256 bytes.
    pub display: Seq<u8>,
    /// Which of the 16 keys are down.
    pub keyboard: Seq<bool>,
    /// Delay timer.
    pub dt: u8,
    /// Sound timer.
    pub st: u8,
    /// The machine waits for a key release.
    pub awaiting_input: bool,
    /// The register that receives the released key.
    pub awaiter_index: int,
    /// Elapsed time not yet counted as a tick, in sixtieths of a nanosecond.
    pub carry: int,
}

impl Machine {
    /// The sizes and ranges that every reachable state keeps.
    pub open spec fn wf(self) -> bool {
        &&& self.memory.len() == RIP8_MEMORY_SIZE
        &&& self.stack.len() <= RIP8_STACK_MAX_SIZE
        &&& self.v.len() == RIP8_REGISTER_COUNT
        &&& self.display.len() == RIP8_DISPLAY_SIZE
        &&& self.keyboard.len() == RIP8_KEY_COUNT
        &&& 0 <= self.awaiter_index < RIP8_REGISTER_COUNT
        &&& 0 <= self.carry < tick_units()
    }

    /// This state with register `x` set to `val`.
    pub open spec fn with_v(self, x: int, val: u8) -> Machine {
        Machine { v: self.v.update(x, val), ..self }
    }

    /// This state, past the next instruction if `cond` holds.
    pub open spec fn skip_if(self, cond: bool) -> Machine {
        if cond {
            Machine { pc: ((self.pc + 2) % 0x10000) as u16, ..self }
        } else {
            self
        }
    }

    /// Key `key` is one of the 16 and is down; any other value is up.
    pub open spec fn key_down(self, key: int) -> bool {
        0 <= key < RIP8_KEY_COUNT && self.keyboard[key]
    }
}

/// 1 for true, 0 for false.
pub open spec fn flag(b: bool) -> u8 {
    if b {
        1
    } else {
        0
    }
}

/// The three decimal digits of a byte, hundreds first.
pub open spec fn bcd_digits(val: u8) -> Seq<u8> {
    seq![(val / 100 % 10) as u8, (val / 10 % 10) as u8, (val % 10) as u8]
}

/// The result of executing `ins` in state `m`, with `rnd` as the random byte
/// for `Rnd`; `None` for a fault (call stack overflow, return with an empty
/// stack, a memory access past the last byte), which leaves `m` as it is.
pub open spec fn execute_spec(m: Machine, ins: Instruction, rnd: u8) -> Option<Machine> {
    match ins {
        Instruction::Cls => Some(
            Machine { display: Seq::new(RIP8_DISPLAY_SIZE as nat, |_b: int| 0u8), ..m },
        ),
        Instruction::Ret => {
            let len = m.stack.len();
            if len < 2 {
                None
            } else {
                let hi = m.stack[len - 1];
                let lo = m.stack[len - 2];
                Some(
                    Machine {
                        pc: (hi * 0x100 + lo) as u16,
                        stack: m.stack.subrange(0, len - 2),
                        ..m
                    },
                )
            }
        },
        Instruction::Jp { addr } => Some(Machine { pc: addr, ..m }),
        Instruction::Call { addr } => {
            if m.stack.len() > RIP8_STACK_MAX_SIZE - 2 {
                None
            } else {
                Some(
                    Machine {
                        pc: addr,
                        stack: m.stack.push((m.pc % 0x100) as u8).push((m.pc / 0x100) as u8),
                        ..m
                    },
                )
            }
        },
        Instruction::SeByte { x, k } => Some(m.skip_if(m.v[x as int] == k)),
        Instruction::SneByte { x, k } => Some(m.skip_if(m.v[x as int] != k)),
        Instruction::SeReg { x, y } => Some(m.skip_if(m.v[x as int] == m.v[y as int])),
        Instruction::LdByte { x, k } => Some(m.with_v(x as int, k)),
        Instruction::AddByte { x, k } => Some(
            m.with_v(x as int, ((m.v[x as int] + k) % 0x100) as u8),
        ),
        Instruction::LdReg { x, y } => Some(m.with_v(x as int, m.v[y as int])),
        Instruction::Or { x, y } => Some(m.with_v(x as int, m.v[x as int] | m.v[y as int])),
        Instruction::And { x, y } => Some(m.with_v(x as int, m.v[x as int] & m.v[y as int])),
        Instruction::Xor { x, y } => Some(m.with_v(x as int, m.v[x as int] ^ m.v[y as int])),
        Instruction::AddReg { x, y } => {
            let sum = m.v[x as int] + m.v[y as int];
            Some(m.with_v(x as int, (sum % 0x100) as u8).with_v(FLAG as int, flag(sum > 0xff)))
        },
        Instruction::Sub { x, y } => {
            let (a, b) = (m.v[x as int], m.v[y as int]);
            Some(
                m.with_v(x as int, ((a - b + 0x100) % 0x100) as u8).with_v(
                    FLAG as int,
                    flag(a >= b),
                ),
            )
        },
        Instruction::Shr { x, y } => {
            let src = m.v[y as int];
            Some(m.with_v(FLAG as int, src % 2).with_v(x as int, src / 2))
        },
        Instruction::Subn { x, y } => {
            let (a, b) = (m.v[y as int], m.v[x as int]);
            Some(
                m.with_v(x as int, ((a - b + 0x100) % 0x100) as u8).with_v(
                    FLAG as int,
                    flag(a >= b),
                ),
            )
        },
        Instruction::Shl { x, y } => {
            let src = m.v[y as int];
            Some(m.with_v(FLAG as int, src / 0x80).with_v(x as int, ((src * 2) % 0x100) as u8))
        },
        Instruction::SneReg { x, y } => Some(m.skip_if(m.v[x as int] != m.v[y as int])),
        Instruction::LdI { addr } => Some(Machine { i: addr, ..m }),
        Instruction::JpV0 { addr } => Some(Machine { pc: (addr + m.v[0]) as u16, ..m }),
        Instruction::Rnd { x, k } => Some(m.with_v(x as int, rnd & k)),
        Instruction::Drw { x, y, n } => {
            if m.i + n > RIP8_MEMORY_SIZE {
                None
            } else {
                let rows = m.memory.subrange(m.i as int, m.i + n);
                let (x0, y0) = (m.v[x as int] as int, m.v[y as int] as int);
                Some(
                    Machine {
                        display: drawn(m.display, rows, n as int, x0, y0),
                        ..m
                    }.with_v(FLAG as int, flag(collides(m.display, rows, n as int, x0, y0))),
                )
            }
        },
        Instruction::Skp { x } => Some(m.skip_if(m.key_down(m.v[x as int] as int))),
        Instruction::Sknp { x } => Some(m.skip_if(!m.key_down(m.v[x as int] as int))),
        Instruction::LdVxDt { x } => Some(m.with_v(x as int, m.dt)),
        Instruction::WaitKey { x } => Some(
            Machine { awaiting_input: true, awaiter_index: x as int, ..m },
        ),
        Instruction::LdDtVx { x } => Some(Machine { dt: m.v[x as int], ..m }),
        Instruction::LdStVx { x } => Some(Machine { st: m.v[x as int], ..m }),
        Instruction::AddI { x } => Some(
            Machine { i: ((m.i + m.v[x as int]) % 0x10000) as u16, ..m },
        ),
        Instruction::LdFont { x } => Some(Machine { i: ((m.v[x as int] % 0x10) * 5) as u16, ..m }),
        Instruction::Bcd { x } => {
            if m.i + 3 > RIP8_MEMORY_SIZE {
                None
            } else {
                let d = bcd_digits(m.v[x as int]);
                Some(
                    Machine {
                        memory: m.memory.update(m.i as int, d[0]).update(m.i + 1, d[1]).update(
                            m.i + 2,
                            d[2],
                        ),
                        ..m
                    },
                )
            }
        },
        Instruction::StoreRegs { x } => {
            if m.i + x + 1 > RIP8_MEMORY_SIZE {
                None
            } else {
                Some(
                    Machine {
                        memory: Seq::new(
                            m.memory.len(),
                            |a: int|
                                if m.i <= a <= m.i + x {
                                    m.v[a - m.i]
                                } else {
                                    m.memory[a]
                                },
                        ),
                        i: (m.i + x + 1) as u16,
                        ..m
                    },
                )
            }
        },
        Instruction::LoadRegs { x } => {
            if m.i + x + 1 > RIP8_MEMORY_SIZE {
                None
            } else {
                Some(
                    Machine {
                        v: Seq::new(
                            m.v.len(),
                            |r: int|
                                if r <= x {
                                    m.memory[m.i + r]
                                } else {
                                    m.v[r]
                                },
                        ),
                        i: (m.i + x + 1) as u16,
                        ..m
                    },
                )
            }
        },
    }
}

/// The big-endian instruction word at the program counter.
pub open spec fn fetch_word(m: Machine) -> u16 {
    (m.memory[m.pc as int] * 0x100 + m.memory[m.pc + 1]) as u16
}

/// The state after `nanos` nanoseconds pass: each full sixtieth of a second,
/// counting what was left over before, takes one off each timer.
pub open spec fn advance_timers(m: Machine, nanos: u64) -> Machine {
    let ticks = ticks_due(m.carry, nanos as int);
    Machine {
        dt: count_down(m.dt, ticks),
        st: count_down(m.st, ticks),
        carry: carry_after(m.carry, nanos as int),
        ..m
    }
}

/// The result of one step after `nanos` nanoseconds, with `rnd` as the random
/// byte: the timers advance; a machine that waits for a key stays as it is
/// otherwise; else the word at the program counter is fetched, the counter
/// moves past it and the instruction runs. The flag is false when the machine
/// halts: the word lies past the end of memory, encodes no instruction, or
/// its instruction faults.
pub open spec fn step_spec(m: Machine, nanos: u64, rnd: u8) -> (Machine, bool) {
    let t = advance_timers(m, nanos);
    if t.awaiting_input {
        (t, true)
    } else if t.pc + 1 >= RIP8_MEMORY_SIZE {
        (t, false)
    } else {
        let fetched = Machine { pc: (t.pc + 2) as u16, ..t };
        match decode_spec(fetch_word(t)) {
            None => (fetched, false),
            Some(ins) => match execute_spec(fetched, ins, rnd) {
                Some(next) => (next, true),
                None => (fetched, false),
            },
        }
    }
}

/// The step after `nanos` nanoseconds executes a `Rnd` instruction, and so
/// draws a random byte.
pub open spec fn draws_random(m: Machine, nanos: u64) -> bool {
    let t = advance_timers(m, nanos);
    &&& !t.awaiting_input
    &&& t.pc + 1 < RIP8_MEMORY_SIZE
    &&& decode_spec(fetch_word(t)) matches Some(Instruction::Rnd { .. })
}

/// The state after key `k` is reported down or up. Keys outside 0 to 15 are
/// ignored. A key that was down and is now up ends a wait for a key, and the
/// waiting register receives the key's index.
pub open spec fn keydown_spec(m: Machine, k: int, down: bool) -> Machine {
    if 0 <= k < RIP8_KEY_COUNT {
        let released = m.keyboard[k] && !down && m.awaiting_input;
        let m1 = if released {
            Machine { awaiting_input: false, ..m }.with_v(m.awaiter_index, k as u8)
        } else {
            m
        };
        Machine { keyboard: m1.keyboard.update(k, down), ..m1 }
    } else {
        m
    }
}

/// A fresh machine over the memory image `memory` that starts at `start`.
/// The registers and the index register start at 0xFF, not 0.
pub open spec fn initial_machine(memory: Seq<u8>, start: u16) -> Machine {
    Machine {
        pc: start,
        memory,
        stack: Seq::empty(),
        v: Seq::new(RIP8_REGISTER_COUNT as nat, |_r: int| 0xffu8),
        i: 0xff,
        display: Seq::new(RIP8_DISPLAY_SIZE as nat, |_b: int| 0u8),
        keyboard: Seq::new(RIP8_KEY_COUNT as nat, |_k: int| false),
        dt: 0,
        st: 0,
        awaiting_input: false,
        awaiter_index: 0,
        carry: 0,
    }
}

/// The memory image for `rom` loaded at `load`: the font from address 0, the
/// filler byte up to `load`, the program, then the filler byte to the end.
pub open spec fn rom_image(rom: Seq<u8>, load: int) -> Seq<u8> {
    Seq::new(
        RIP8_MEMORY_SIZE as nat,
        |a: int|
            if a < load && a < RIP8_FONT_SIZE {
                font_glyphs()[a]
            } else if a < load {
                FILLER
            } else if a < load + rom.len() {
                rom[a - load]
            } else {
                FILLER
            },
    )
}

} // verus!
