//! An interpreter for the CHIP-8 virtual machine: memory, registers, call
//! stack, a packed monochrome framebuffer, two 60 Hz countdown timers and the
//! edge-triggered "wait for a key" instruction, driven one step at a time by a
//! host loop that supplies elapsed time and key states.

pub mod layout;
pub mod decode;
pub mod display;
pub mod timers;
pub mod model;
pub mod rip8;
pub mod laws;

pub use layout::{
    RIP8_DISPLAY_HEIGHT, RIP8_DISPLAY_SIZE, RIP8_DISPLAY_WIDTH, RIP8_FONT_SIZE, RIP8_KEY_COUNT,
    RIP8_MEMORY_SIZE, RIP8_REGISTER_COUNT, RIP8_ROM_START, RIP8_STACK_MAX_SIZE,
};
pub use decode::{decode, Instruction};
pub use timers::{NANOS_PER_SECOND, TICKS_PER_SECOND};
pub use rip8::Rip8;
