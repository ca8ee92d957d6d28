//! A verified CHIP-8-class virtual machine: fixed memory, sixteen 8-bit
//! registers, a call stack, a monochrome framebuffer, two countdown timers and
//! a 16-key keypad, driven by a fetch-decode-execute cycle whose bit-level
//! semantics are stated as contracts over a mathematical machine model.

pub mod state;
pub mod isa;
pub mod machine;
pub mod laws;
pub mod rng;

pub use state::Chip8Error;
pub use machine::Emu;
