//! The machine state model: the error taxonomy, the mathematical machine
//! state, the power-on configuration and the specification of the lifecycle
//! operations (push, pop, timer tick, key update, ROM load).

use vstd::prelude::*;

verus! {

/// Number of addressable memory bytes.
pub const RAM_SIZE: usize = 4096;
/// Framebuffer width in pixels.
pub const SCREEN_WIDTH: usize = 64;
/// Framebuffer height in pixels.
pub const SCREEN_HEIGHT: usize = 32;
/// Number of framebuffer cells.
pub const SCREEN_CELLS: usize = 2048;
/// Number of general registers.
pub const NUM_REGS: usize = 16;
/// Number of call-stack slots.
pub const STACK_SIZE: usize = 16;
/// Number of keypad keys.
pub const NUM_KEYS: usize = 16;
/// Address at which a loaded program begins.
pub const START_ADDRESS: u16 = 0x200;
/// Number of bytes of the built-in font set (16 glyphs of 5 bytes).
pub const FONTSET_SIZE: usize = 80;
/// Largest program payload that fits between the start address and the end of memory.
pub const MAX_ROM_LEN: usize = 3584;

/// Every checked condition the engine reports instead of faulting.
#[derive(Clone, Copy, PartialEq, Eq, Debug, Structural)]
pub enum Chip8Error {
    /// An opcode pattern outside the supported instruction set, with the
    /// raw opcode and the program counter at the time of fetch.
    UnimplementedOpcode { opcode: u16, pc: u16 },
    /// A read or write through the program counter or index register that
    /// would fall outside memory; the offending address is reported.
    MemoryAccessViolation { address: u32 },
    /// A subroutine call when all stack slots are in use.
    StackOverflow,
    /// A subroutine return when the stack is empty.
    StackUnderflow,
    /// A ROM payload too large for the memory past the start address.
    CapacityExceeded,
    /// A key index outside the keypad range.
    InvalidKeyIndex,
}

/// The mathematical model of the whole machine state.
#[verifier::ext_equal]
pub ghost struct MachineState {
    /// Program counter; always the address of the next instruction.
    pub pc: int,
    /// The 4096 memory bytes.
    pub ram: Seq<u8>,
    /// The 64x32 framebuffer, row-major.
    pub screen: Seq<bool>,
    /// The sixteen general registers; index 15 is the flag register.
    pub v: Seq<u8>,
    /// Index register.
    pub i: int,
    /// Stack pointer: number of call-stack slots in use.
    pub sp: int,
    /// The sixteen call-stack slots.
    pub stack: Seq<u16>,
    /// Pressed state of the sixteen keys.
    pub keys: Seq<bool>,
    /// Delay timer.
    pub dt: u8,
    /// Sound timer.
    pub st: u8,
}

impl MachineState {
    /// Well-formedness: the fixed capacities, and the register ranges that
    /// every operation preserves.
    pub open spec fn wf(self) -> bool {
        &&& self.ram.len() == 4096
        &&& self.screen.len() == 2048
        &&& self.v.len() == 16
        &&& self.stack.len() == 16
        &&& self.keys.len() == 16
        &&& 0 <= self.pc < 0x10000
        &&& 0 <= self.i < 0x10000
        &&& 0 <= self.sp <= 16
    }
}

/// The built-in font set: sixteen glyphs of five bytes each.
pub open spec fn font_seq() -> Seq<u8> {
    seq![
        0xF0u8, 0x90, 0x90, 0x90, 0xF0, // 0
        0x20, 0x60, 0x20, 0x20, 0x70, // 1
        0xF0, 0x10, 0xF0, 0x80, 0xF0, // 2
        0xF0, 0x10, 0xF0, 0x10, 0xF0, // 3
        0x90, 0x90, 0xF0, 0x10, 0x10, // 4
        0xF0, 0x80, 0xF0, 0x10, 0xF0, // 5
        0xF0, 0x80, 0xF0, 0x90, 0xF0, // 6
        0xF0, 0x10, 0x20, 0x40, 0x40, // 7
        0xF0, 0x90, 0xF0, 0x90, 0xF0, // 8
        0xF0, 0x90, 0xF0, 0x10, 0xF0, // 9
        0xF0, 0x90, 0xF0, 0x90, 0x90, // A
        0xE0, 0x90, 0xE0, 0x90, 0xE0, // B
        0xF0, 0x80, 0x80, 0x80, 0xF0, // C
        0xE0, 0x90, 0x90, 0x90, 0xE0, // D
        0xF0, 0x80, 0xF0, 0x80, 0xF0, // E
        0xF0, 0x80, 0xF0, 0x80, 0x80, // F
    ]
}

/// Memory at power-on: the font set in the low bytes, zero elsewhere.
pub open spec fn power_on_ram() -> Seq<u8> {
    Seq::new(4096, |a: int| if a < 80 { font_seq()[a] } else { 0u8 })
}

/// The power-on configuration: program counter at the start address, font
/// installed, everything else zeroed.
pub open spec fn power_on_state() -> MachineState {
    MachineState {
        pc: 0x200,
        ram: power_on_ram(),
        screen: Seq::new(2048, |p: int| false),
        v: Seq::new(16, |k: int| 0u8),
        i: 0,
        sp: 0,
        stack: Seq::new(16, |k: int| 0u16),
        keys: Seq::new(16, |k: int| false),
        dt: 0,
        st: 0,
    }
}

/// State after a push: one more slot in use, the value in the slot the old
/// stack pointer named.
pub open spec fn spec_push(s: MachineState, val: u16) -> MachineState {
    MachineState { sp: s.sp + 1, stack: s.stack.update(s.sp, val), ..s }
}

/// State after a pop, with the value handed back.
pub open spec fn spec_pop(s: MachineState) -> (MachineState, u16) {
    (MachineState { sp: s.sp - 1, ..s }, s.stack[s.sp - 1])
}

/// State after one timer tick: each timer decremented if nonzero.
pub open spec fn spec_tick_timers(s: MachineState) -> MachineState {
    MachineState {
        dt: if s.dt > 0 { (s.dt - 1) as u8 } else { 0u8 },
        st: if s.st > 0 { (s.st - 1) as u8 } else { 0u8 },
        ..s
    }
}

/// State after recording the state of one key.
pub open spec fn spec_set_key(s: MachineState, idx: int, pressed: bool) -> MachineState {
    MachineState { keys: s.keys.update(idx, pressed), ..s }
}

/// Memory after a ROM load: the payload copied in at the start address,
/// every other byte (the font region included) untouched.
pub open spec fn spec_load(s: MachineState, data: Seq<u8>) -> MachineState {
    MachineState {
        ram: Seq::new(
            4096,
            |a: int| if 0x200 <= a < 0x200 + data.len() {
                data[a - 0x200]
            } else {
                s.ram[a]
            },
        ),
        ..s
    }
}

} // verus!
