//! The machine itself: the verified executable state, its lifecycle and
//! boundary accessors, and the fetch-decode-execute engine, each operation
//! proved equal to the specification transition of `crate::isa`.

use vstd::prelude::*;

use crate::isa::coll_upto;
use crate::isa::covers_upto;
use crate::isa::draw_collision;
use crate::isa::draw_screen;
use crate::isa::first_pressed_from;
use crate::isa::lemma_coll_empty;
use crate::isa::lemma_coll_row;
use crate::isa::lemma_coll_step;
use crate::isa::lemma_covers_empty;
use crate::isa::lemma_covers_row;
use crate::isa::lemma_covers_step;
use crate::isa::lemma_low_nibble;
use crate::isa::lemma_not_covered_before;
use crate::isa::lemma_op_bounds;
use crate::isa::lemma_pix_bound;
use crate::isa::spec_after_fetch;
use crate::isa::spec_bcd;
use crate::isa::spec_clear;
use crate::isa::spec_draw;
use crate::isa::spec_execute;
use crate::isa::spec_fetch_ok;
use crate::isa::spec_load_regs;
use crate::isa::spec_opcode;
use crate::isa::spec_step;
use crate::isa::spec_store_regs;
use crate::isa::spec_wait_key;
use crate::isa::step_matches;
use crate::state::font_seq;
use crate::state::power_on_ram;
use crate::state::power_on_state;
use crate::state::spec_load;
use crate::state::spec_pop;
use crate::state::spec_push;
use crate::state::spec_set_key;
use crate::state::spec_tick_timers;
use crate::state::Chip8Error;
use crate::state::MachineState;
use crate::state::FONTSET_SIZE;
use crate::state::MAX_ROM_LEN;
use crate::state::NUM_KEYS;
use crate::state::NUM_REGS;
use crate::state::RAM_SIZE;
use crate::state::SCREEN_CELLS;
use crate::state::STACK_SIZE;
use crate::state::START_ADDRESS;

verus! {

/// The machine: one instance owns all mutable state of an emulation session.
pub struct Emu {
    pub(crate) pc: u16,
    pub(crate) ram: Vec<u8>,
    pub(crate) screen: Vec<bool>,
    pub(crate) v_reg: Vec<u8>,
    pub(crate) i_reg: u16,
    pub(crate) sp: u16,
    pub(crate) stack: Vec<u16>,
    pub(crate) keys: Vec<bool>,
    pub(crate) dt: u8,
    pub(crate) st: u8,
}

impl View for Emu {
    type V = MachineState;

    closed spec fn view(&self) -> MachineState {
        MachineState {
            pc: self.pc as int,
            ram: self.ram@,
            screen: self.screen@,
            v: self.v_reg@,
            i: self.i_reg as int,
            sp: self.sp as int,
            stack: self.stack@,
            keys: self.keys@,
            dt: self.dt,
            st: self.st,
        }
    }
}

/// A vector of `len` copies of `val`.
pub(crate) fn filled<T: Copy>(len: usize, val: T) -> (r: Vec<T>)
    ensures
        r@ == Seq::new(len as nat, |k: int| val),
{
    let mut r: Vec<T> = Vec::new();
    let mut k: usize = 0;
    while k < len
        invariant
            k <= len,
            r@.len() == k,
            forall|j: int| 0 <= j < k ==> r@[j] == val,
        decreases len - k,
    {
        r.push(val);
        k += 1;
    }
    proof {
        assert(r@ =~= Seq::new(len as nat, |j: int| val));
    }
    r
}

/// The font set as bytes.
#[verifier::rlimit(100)]
fn font_data() -> (r: Vec<u8>)
    ensures
        r@ == font_seq(),
{
    let mut r: Vec<u8> = Vec::new();
    r.push(0xF0); r.push(0x90); r.push(0x90); r.push(0x90); r.push(0xF0);
    r.push(0x20); r.push(0x60); r.push(0x20); r.push(0x20); r.push(0x70);
    r.push(0xF0); r.push(0x10); r.push(0xF0); r.push(0x80); r.push(0xF0);
    r.push(0xF0); r.push(0x10); r.push(0xF0); r.push(0x10); r.push(0xF0);
    r.push(0x90); r.push(0x90); r.push(0xF0); r.push(0x10); r.push(0x10);
    r.push(0xF0); r.push(0x80); r.push(0xF0); r.push(0x10); r.push(0xF0);
    r.push(0xF0); r.push(0x80); r.push(0xF0); r.push(0x90); r.push(0xF0);
    r.push(0xF0); r.push(0x10); r.push(0x20); r.push(0x40); r.push(0x40);
    r.push(0xF0); r.push(0x90); r.push(0xF0); r.push(0x90); r.push(0xF0);
    r.push(0xF0); r.push(0x90); r.push(0xF0); r.push(0x10); r.push(0xF0);
    r.push(0xF0); r.push(0x90); r.push(0xF0); r.push(0x90); r.push(0x90);
    r.push(0xE0); r.push(0x90); r.push(0xE0); r.push(0x90); r.push(0xE0);
    r.push(0xF0); r.push(0x80); r.push(0x80); r.push(0x80); r.push(0xF0);
    r.push(0xE0); r.push(0x90); r.push(0x90); r.push(0x90); r.push(0xE0);
    r.push(0xF0); r.push(0x80); r.push(0xF0); r.push(0x80); r.push(0xF0);
    r.push(0xF0); r.push(0x80); r.push(0xF0); r.push(0x80); r.push(0x80);
    proof {
        assert(r@ =~= font_seq());
    }
    r
}

/// Memory in its power-on configuration.
fn power_on_ram_vec() -> (r: Vec<u8>)
    ensures
        r@ == power_on_ram(),
{
    let mut r: Vec<u8> = filled(RAM_SIZE, 0u8);
    let font = font_data();
    let mut k: usize = 0;
    while k < FONTSET_SIZE
        invariant
            k <= 80,
            r@.len() == 4096,
            font@ == font_seq(),
            forall|a: int| 0 <= a < k ==> r@[a] == font_seq()[a],
            forall|a: int| k <= a < 4096 ==> r@[a] == 0u8,
        decreases 80 - k,
    {
        r.set(k, font[k]);
        k += 1;
    }
    proof {
        assert(r@ =~= power_on_ram());
    }
    r
}

impl Emu {
    /// A machine in its power-on configuration.
    pub fn new() -> (r: Emu)
        ensures
            r@ == power_on_state(),
            r@.wf(),
    {
        let mut e = Emu {
            pc: 0,
            ram: Vec::new(),
            screen: Vec::new(),
            v_reg: Vec::new(),
            i_reg: 0,
            sp: 0,
            stack: Vec::new(),
            keys: Vec::new(),
            dt: 0,
            st: 0,
        };
        e.reset();
        e
    }

    /// Restores the power-on configuration, the font set included, exactly as
    /// a freshly constructed machine has it.
    pub fn reset(&mut self)
        ensures
            final(self)@ == power_on_state(),
            final(self)@.wf(),
    {
        self.pc = START_ADDRESS;
        self.ram = power_on_ram_vec();
        self.screen = filled(SCREEN_CELLS, false);
        self.v_reg = filled(NUM_REGS, 0u8);
        self.i_reg = 0;
        self.sp = 0;
        self.stack = filled(STACK_SIZE, 0u16);
        self.keys = filled(NUM_KEYS, false);
        self.dt = 0;
        self.st = 0;
        proof {
            assert(self@ =~= power_on_state());
        }
    }

    /// Pushes a return address; reports an overflow when all slots are in use,
    /// leaving the state untouched.
    pub fn push(&mut self, val: u16) -> (r: Result<(), Chip8Error>)
        requires
            old(self)@.wf(),
        ensures
            final(self)@.wf(),
            old(self)@.sp < 16 ==> r == Ok::<(), Chip8Error>(()) && final(self)@ == spec_push(
                old(self)@,
                val,
            ),
            old(self)@.sp == 16 ==> r == Err::<(), Chip8Error>(Chip8Error::StackOverflow)
                && final(self)@ == old(self)@,
    {
        if self.sp >= 16 {
            return Err(Chip8Error::StackOverflow);
        }
        self.stack.set(self.sp as usize, val);
        self.sp = self.sp + 1;
        Ok(())
    }

    /// Pops the most recent return address; reports an underflow on an empty
    /// stack, leaving the state untouched.
    pub fn pop(&mut self) -> (r: Result<u16, Chip8Error>)
        requires
            old(self)@.wf(),
        ensures
            final(self)@.wf(),
            old(self)@.sp > 0 ==> r == Ok::<u16, Chip8Error>(spec_pop(old(self)@).1)
                && final(self)@ == spec_pop(old(self)@).0,
            old(self)@.sp == 0 ==> r == Err::<u16, Chip8Error>(Chip8Error::StackUnderflow)
                && final(self)@ == old(self)@,
    {
        if self.sp == 0 {
            return Err(Chip8Error::StackUnderflow);
        }
        self.sp = self.sp - 1;
        Ok(self.stack[self.sp as usize])
    }

    /// One timer tick: decrements each nonzero timer. Returns the tone-stop
    /// event: true exactly when this tick brings the sound timer to zero.
    pub fn tick_timers(&mut self) -> (tone_stop: bool)
        ensures
            final(self)@ == spec_tick_timers(old(self)@),
            tone_stop == (old(self)@.st == 1),
    {
        if self.dt > 0 {
            self.dt = self.dt - 1;
        }
        let mut tone_stop = false;
        if self.st > 0 {
            self.st = self.st - 1;
            if self.st == 0 {
                tone_stop = true;
            }
        }
        tone_stop
    }

    /// Read-only view of the 64x32 framebuffer, row-major.
    pub fn get_display(&self) -> (r: &Vec<bool>)
        ensures
            r@ == self@.screen,
    {
        &self.screen
    }

    /// Records the pressed state of key `idx`; an index outside the keypad is
    /// reported and the state left untouched.
    pub fn key_press(&mut self, idx: usize, pressed: bool) -> (r: Result<(), Chip8Error>)
        requires
            old(self)@.wf(),
        ensures
            final(self)@.wf(),
            idx < 16 ==> r == Ok::<(), Chip8Error>(()) && final(self)@ == spec_set_key(
                old(self)@,
                idx as int,
                pressed,
            ),
            idx >= 16 ==> r == Err::<(), Chip8Error>(Chip8Error::InvalidKeyIndex) && final(self)@
                == old(self)@,
    {
        if idx >= NUM_KEYS {
            return Err(Chip8Error::InvalidKeyIndex);
        }
        self.keys.set(idx, pressed);
        Ok(())
    }

    /// Copies a ROM payload into memory at the start address; a payload that
    /// would run past the end of memory is rejected and memory left untouched.
    pub fn load(&mut self, data: &[u8]) -> (r: Result<(), Chip8Error>)
        requires
            old(self)@.wf(),
        ensures
            final(self)@.wf(),
            data@.len() <= 3584 ==> r == Ok::<(), Chip8Error>(()) && final(self)@ == spec_load(
                old(self)@,
                data@,
            ),
            data@.len() > 3584 ==> r == Err::<(), Chip8Error>(Chip8Error::CapacityExceeded)
                && final(self)@ == old(self)@,
    {
        if data.len() > MAX_ROM_LEN {
            return Err(Chip8Error::CapacityExceeded);
        }
        let n = data.len();
        let mut k: usize = 0;
        while k < n
            invariant
                old(self)@.wf(),
                n == data@.len(),
                n <= 3584,
                k <= n,
                self@.ram.len() == 4096,
                forall|a: int| 512 <= a < 512 + k ==> self@.ram[a] == data@[a - 512],
                forall|a: int|
                    0 <= a < 4096 && !(512 <= a < 512 + k) ==> self@.ram[a] == old(self)@.ram[a],
                self@.pc == old(self)@.pc,
                self@.screen == old(self)@.screen,
                self@.v == old(self)@.v,
                self@.i == old(self)@.i,
                self@.sp == old(self)@.sp,
                self@.stack == old(self)@.stack,
                self@.keys == old(self)@.keys,
                self@.dt == old(self)@.dt,
                self@.st == old(self)@.st,
            decreases n - k,
        {
            let b = data[k];
            self.ram.set(512 + k, b);
            k += 1;
        }
        proof {
            assert(self@ =~= spec_load(old(self)@, data@));
        }
        Ok(())
    }

    /// The program counter.
    pub fn get_pc(&self) -> (r: u16)
        ensures
            r as int == self@.pc,
    {
        self.pc
    }

    /// The index register.
    pub fn get_i(&self) -> (r: u16)
        ensures
            r as int == self@.i,
    {
        self.i_reg
    }

    /// The stack pointer: the number of call-stack slots in use.
    pub fn get_sp(&self) -> (r: u16)
        ensures
            r as int == self@.sp,
    {
        self.sp
    }

    /// General register `x`.
    pub fn get_v(&self, x: usize) -> (r: u8)
        requires
            self@.wf(),
            x < 16,
        ensures
            r == self@.v[x as int],
    {
        self.v_reg[x]
    }

    /// The memory byte at `addr`.
    pub fn get_ram(&self, addr: usize) -> (r: u8)
        requires
            self@.wf(),
            addr < 4096,
        ensures
            r == self@.ram[addr as int],
    {
        self.ram[addr]
    }

    /// The delay timer.
    pub fn get_delay_timer(&self) -> (r: u8)
        ensures
            r == self@.dt,
    {
        self.dt
    }

    /// The sound timer.
    pub fn get_sound_timer(&self) -> (r: u8)
        ensures
            r == self@.st,
    {
        self.st
    }

    /// The recorded pressed state of key `idx`.
    pub fn get_key(&self, idx: usize) -> (r: bool)
        requires
            self@.wf(),
            idx < 16,
        ensures
            r == self@.keys[idx as int],
    {
        self.keys[idx]
    }

    /// Reads the two instruction bytes at the program counter, assembles them
    /// big-endian and advances the counter past them; refused with the state
    /// untouched when either byte lies outside memory.
    fn fetch(&mut self) -> (r: Result<u16, Chip8Error>)
        requires
            old(self)@.wf(),
        ensures
            final(self)@.wf(),
            spec_fetch_ok(old(self)@) ==> r == Ok::<u16, Chip8Error>(spec_opcode(old(self)@))
                && final(self)@ == spec_after_fetch(old(self)@),
            !spec_fetch_ok(old(self)@) ==> r == Err::<u16, Chip8Error>(
                Chip8Error::MemoryAccessViolation { address: (old(self)@.pc + 1) as u32 },
            ) && final(self)@ == old(self)@,
    {
        if self.pc as u32 + 1 >= 4096 {
            return Err(Chip8Error::MemoryAccessViolation { address: self.pc as u32 + 1 });
        }
        let hi: u16 = self.ram[self.pc as usize] as u16;
        let lo: u16 = self.ram[self.pc as usize + 1] as u16;
        let op: u16 = (hi << 8u16) | lo;
        self.pc = self.pc + 2;
        Ok(op)
    }

    /// The sprite-draw operation.
    fn op_draw(&mut self, x: usize, y: usize, n: usize) -> (r: Option<Chip8Error>)
        requires
            old(self)@.wf(),
            x < 16,
            y < 16,
            n < 16,
        ensures
            final(self)@.wf(),
            final(self)@ == spec_draw(old(self)@, x as int, y as int, n as int).0,
            r == spec_draw(old(self)@, x as int, y as int, n as int).1,
    {
        if n > 0 {
            let end: u32 = self.i_reg as u32 + n as u32;
            if end > 4096 {
                return Some(Chip8Error::MemoryAccessViolation { address: end - 1 });
            }
        }
        let ghost s0 = self@;
        let vx: u8 = self.v_reg[x];
        let vy: u8 = self.v_reg[y];
        let mut flipped: bool = false;
        let mut row: usize = 0;
        proof {
            lemma_coll_empty(s0.screen, s0.ram, s0.i, vx, vy);
            assert forall|p: int| 0 <= p < 2048 implies s0.screen[p] == (s0.screen[p]
                != covers_upto(s0.ram, s0.i, vx, vy, 0, 0, p)) by {
                lemma_covers_empty(s0.ram, s0.i, vx, vy, p);
            }
        }
        while row < n
            invariant
                s0.wf(),
                x < 16,
                y < 16,
                n < 16,
                row <= n,
                n > 0 ==> s0.i + n <= 4096,
                vx == s0.v[x as int],
                vy == s0.v[y as int],
                self@.pc == s0.pc,
                self@.ram == s0.ram,
                self@.v == s0.v,
                self@.i == s0.i,
                self@.sp == s0.sp,
                self@.stack == s0.stack,
                self@.keys == s0.keys,
                self@.dt == s0.dt,
                self@.st == s0.st,
                self@.screen.len() == 2048,
                forall|p: int|
                    0 <= p < 2048 ==> self@.screen[p] == (s0.screen[p] != covers_upto(
                        s0.ram,
                        s0.i,
                        vx,
                        vy,
                        row as int,
                        0,
                        p,
                    )),
                flipped == coll_upto(s0.screen, s0.ram, s0.i, vx, vy, row as int, 0),
            decreases n - row,
        {
            let pixels: u8 = self.ram[self.i_reg as usize + row];
            let mut col: usize = 0;
            while col < 8
                invariant
                    s0.wf(),
                    x < 16,
                    y < 16,
                    n < 16,
                    row < n,
                    col <= 8,
                    n > 0 ==> s0.i + n <= 4096,
                    vx == s0.v[x as int],
                    vy == s0.v[y as int],
                    pixels == s0.ram[s0.i + row],
                    self@.pc == s0.pc,
                    self@.ram == s0.ram,
                    self@.v == s0.v,
                    self@.i == s0.i,
                    self@.sp == s0.sp,
                    self@.stack == s0.stack,
                    self@.keys == s0.keys,
                    self@.dt == s0.dt,
                    self@.st == s0.st,
                    self@.screen.len() == 2048,
                    forall|p: int|
                        0 <= p < 2048 ==> self@.screen[p] == (s0.screen[p] != covers_upto(
                            s0.ram,
                            s0.i,
                            vx,
                            vy,
                            row as int,
                            col as int,
                            p,
                        )),
                    flipped == coll_upto(s0.screen, s0.ram, s0.i, vx, vy, row as int, col as int),
                decreases 8 - col,
            {
                if pixels & (0x80u8 >> (col as u8)) != 0 {
                    let px: usize = (vx as usize + col) % 64;
                    let py: usize = (vy as usize + row) % 32;
                    let idx: usize = px + 64 * py;
                    proof {
                        lemma_pix_bound(vx, vy, row as int, col as int);
                        lemma_not_covered_before(s0.ram, s0.i, vx, vy, row as int, col as int);
                    }
                    let prev: bool = self.screen[idx];
                    flipped = flipped || prev;
                    self.screen.set(idx, !prev);
                    proof {
                        let r = row as int;
                        let c = col as int;
                        lemma_coll_step(s0.screen, s0.ram, s0.i, vx, vy, r, c);
                        assert forall|p: int| 0 <= p < 2048 implies self@.screen[p] == (
                        s0.screen[p] != covers_upto(s0.ram, s0.i, vx, vy, r, c + 1, p)) by {
                            lemma_covers_step(s0.ram, s0.i, vx, vy, r, c, p);
                        }
                    }
                } else {
                    proof {
                        let r = row as int;
                        let c = col as int;
                        lemma_coll_step(s0.screen, s0.ram, s0.i, vx, vy, r, c);
                        assert forall|p: int| 0 <= p < 2048 implies self@.screen[p] == (
                        s0.screen[p] != covers_upto(s0.ram, s0.i, vx, vy, r, c + 1, p)) by {
                            lemma_covers_step(s0.ram, s0.i, vx, vy, r, c, p);
                        }
                    }
                }
                col += 1;
            }
            proof {
                let r = row as int;
                lemma_coll_row(s0.screen, s0.ram, s0.i, vx, vy, r);
                assert forall|p: int| 0 <= p < 2048 implies self@.screen[p] == (s0.screen[p]
                    != covers_upto(s0.ram, s0.i, vx, vy, r + 1, 0, p)) by {
                    lemma_covers_row(s0.ram, s0.i, vx, vy, r, p);
                }
            }
            row += 1;
        }
        let flag: u8 = if flipped {
            1
        } else {
            0
        };
        self.v_reg.set(15, flag);
        proof {
            assert(self@.screen =~= draw_screen(s0.screen, s0.ram, s0.i, vx, vy, n as int));
            assert(flipped == draw_collision(s0.screen, s0.ram, s0.i, vx, vy, n as int));
        }
        None
    }

    /// The wait-for-key operation: the ascending scan of the keypad.
    fn op_wait_key(&mut self, x: usize)
        requires
            old(self)@.wf(),
            x < 16,
            old(self)@.pc >= 2,
        ensures
            final(self)@.wf(),
            final(self)@ == spec_wait_key(old(self)@, x as int),
    {
        let mut kidx: usize = 0;
        while kidx < 16
            invariant
                old(self)@.wf(),
                x < 16,
                kidx <= 16,
                self@ == old(self)@,
                first_pressed_from(old(self)@.keys, 0) == first_pressed_from(
                    old(self)@.keys,
                    kidx as int,
                ),
            decreases 16 - kidx,
        {
            if self.keys[kidx] {
                self.v_reg.set(x, kidx as u8);
                return;
            }
            kidx += 1;
        }
        self.pc = self.pc - 2;
    }

    /// The binary-coded-decimal operation.
    fn op_bcd(&mut self, x: usize) -> (r: Option<Chip8Error>)
        requires
            old(self)@.wf(),
            x < 16,
        ensures
            final(self)@.wf(),
            final(self)@ == spec_bcd(old(self)@, x as int).0,
            r == spec_bcd(old(self)@, x as int).1,
    {
        if self.i_reg as u32 + 2 >= 4096 {
            return Some(Chip8Error::MemoryAccessViolation { address: self.i_reg as u32 + 2 });
        }
        let i: usize = self.i_reg as usize;
        let vx: u8 = self.v_reg[x];
        self.ram.set(i, vx / 100);
        self.ram.set(i + 1, (vx / 10) % 10);
        self.ram.set(i + 2, vx % 10);
        None
    }

    /// The block-store operation.
    fn op_store_regs(&mut self, x: usize) -> (r: Option<Chip8Error>)
        requires
            old(self)@.wf(),
            x < 16,
        ensures
            final(self)@.wf(),
            final(self)@ == spec_store_regs(old(self)@, x as int).0,
            r == spec_store_regs(old(self)@, x as int).1,
    {
        if self.i_reg as u32 + x as u32 >= 4096 {
            return Some(
                Chip8Error::MemoryAccessViolation { address: self.i_reg as u32 + x as u32 },
            );
        }
        let ghost s0 = self@;
        let i: usize = self.i_reg as usize;
        let mut k: usize = 0;
        while k <= x
            invariant
                s0.wf(),
                x < 16,
                k <= x + 1,
                i == s0.i,
                s0.i + x < 4096,
                self@.ram.len() == 4096,
                forall|a: int| i <= a < i + k ==> self@.ram[a] == s0.v[a - i],
                forall|a: int|
                    0 <= a < 4096 && !(i <= a < i + k) ==> self@.ram[a] == s0.ram[a],
                self@.pc == s0.pc,
                self@.screen == s0.screen,
                self@.v == s0.v,
                self@.i == s0.i,
                self@.sp == s0.sp,
                self@.stack == s0.stack,
                self@.keys == s0.keys,
                self@.dt == s0.dt,
                self@.st == s0.st,
            decreases x + 1 - k,
        {
            let val: u8 = self.v_reg[k];
            self.ram.set(i + k, val);
            k += 1;
        }
        proof {
            let target = spec_store_regs(s0, x as int).0.ram;
            assert forall|a: int| 0 <= a < 4096 implies self@.ram[a] == target[a] by {}
            assert(self@.ram =~= target);
        }
        None
    }

    /// The block-load operation.
    fn op_load_regs(&mut self, x: usize) -> (r: Option<Chip8Error>)
        requires
            old(self)@.wf(),
            x < 16,
        ensures
            final(self)@.wf(),
            final(self)@ == spec_load_regs(old(self)@, x as int).0,
            r == spec_load_regs(old(self)@, x as int).1,
    {
        if self.i_reg as u32 + x as u32 >= 4096 {
            return Some(
                Chip8Error::MemoryAccessViolation { address: self.i_reg as u32 + x as u32 },
            );
        }
        let ghost s0 = self@;
        let i: usize = self.i_reg as usize;
        let mut k: usize = 0;
        while k <= x
            invariant
                s0.wf(),
                x < 16,
                k <= x + 1,
                i == s0.i,
                s0.i + x < 4096,
                self@.v.len() == 16,
                forall|j: int| 0 <= j < k ==> self@.v[j] == s0.ram[i + j],
                forall|j: int| k <= j < 16 ==> self@.v[j] == s0.v[j],
                self@.pc == s0.pc,
                self@.ram == s0.ram,
                self@.screen == s0.screen,
                self@.i == s0.i,
                self@.sp == s0.sp,
                self@.stack == s0.stack,
                self@.keys == s0.keys,
                self@.dt == s0.dt,
                self@.st == s0.st,
            decreases x + 1 - k,
        {
            let val: u8 = self.ram[i + k];
            self.v_reg.set(k, val);
            k += 1;
        }
        proof {
            let target = spec_load_regs(s0, x as int).0.v;
            assert forall|j: int| 0 <= j < 16 implies self@.v[j] == target[j] by {}
            assert(self@.v =~= target);
        }
        None
    }

    /// Decodes and executes one opcode over the post-fetch state. `pc0` is
    /// the program counter at the time of fetch, reported with an
    /// unimplemented opcode; `rnd` is the byte the random source supplied.
    fn execute(&mut self, op: u16, pc0: u16, rnd: u8) -> (r: Option<Chip8Error>)
        requires
            old(self)@.wf(),
            2 <= old(self)@.pc <= 4096,
        ensures
            final(self)@.wf(),
            final(self)@ == spec_execute(old(self)@, op, pc0, rnd).0,
            r == spec_execute(old(self)@, op, pc0, rnd).1,
    {
        proof {
            lemma_op_bounds(op);
        }
        let n1: u16 = op >> 12;
        let n3: u16 = (op >> 4) & 0xF;
        let n4: u16 = op & 0xF;
        let x: usize = ((op >> 8) & 0xF) as usize;
        let y: usize = ((op >> 4) & 0xF) as usize;
        let nn: u8 = (op & 0xFF) as u8;
        let nnn: u16 = op & 0xFFF;
        if op == 0x0000 {
            None
        } else if op == 0x00E0 {
            self.screen = filled(SCREEN_CELLS, false);
            proof {
                assert(self@.screen =~= spec_clear(old(self)@).screen);
            }
            None
        } else if op == 0x00EE {
            if self.sp == 0 {
                return Some(Chip8Error::StackUnderflow);
            }
            self.sp = self.sp - 1;
            self.pc = self.stack[self.sp as usize];
            None
        } else if n1 == 0x1 {
            self.pc = nnn;
            None
        } else if n1 == 0x2 {
            if self.sp == 16 {
                return Some(Chip8Error::StackOverflow);
            }
            let pc: u16 = self.pc;
            self.stack.set(self.sp as usize, pc);
            self.sp = self.sp + 1;
            self.pc = nnn;
            None
        } else if n1 == 0x3 {
            if self.v_reg[x] == nn {
                self.pc = self.pc + 2;
            }
            None
        } else if n1 == 0x4 {
            if self.v_reg[x] != nn {
                self.pc = self.pc + 2;
            }
            None
        } else if n1 == 0x5 && n4 == 0x0 {
            if self.v_reg[x] == self.v_reg[y] {
                self.pc = self.pc + 2;
            }
            None
        } else if n1 == 0x6 {
            self.v_reg.set(x, nn);
            None
        } else if n1 == 0x7 {
            let sum: u16 = self.v_reg[x] as u16 + nn as u16;
            self.v_reg.set(x, (sum % 256) as u8);
            None
        } else if n1 == 0x8 && n4 == 0x0 {
            let vy: u8 = self.v_reg[y];
            self.v_reg.set(x, vy);
            None
        } else if n1 == 0x8 && n4 == 0x1 {
            let val: u8 = self.v_reg[x] | self.v_reg[y];
            self.v_reg.set(x, val);
            None
        } else if n1 == 0x8 && n4 == 0x2 {
            let val: u8 = self.v_reg[x] & self.v_reg[y];
            self.v_reg.set(x, val);
            None
        } else if n1 == 0x8 && n4 == 0x3 {
            let val: u8 = self.v_reg[x] ^ self.v_reg[y];
            self.v_reg.set(x, val);
            None
        } else if n1 == 0x8 && n4 == 0x4 {
            let sum: u16 = self.v_reg[x] as u16 + self.v_reg[y] as u16;
            let carry: u8 = if sum > 255 {
                1
            } else {
                0
            };
            self.v_reg.set(x, (sum % 256) as u8);
            self.v_reg.set(15, carry);
            None
        } else if n1 == 0x8 && n4 == 0x5 {
            let a: u8 = self.v_reg[x];
            let b: u8 = self.v_reg[y];
            let diff: u8 = if a >= b {
                a - b
            } else {
                (a as u16 + 256 - b as u16) as u8
            };
            let flag: u8 = if a >= b {
                1
            } else {
                0
            };
            self.v_reg.set(x, diff);
            self.v_reg.set(15, flag);
            None
        } else if n1 == 0x8 && n4 == 0x6 {
            let a: u8 = self.v_reg[x];
            self.v_reg.set(x, a >> 1u8);
            self.v_reg.set(15, a & 1);
            None
        } else if n1 == 0x8 && n4 == 0x7 {
            let a: u8 = self.v_reg[x];
            let b: u8 = self.v_reg[y];
            let diff: u8 = if b >= a {
                b - a
            } else {
                (b as u16 + 256 - a as u16) as u8
            };
            let flag: u8 = if b >= a {
                1
            } else {
                0
            };
            self.v_reg.set(x, diff);
            self.v_reg.set(15, flag);
            None
        } else if n1 == 0x8 && n4 == 0xE {
            let a: u8 = self.v_reg[x];
            self.v_reg.set(x, a << 1u8);
            self.v_reg.set(15, (a >> 7u8) & 1);
            None
        } else if n1 == 0x9 && n4 == 0x0 {
            if self.v_reg[x] != self.v_reg[y] {
                self.pc = self.pc + 2;
            }
            None
        } else if n1 == 0xA {
            self.i_reg = nnn;
            None
        } else if n1 == 0xB {
            self.pc = self.v_reg[0] as u16 + nnn;
            None
        } else if n1 == 0xC {
            self.v_reg.set(x, rnd & nn);
            None
        } else if n1 == 0xD {
            self.op_draw(x, y, n4 as usize)
        } else if n1 == 0xE && n3 == 0x9 && n4 == 0xE {
            let vx: u8 = self.v_reg[x];
            proof {
                lemma_low_nibble(vx);
            }
            if self.keys[(vx & 0xF) as usize] {
                self.pc = self.pc + 2;
            }
            None
        } else if n1 == 0xE && n3 == 0xA && n4 == 0x1 {
            let vx: u8 = self.v_reg[x];
            proof {
                lemma_low_nibble(vx);
            }
            if !self.keys[(vx & 0xF) as usize] {
                self.pc = self.pc + 2;
            }
            None
        } else if n1 == 0xF && n3 == 0x0 && n4 == 0x7 {
            let dt: u8 = self.dt;
            self.v_reg.set(x, dt);
            None
        } else if n1 == 0xF && n3 == 0x0 && n4 == 0xA {
            self.op_wait_key(x);
            None
        } else if n1 == 0xF && n3 == 0x1 && n4 == 0x5 {
            self.dt = self.v_reg[x];
            None
        } else if n1 == 0xF && n3 == 0x1 && n4 == 0x8 {
            self.st = self.v_reg[x];
            None
        } else if n1 == 0xF && n3 == 0x1 && n4 == 0xE {
            let sum: u32 = self.i_reg as u32 + self.v_reg[x] as u32;
            self.i_reg = (sum % 0x10000) as u16;
            None
        } else if n1 == 0xF && n3 == 0x2 && n4 == 0x9 {
            let vx: u8 = self.v_reg[x];
            self.i_reg = ((vx & 0xF) as u16) * 5;
            proof {
                lemma_low_nibble(vx);
            }
            None
        } else if n1 == 0xF && n3 == 0x3 && n4 == 0x3 {
            self.op_bcd(x)
        } else if n1 == 0xF && n3 == 0x5 && n4 == 0x5 {
            self.op_store_regs(x)
        } else if n1 == 0xF && n3 == 0x6 && n4 == 0x5 {
            self.op_load_regs(x)
        } else {
            Some(Chip8Error::UnimplementedOpcode { opcode: op, pc: pc0 })
        }
    }

    /// One fetch-decode-execute cycle whose random byte the caller supplies:
    /// the injection point for a seedable generator, and deterministic, so a
    /// host replaying the same bytes reproduces a run exactly.
    pub fn tick_with_random(&mut self, rnd: u8) -> (r: Result<(), Chip8Error>)
        requires
            old(self)@.wf(),
        ensures
            final(self)@.wf(),
            final(self)@ == spec_step(old(self)@, rnd).0,
            r == spec_step(old(self)@, rnd).1,
    {
        let pc0: u16 = self.pc;
        let op: u16 = match self.fetch() {
            Ok(op) => op,
            Err(e) => {
                return Err(e);
            },
        };
        match self.execute(op, pc0, rnd) {
            Option::None => Ok(()),
            Option::Some(e) => Err(e),
        }
    }

    /// One fetch-decode-execute cycle, drawing the random instruction's byte
    /// from the process random source. The state afterwards is one step of
    /// the machine under some byte; everything else about the step holds
    /// whatever byte was drawn.
    pub fn tick(&mut self) -> (r: Result<(), Chip8Error>)
        requires
            old(self)@.wf(),
        ensures
            final(self)@.wf(),
            exists|rnd: u8| step_matches(old(self)@, rnd, final(self)@, r),
    {
        let rnd: u8 = rand::random();
        let r = self.tick_with_random(rnd);
        proof {
            assert(step_matches(old(self)@, rnd, self@, r));
        }
        r
    }
}

} // verus!
