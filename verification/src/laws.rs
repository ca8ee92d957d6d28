//! The general laws of the machine, each proved from the specification
//! transitions alone: stack round trips, the clear screen, the sprite XOR
//! involution, the conditional-skip distances, and the wait-for-key step.

use vstd::prelude::*;

use crate::isa::coll_upto;
use crate::isa::covers;
use crate::isa::first_pressed_from;
use crate::isa::imm8;
use crate::isa::lemma_first_pressed;
use crate::isa::nib1;
use crate::isa::nib2;
use crate::isa::nib3;
use crate::isa::nib4;
use crate::isa::pair_before;
use crate::isa::pix;
use crate::isa::spec_after_fetch;
use crate::isa::spec_draw;
use crate::isa::spec_execute;
use crate::isa::spec_fetch_ok;
use crate::isa::spec_opcode;
use crate::isa::spec_step;
use crate::isa::sprite_bit;
use crate::state::Chip8Error;
use crate::state::MachineState;
use crate::state::spec_pop;
use crate::state::spec_push;

verus! {

/// Pushing a value and then popping hands the value back and restores the
/// prior stack pointer, at every reachable depth; only the slot the push
/// wrote differs from the starting state.
pub proof fn lemma_push_pop(s: MachineState, val: u16)
    requires
        s.wf(),
        0 <= s.sp < 16,
    ensures
        spec_pop(spec_push(s, val)).1 == val,
        spec_pop(spec_push(s, val)).0.sp == s.sp,
        spec_pop(spec_push(s, val)).0 == (MachineState { stack: s.stack.update(s.sp, val), ..s }),
{
}

/// The clear-screen instruction turns every framebuffer cell off, whatever
/// the framebuffer held.
pub proof fn lemma_clear_screen(s: MachineState, pc0: u16, rnd: u8)
    ensures
        spec_execute(s, 0x00E0, pc0, rnd).1 is None,
        forall|p: int| 0 <= p < 2048 ==> !spec_execute(s, 0x00E0, pc0, rnd).0.screen[p],
{
}

/// Some set bit of the sprite lands on a framebuffer cell that is off.
pub open spec fn hits_clear_pixel(s: MachineState, x: int, y: int, n: int) -> bool {
    exists|p: int|
        0 <= p < 2048 && covers(s.ram, s.i, s.v[x], s.v[y], n, p) && !s.screen[p]
}

/// Drawing one sprite twice at the same coordinates restores the framebuffer
/// it started from, and the second draw reports a collision whenever some bit
/// of the sprite had landed on a cell that was off — that cell is on when the
/// second draw reaches it. (When every covered cell started out on, the first
/// draw turns them all off and the second reports none.) The coordinate
/// registers must not be the flag register, which the first draw overwrites.
pub proof fn lemma_draw_twice(s: MachineState, x: int, y: int, n: int)
    requires
        s.wf(),
        0 <= x < 16,
        0 <= y < 16,
        0 <= n < 16,
        x != 15,
        y != 15,
        n > 0 ==> s.i + n <= 4096,
    ensures
        spec_draw(s, x, y, n).1 is None,
        spec_draw(spec_draw(s, x, y, n).0, x, y, n).1 is None,
        spec_draw(spec_draw(s, x, y, n).0, x, y, n).0.screen == s.screen,
        hits_clear_pixel(s, x, y, n) ==> spec_draw(spec_draw(s, x, y, n).0, x, y, n).0.v[15]
            == 1,
{
    let s1 = spec_draw(s, x, y, n).0;
    let vx = s.v[x];
    let vy = s.v[y];
    assert(s1.v[x] == vx && s1.v[y] == vy);
    let s2 = spec_draw(s1, x, y, n).0;
    assert forall|p: int| 0 <= p < 2048 implies s2.screen[p] == s.screen[p] by {}
    assert(s2.screen =~= s.screen);
    if hits_clear_pixel(s, x, y, n) {
        let p = choose|p: int|
            0 <= p < 2048 && covers(s.ram, s.i, vx, vy, n, p) && !s.screen[p];
        let (row, col) = choose|row: int, col: int|
            pair_before(row, col, n, 0) && sprite_bit(s.ram[s.i + row], col) && pix(
                vx,
                vy,
                row,
                col,
            ) == p;
        assert(s1.screen[p]);
        assert(coll_upto(s1.screen, s1.ram, s1.i, vx, vy, n, 0));
    }
}

/// The opcode is one of the six conditional-skip forms.
pub open spec fn is_cond_skip(op: u16) -> bool {
    ||| nib1(op) == 0x3
    ||| nib1(op) == 0x4
    ||| nib1(op) == 0x5 && nib4(op) == 0x0
    ||| nib1(op) == 0x9 && nib4(op) == 0x0
    ||| nib1(op) == 0xE && nib3(op) == 0x9 && nib4(op) == 0xE
    ||| nib1(op) == 0xE && nib3(op) == 0xA && nib4(op) == 0x1
}

/// The condition a conditional-skip opcode tests, read over the registers and
/// keys, which the fetch leaves untouched.
pub open spec fn skip_condition(s: MachineState, op: u16) -> bool {
    if nib1(op) == 0x3 {
        s.v[nib2(op) as int] == imm8(op)
    } else if nib1(op) == 0x4 {
        s.v[nib2(op) as int] != imm8(op)
    } else if nib1(op) == 0x5 {
        s.v[nib2(op) as int] == s.v[nib3(op) as int]
    } else if nib1(op) == 0x9 {
        s.v[nib2(op) as int] != s.v[nib3(op) as int]
    } else if nib3(op) == 0x9 {
        s.keys[(s.v[nib2(op) as int] & 0xF) as int]
    } else {
        !s.keys[(s.v[nib2(op) as int] & 0xF) as int]
    }
}

/// A conditional-skip step moves the program counter 4 bytes past the
/// instruction when its condition holds — the fetch advance plus the skip —
/// and 2 bytes (the fetch advance alone) otherwise.
pub proof fn lemma_cond_skip(s: MachineState, rnd: u8)
    requires
        s.wf(),
        spec_fetch_ok(s),
        is_cond_skip(spec_opcode(s)),
    ensures
        spec_step(s, rnd).1 == Ok::<(), Chip8Error>(()),
        spec_step(s, rnd).0.pc == s.pc + (if skip_condition(spec_after_fetch(s), spec_opcode(s)) {
            4int
        } else {
            2int
        }),
{
    let op = spec_opcode(s);
    assert(op >> 12 != 0 ==> op != 0x0000 && op != 0x00E0 && op != 0x00EE) by (bit_vector);
}

/// The wait-for-key step: with no key pressed the program counter rolls back
/// to the instruction itself, so repeated steps sit on it; once keys are
/// pressed, the lowest-indexed pressed key lands in the named register and
/// nothing rolls back.
pub proof fn lemma_wait_key(s: MachineState, op: u16, pc0: u16, rnd: u8)
    requires
        s.wf(),
        nib1(op) == 0xF,
        nib3(op) == 0x0,
        nib4(op) == 0xA,
    ensures
        spec_execute(s, op, pc0, rnd).1 is None,
        (forall|j: int| 0 <= j < 16 ==> !s.keys[j]) ==> spec_execute(s, op, pc0, rnd).0 == (
        MachineState { pc: s.pc - 2, ..s }),
        (exists|j: int| 0 <= j < 16 && s.keys[j]) ==> exists|k: int|
            {
                &&& 0 <= k < 16
                &&& s.keys[k]
                &&& forall|j: int| 0 <= j < k ==> !s.keys[j]
                &&& spec_execute(s, op, pc0, rnd).0 == (MachineState {
                    v: s.v.update(nib2(op) as int, k as u8),
                    ..s
                })
            },
{
    assert(op >> 12 == 0xF ==> op != 0x0000 && op != 0x00E0 && op != 0x00EE) by (bit_vector);
    lemma_first_pressed(s.keys, 0);
    match first_pressed_from(s.keys, 0) {
        Option::Some(k) => {
            assert((k as int) < 16 && s.keys[k as int] && (forall|j: int|
                0 <= j < k as int ==> !s.keys[j]) && spec_execute(s, op, pc0, rnd).0 == (
            MachineState { v: s.v.update(nib2(op) as int, k), ..s }));
        },
        Option::None => {},
    }
}

} // verus!
