//! The instruction set: a total specification of one decode/execute step as a
//! function of the machine state, the opcode, the program counter at fetch
//! time, and the byte the random source supplied, together with the lemmas
//! about sprite geometry and key scanning that the engine's proofs use.

use vstd::arithmetic::div_mod::lemma_fundamental_div_mod;
use vstd::arithmetic::div_mod::lemma_mod_bound;
use vstd::prelude::*;

use crate::state::Chip8Error;
use crate::state::MachineState;

verus! {

/// First (highest) nibble of an opcode.
pub open spec fn nib1(op: u16) -> u16 {
    op >> 12
}

/// Second nibble: the X register field.
pub open spec fn nib2(op: u16) -> u16 {
    (op >> 8) & 0xF
}

/// Third nibble: the Y register field.
pub open spec fn nib3(op: u16) -> u16 {
    (op >> 4) & 0xF
}

/// Fourth (lowest) nibble.
pub open spec fn nib4(op: u16) -> u16 {
    op & 0xF
}

/// The 8-bit immediate field.
pub open spec fn imm8(op: u16) -> u8 {
    (op & 0xFF) as u8
}

/// The 12-bit address field.
pub open spec fn addr12(op: u16) -> u16 {
    op & 0xFFF
}

/// Ranges of the opcode fields.
pub proof fn lemma_op_bounds(op: u16)
    by (bit_vector)
    ensures
        op >> 12 < 16,
        (op >> 8) & 0xF < 16,
        (op >> 4) & 0xF < 16,
        op & 0xF < 16,
        op & 0xFF < 256,
        op & 0xFFF < 4096,
{
}

/// A low nibble names one of the sixteen keys or glyphs.
pub proof fn lemma_low_nibble(b: u8)
    by (bit_vector)
    ensures
        b & 0xF < 16,
{
}

/// 8-bit addition: the wrapped sum and the carry flag.
pub open spec fn alu_add(a: u8, b: u8) -> (u8, u8) {
    (((a + b) % 256) as u8, if a + b > 255 { 1u8 } else { 0u8 })
}

/// 8-bit subtraction `a - b`: the wrapped difference, and a flag that is 1
/// exactly when no borrow occurred (`a >= b`).
pub open spec fn alu_sub(a: u8, b: u8) -> (u8, u8) {
    (
        if a >= b { (a - b) as u8 } else { (a - b + 256) as u8 },
        if a >= b { 1u8 } else { 0u8 },
    )
}

/// True when bit `col` of a sprite byte is set, counting from the most
/// significant bit.
pub open spec fn sprite_bit(b: u8, col: int) -> bool {
    b & (0x80u8 >> (col as u8)) != 0
}

/// The framebuffer cell a sprite bit lands on: both coordinates wrap around
/// the screen edges.
pub open spec fn pix(vx: u8, vy: u8, row: int, col: int) -> int {
    ((vx + col) % 64) + 64 * ((vy + row) % 32)
}

/// The sprite positions strictly before (`row_lim`, `col_lim`) in drawing
/// order: whole rows below `row_lim`, then the columns below `col_lim`.
pub open spec fn pair_before(row: int, col: int, row_lim: int, col_lim: int) -> bool {
    0 <= row && 0 <= col < 8 && (row < row_lim || (row == row_lim && col < col_lim))
}

/// True when some sprite bit before (`row_lim`, `col_lim`) is set and lands
/// on cell `p`.
pub open spec fn covers_upto(
    ram: Seq<u8>,
    i: int,
    vx: u8,
    vy: u8,
    row_lim: int,
    col_lim: int,
    p: int,
) -> bool {
    exists|row: int, col: int|
        pair_before(row, col, row_lim, col_lim) && sprite_bit(ram[i + row], col) && pix(
            vx,
            vy,
            row,
            col,
        ) == p
}

/// True when some set bit of the `n`-row sprite at memory address `i` lands
/// on cell `p`.
pub open spec fn covers(ram: Seq<u8>, i: int, vx: u8, vy: u8, n: int, p: int) -> bool {
    covers_upto(ram, i, vx, vy, n, 0, p)
}

/// True when some set sprite bit before (`row_lim`, `col_lim`) lands on a
/// cell that is set in `screen0`: a collision among those bits.
pub open spec fn coll_upto(
    screen0: Seq<bool>,
    ram: Seq<u8>,
    i: int,
    vx: u8,
    vy: u8,
    row_lim: int,
    col_lim: int,
) -> bool {
    exists|row: int, col: int|
        pair_before(row, col, row_lim, col_lim) && sprite_bit(ram[i + row], col) && screen0[pix(
            vx,
            vy,
            row,
            col,
        )]
}

/// The framebuffer after the draw: every covered cell toggled, every other
/// cell kept.
pub open spec fn draw_screen(
    screen0: Seq<bool>,
    ram: Seq<u8>,
    i: int,
    vx: u8,
    vy: u8,
    n: int,
) -> Seq<bool> {
    Seq::new(2048, |p: int| screen0[p] != covers(ram, i, vx, vy, n, p))
}

/// True when the draw turns some previously set cell off.
pub open spec fn draw_collision(
    screen0: Seq<bool>,
    ram: Seq<u8>,
    i: int,
    vx: u8,
    vy: u8,
    n: int,
) -> bool {
    coll_upto(screen0, ram, i, vx, vy, n, 0)
}

/// The sprite-draw step: `n` rows read from memory at the index register are
/// XOR-drawn at (V[x], V[y]) with wraparound, and the flag register reports
/// whether any set cell was turned off. Rows that would be read past the end
/// of memory are refused before anything is drawn; a zero-height sprite draws
/// nothing and reports no collision.
pub open spec fn spec_draw(s: MachineState, x: int, y: int, n: int) -> (
    MachineState,
    Option<Chip8Error>,
) {
    if n > 0 && s.i + n > 4096 {
        (s, Some(Chip8Error::MemoryAccessViolation { address: (s.i + n - 1) as u32 }))
    } else {
        let vx = s.v[x];
        let vy = s.v[y];
        let flag: u8 = if draw_collision(s.screen, s.ram, s.i, vx, vy, n) {
            1u8
        } else {
            0u8
        };
        (
            MachineState {
                screen: draw_screen(s.screen, s.ram, s.i, vx, vy, n),
                v: s.v.update(15, flag),
                ..s
            },
            None,
        )
    }
}

/// The clear-screen step: every framebuffer cell turned off.
pub open spec fn spec_clear(s: MachineState) -> MachineState {
    MachineState { screen: Seq::new(2048, |p: int| false), ..s }
}

/// The binary-coded-decimal step: the hundreds, tens and ones digits of V[x]
/// stored at the index register and the two bytes after it, refused before
/// any write when the three addresses do not all lie inside memory.
pub open spec fn spec_bcd(s: MachineState, x: int) -> (MachineState, Option<Chip8Error>) {
    if s.i + 2 >= 4096 {
        (s, Some(Chip8Error::MemoryAccessViolation { address: (s.i + 2) as u32 }))
    } else {
        (
            MachineState {
                ram: s.ram.update(s.i, (s.v[x] / 100) as u8).update(
                    s.i + 1,
                    ((s.v[x] / 10) % 10) as u8,
                ).update(s.i + 2, (s.v[x] % 10) as u8),
                ..s
            },
            None,
        )
    }
}

/// The block-store step: registers 0..=x copied into memory at the index
/// register, refused before any write when the range does not fit.
pub open spec fn spec_store_regs(s: MachineState, x: int) -> (MachineState, Option<Chip8Error>) {
    if s.i + x >= 4096 {
        (s, Some(Chip8Error::MemoryAccessViolation { address: (s.i + x) as u32 }))
    } else {
        (
            MachineState {
                ram: Seq::new(
                    4096,
                    |a: int| if s.i <= a <= s.i + x { s.v[a - s.i] } else { s.ram[a] },
                ),
                ..s
            },
            None,
        )
    }
}

/// The block-load step: registers 0..=x filled from memory at the index
/// register, refused before any write when the range does not fit.
pub open spec fn spec_load_regs(s: MachineState, x: int) -> (MachineState, Option<Chip8Error>) {
    if s.i + x >= 4096 {
        (s, Some(Chip8Error::MemoryAccessViolation { address: (s.i + x) as u32 }))
    } else {
        (
            MachineState {
                v: Seq::new(16, |k: int| if 0 <= k <= x { s.ram[s.i + k] } else { s.v[k] }),
                ..s
            },
            None,
        )
    }
}

/// The wait-for-key step: with no key pressed the program counter rolls back
/// to the instruction itself, so the next step re-fetches it; otherwise the
/// lowest-indexed pressed key is stored in V[x].
pub open spec fn spec_wait_key(s: MachineState, x: int) -> MachineState {
    match first_pressed_from(s.keys, 0) {
        Option::Some(k) => MachineState { v: s.v.update(x, k), ..s },
        Option::None => MachineState { pc: s.pc - 2, ..s },
    }
}

/// The lowest-indexed pressed key at or above `from`, if any: the ascending
/// scan is the tie-break when several keys are down.
pub open spec fn first_pressed_from(keys: Seq<bool>, from: int) -> Option<u8>
    decreases 16 - from,
{
    if from < 0 || from >= 16 {
        None
    } else if keys[from] {
        Some(from as u8)
    } else {
        first_pressed_from(keys, from + 1)
    }
}

/// One decoded step over the post-fetch state `s`. `pc0` is the program
/// counter at the time of fetch, reported with an unimplemented opcode; `rnd`
/// is the byte the random source supplied, consulted only by the random
/// instruction. Interpreter-variant choices, stated deliberately: both shift
/// forms read and write the X register only, decoding but ignoring the Y
/// field; the indexed jump adds V0, never V[x]; the key-query and font
/// instructions use the low nibble of the register's value.
pub open spec fn spec_execute(s: MachineState, op: u16, pc0: u16, rnd: u8) -> (
    MachineState,
    Option<Chip8Error>,
) {
    let x = nib2(op) as int;
    let y = nib3(op) as int;
    let n = nib4(op) as int;
    let nn = imm8(op);
    let nnn = addr12(op) as int;
    if op == 0x0000 {
        // no-operation
        (s, None)
    } else if op == 0x00E0 {
        // clear screen
        (spec_clear(s), None)
    } else if op == 0x00EE {
        // return from subroutine
        if s.sp == 0 {
            (s, Some(Chip8Error::StackUnderflow))
        } else {
            (MachineState { pc: s.stack[s.sp - 1] as int, sp: s.sp - 1, ..s }, None)
        }
    } else if nib1(op) == 0x1 {
        // jump
        (MachineState { pc: nnn, ..s }, None)
    } else if nib1(op) == 0x2 {
        // call subroutine
        if s.sp == 16 {
            (s, Some(Chip8Error::StackOverflow))
        } else {
            (
                MachineState {
                    pc: nnn,
                    sp: s.sp + 1,
                    stack: s.stack.update(s.sp, s.pc as u16),
                    ..s
                },
                None,
            )
        }
    } else if nib1(op) == 0x3 {
        // skip if V[x] == nn
        (MachineState { pc: if s.v[x] == nn { s.pc + 2 } else { s.pc }, ..s }, None)
    } else if nib1(op) == 0x4 {
        // skip if V[x] != nn
        (MachineState { pc: if s.v[x] != nn { s.pc + 2 } else { s.pc }, ..s }, None)
    } else if nib1(op) == 0x5 && nib4(op) == 0x0 {
        // skip if V[x] == V[y]
        (MachineState { pc: if s.v[x] == s.v[y] { s.pc + 2 } else { s.pc }, ..s }, None)
    } else if nib1(op) == 0x6 {
        // load immediate
        (MachineState { v: s.v.update(x, nn), ..s }, None)
    } else if nib1(op) == 0x7 {
        // add immediate, wrapping, no flag effect
        (MachineState { v: s.v.update(x, alu_add(s.v[x], nn).0), ..s }, None)
    } else if nib1(op) == 0x8 && nib4(op) == 0x0 {
        // copy
        (MachineState { v: s.v.update(x, s.v[y]), ..s }, None)
    } else if nib1(op) == 0x8 && nib4(op) == 0x1 {
        (MachineState { v: s.v.update(x, s.v[x] | s.v[y]), ..s }, None)
    } else if nib1(op) == 0x8 && nib4(op) == 0x2 {
        (MachineState { v: s.v.update(x, s.v[x] & s.v[y]), ..s }, None)
    } else if nib1(op) == 0x8 && nib4(op) == 0x3 {
        (MachineState { v: s.v.update(x, s.v[x] ^ s.v[y]), ..s }, None)
    } else if nib1(op) == 0x8 && nib4(op) == 0x4 {
        // add with carry flag
        (
            MachineState {
                v: s.v.update(x, alu_add(s.v[x], s.v[y]).0).update(15, alu_add(s.v[x], s.v[y]).1),
                ..s
            },
            None,
        )
    } else if nib1(op) == 0x8 && nib4(op) == 0x5 {
        // subtract with no-borrow flag
        (
            MachineState {
                v: s.v.update(x, alu_sub(s.v[x], s.v[y]).0).update(15, alu_sub(s.v[x], s.v[y]).1),
                ..s
            },
            None,
        )
    } else if nib1(op) == 0x8 && nib4(op) == 0x6 {
        // shift right; the flag takes the bit shifted out
        (
            MachineState {
                v: s.v.update(x, s.v[x] >> 1u8).update(15, s.v[x] & 1),
                ..s
            },
            None,
        )
    } else if nib1(op) == 0x8 && nib4(op) == 0x7 {
        // reverse subtract with no-borrow flag
        (
            MachineState {
                v: s.v.update(x, alu_sub(s.v[y], s.v[x]).0).update(15, alu_sub(s.v[y], s.v[x]).1),
                ..s
            },
            None,
        )
    } else if nib1(op) == 0x8 && nib4(op) == 0xE {
        // shift left; the flag takes the bit shifted out
        (
            MachineState {
                v: s.v.update(x, s.v[x] << 1u8).update(15, (s.v[x] >> 7u8) & 1),
                ..s
            },
            None,
        )
    } else if nib1(op) == 0x9 && nib4(op) == 0x0 {
        // skip if V[x] != V[y]
        (MachineState { pc: if s.v[x] != s.v[y] { s.pc + 2 } else { s.pc }, ..s }, None)
    } else if nib1(op) == 0xA {
        // set index register
        (MachineState { i: nnn, ..s }, None)
    } else if nib1(op) == 0xB {
        // indexed jump: V0 plus the address field
        (MachineState { pc: s.v[0] + nnn, ..s }, None)
    } else if nib1(op) == 0xC {
        // random byte masked by the immediate
        (MachineState { v: s.v.update(x, rnd & nn), ..s }, None)
    } else if nib1(op) == 0xD {
        spec_draw(s, x, y, n)
    } else if nib1(op) == 0xE && nib3(op) == 0x9 && nib4(op) == 0xE {
        // skip if the named key is pressed
        (
            MachineState {
                pc: if s.keys[(s.v[x] & 0xF) as int] { s.pc + 2 } else { s.pc },
                ..s
            },
            None,
        )
    } else if nib1(op) == 0xE && nib3(op) == 0xA && nib4(op) == 0x1 {
        // skip if the named key is released
        (
            MachineState {
                pc: if !s.keys[(s.v[x] & 0xF) as int] { s.pc + 2 } else { s.pc },
                ..s
            },
            None,
        )
    } else if nib1(op) == 0xF && nib3(op) == 0x0 && nib4(op) == 0x7 {
        // read delay timer
        (MachineState { v: s.v.update(x, s.dt), ..s }, None)
    } else if nib1(op) == 0xF && nib3(op) == 0x0 && nib4(op) == 0xA {
        // wait for a key
        (spec_wait_key(s, x), None)
    } else if nib1(op) == 0xF && nib3(op) == 0x1 && nib4(op) == 0x5 {
        // set delay timer
        (MachineState { dt: s.v[x], ..s }, None)
    } else if nib1(op) == 0xF && nib3(op) == 0x1 && nib4(op) == 0x8 {
        // set sound timer
        (MachineState { st: s.v[x], ..s }, None)
    } else if nib1(op) == 0xF && nib3(op) == 0x1 && nib4(op) == 0xE {
        // add to index register, wrapping at 16 bits
        (MachineState { i: (s.i + s.v[x]) % 0x10000, ..s }, None)
    } else if nib1(op) == 0xF && nib3(op) == 0x2 && nib4(op) == 0x9 {
        // font glyph address for the low nibble of V[x]
        (MachineState { i: (s.v[x] & 0xF) * 5, ..s }, None)
    } else if nib1(op) == 0xF && nib3(op) == 0x3 && nib4(op) == 0x3 {
        // binary-coded decimal of V[x] at the index register
        spec_bcd(s, x)
    } else if nib1(op) == 0xF && nib3(op) == 0x5 && nib4(op) == 0x5 {
        // block-store registers 0..=x at the index register
        spec_store_regs(s, x)
    } else if nib1(op) == 0xF && nib3(op) == 0x6 && nib4(op) == 0x5 {
        // block-load registers 0..=x from the index register
        spec_load_regs(s, x)
    } else {
        (s, Some(Chip8Error::UnimplementedOpcode { opcode: op, pc: pc0 }))
    }
}

/// True when both bytes of the next instruction lie inside memory.
pub open spec fn spec_fetch_ok(s: MachineState) -> bool {
    s.pc + 1 < 4096
}

/// The 16-bit opcode at the program counter, big-endian.
pub open spec fn spec_opcode(s: MachineState) -> u16 {
    ((s.ram[s.pc] as u16) << 8u16) | (s.ram[s.pc + 1] as u16)
}

/// The state after a fetch: the program counter advanced past the
/// instruction.
pub open spec fn spec_after_fetch(s: MachineState) -> MachineState {
    MachineState { pc: s.pc + 2, ..s }
}

/// One whole step: fetch, then decode and execute. A fetch that would read
/// past the end of memory is refused with the state untouched; an error
/// during execution leaves the state as the fetch left it.
pub open spec fn spec_step(s: MachineState, rnd: u8) -> (MachineState, Result<(), Chip8Error>) {
    if !spec_fetch_ok(s) {
        (s, Err(Chip8Error::MemoryAccessViolation { address: (s.pc + 1) as u32 }))
    } else {
        let r = spec_execute(spec_after_fetch(s), spec_opcode(s), s.pc as u16, rnd);
        (
            r.0,
            match r.1 {
                Option::None => Ok(()),
                Option::Some(e) => Err(e),
            },
        )
    }
}

/// One step of the machine `s1` with random byte `rnd` yields exactly the
/// state `s2` and the result `r`.
pub open spec fn step_matches(
    s1: MachineState,
    rnd: u8,
    s2: MachineState,
    r: Result<(), Chip8Error>,
) -> bool {
    spec_step(s1, rnd) == (s2, r)
}

/// Two integers in one window of length `m` with equal remainders are equal.
proof fn lemma_mod_window(a: int, b: int, m: int)
    requires
        m > 0,
        a % m == b % m,
        a <= b < a + m,
    ensures
        a == b,
{
    lemma_fundamental_div_mod(a, m);
    lemma_fundamental_div_mod(b, m);
    let d = b / m - a / m;
    assert(b - a == m * d) by (nonlinear_arith)
        requires
            a == m * (a / m) + a % m,
            b == m * (b / m) + b % m,
            a % m == b % m,
            d == b / m - a / m,
    ;
    assert(d == 0) by (nonlinear_arith)
        requires
            m > 0,
            0 <= m * d < m,
    ;
}

/// Distinct sprite positions land on distinct framebuffer cells: the rows
/// stay within one vertical wrap and the eight columns within one horizontal
/// wrap, so neither coordinate can collide.
pub proof fn lemma_pix_inj(vx: u8, vy: u8, r1: int, c1: int, r2: int, c2: int)
    requires
        0 <= r1 < 32,
        0 <= c1 < 8,
        0 <= r2 < 32,
        0 <= c2 < 8,
        pix(vx, vy, r1, c1) == pix(vx, vy, r2, c2),
    ensures
        r1 == r2,
        c1 == c2,
{
    let px1 = (vx + c1) % 64;
    let py1 = (vy + r1) % 32;
    let px2 = (vx + c2) % 64;
    let py2 = (vy + r2) % 32;
    lemma_mod_bound(vx + c1, 64);
    lemma_mod_bound(vx + c2, 64);
    lemma_mod_bound(vy + r1, 32);
    lemma_mod_bound(vy + r2, 32);
    assert(py1 == py2 && px1 == px2) by (nonlinear_arith)
        requires
            0 <= px1 < 64,
            0 <= px2 < 64,
            0 <= py1 < 32,
            0 <= py2 < 32,
            px1 + 64 * py1 == px2 + 64 * py2,
    ;
    if r1 <= r2 {
        lemma_mod_window(vy + r1, vy + r2, 32);
    } else {
        lemma_mod_window(vy + r2, vy + r1, 32);
    }
    if c1 <= c2 {
        lemma_mod_window(vx + c1, vx + c2, 64);
    } else {
        lemma_mod_window(vx + c2, vx + c1, 64);
    }
}

/// Every framebuffer cell a sprite bit lands on is in range.
pub proof fn lemma_pix_bound(vx: u8, vy: u8, row: int, col: int)
    ensures
        0 <= pix(vx, vy, row, col) < 2048,
{
    lemma_mod_bound(vx + col, 64);
    lemma_mod_bound(vy + row, 32);
}

/// Nothing is covered before the first sprite position.
pub proof fn lemma_covers_empty(ram: Seq<u8>, i: int, vx: u8, vy: u8, p: int)
    ensures
        !covers_upto(ram, i, vx, vy, 0, 0, p),
{
    if covers_upto(ram, i, vx, vy, 0, 0, p) {
        let (row, col) = choose|row: int, col: int|
            pair_before(row, col, 0, 0) && sprite_bit(ram[i + row], col) && pix(vx, vy, row, col)
                == p;
        assert(false);
    }
}

/// Nothing collides before the first sprite position.
pub proof fn lemma_coll_empty(screen0: Seq<bool>, ram: Seq<u8>, i: int, vx: u8, vy: u8)
    ensures
        !coll_upto(screen0, ram, i, vx, vy, 0, 0),
{
    if coll_upto(screen0, ram, i, vx, vy, 0, 0) {
        let (row, col) = choose|row: int, col: int|
            pair_before(row, col, 0, 0) && sprite_bit(ram[i + row], col) && screen0[pix(
                vx,
                vy,
                row,
                col,
            )];
        assert(false);
    }
}

/// Moving the column limit one to the right adds exactly the position
/// (`r`, `c`) to the covered set.
pub proof fn lemma_covers_step(ram: Seq<u8>, i: int, vx: u8, vy: u8, r: int, c: int, p: int)
    requires
        0 <= r,
        0 <= c < 8,
    ensures
        covers_upto(ram, i, vx, vy, r, c + 1, p) == (covers_upto(ram, i, vx, vy, r, c, p) || (
        sprite_bit(ram[i + r], c) && pix(vx, vy, r, c) == p)),
{
    if covers_upto(ram, i, vx, vy, r, c + 1, p) {
        let (row, col) = choose|row: int, col: int|
            pair_before(row, col, r, c + 1) && sprite_bit(ram[i + row], col) && pix(
                vx,
                vy,
                row,
                col,
            ) == p;
        if row == r && col == c {
        } else {
            assert(pair_before(row, col, r, c));
            assert(covers_upto(ram, i, vx, vy, r, c, p));
        }
    }
    if covers_upto(ram, i, vx, vy, r, c, p) {
        let (row, col) = choose|row: int, col: int|
            pair_before(row, col, r, c) && sprite_bit(ram[i + row], col) && pix(vx, vy, row, col)
                == p;
        assert(pair_before(row, col, r, c + 1));
        assert(covers_upto(ram, i, vx, vy, r, c + 1, p));
    }
    if sprite_bit(ram[i + r], c) && pix(vx, vy, r, c) == p {
        assert(pair_before(r, c, r, c + 1));
        assert(covers_upto(ram, i, vx, vy, r, c + 1, p));
    }
}

/// The collision analogue of `lemma_covers_step`.
pub proof fn lemma_coll_step(
    screen0: Seq<bool>,
    ram: Seq<u8>,
    i: int,
    vx: u8,
    vy: u8,
    r: int,
    c: int,
)
    requires
        0 <= r,
        0 <= c < 8,
    ensures
        coll_upto(screen0, ram, i, vx, vy, r, c + 1) == (coll_upto(screen0, ram, i, vx, vy, r, c)
            || (sprite_bit(ram[i + r], c) && screen0[pix(vx, vy, r, c)])),
{
    if coll_upto(screen0, ram, i, vx, vy, r, c + 1) {
        let (row, col) = choose|row: int, col: int|
            pair_before(row, col, r, c + 1) && sprite_bit(ram[i + row], col) && screen0[pix(
                vx,
                vy,
                row,
                col,
            )];
        if row == r && col == c {
        } else {
            assert(pair_before(row, col, r, c));
            assert(coll_upto(screen0, ram, i, vx, vy, r, c));
        }
    }
    if coll_upto(screen0, ram, i, vx, vy, r, c) {
        let (row, col) = choose|row: int, col: int|
            pair_before(row, col, r, c) && sprite_bit(ram[i + row], col) && screen0[pix(
                vx,
                vy,
                row,
                col,
            )];
        assert(pair_before(row, col, r, c + 1));
        assert(coll_upto(screen0, ram, i, vx, vy, r, c + 1));
    }
    if sprite_bit(ram[i + r], c) && screen0[pix(vx, vy, r, c)] {
        assert(pair_before(r, c, r, c + 1));
        assert(coll_upto(screen0, ram, i, vx, vy, r, c + 1));
    }
}

/// A row limit with all eight columns equals the next row limit with none.
pub proof fn lemma_covers_row(ram: Seq<u8>, i: int, vx: u8, vy: u8, r: int, p: int)
    requires
        0 <= r,
    ensures
        covers_upto(ram, i, vx, vy, r, 8, p) == covers_upto(ram, i, vx, vy, r + 1, 0, p),
{
    if covers_upto(ram, i, vx, vy, r, 8, p) {
        let (row, col) = choose|row: int, col: int|
            pair_before(row, col, r, 8) && sprite_bit(ram[i + row], col) && pix(vx, vy, row, col)
                == p;
        assert(pair_before(row, col, r + 1, 0));
        assert(covers_upto(ram, i, vx, vy, r + 1, 0, p));
    }
    if covers_upto(ram, i, vx, vy, r + 1, 0, p) {
        let (row, col) = choose|row: int, col: int|
            pair_before(row, col, r + 1, 0) && sprite_bit(ram[i + row], col) && pix(
                vx,
                vy,
                row,
                col,
            ) == p;
        assert(pair_before(row, col, r, 8));
        assert(covers_upto(ram, i, vx, vy, r, 8, p));
    }
}

/// The collision analogue of `lemma_covers_row`.
pub proof fn lemma_coll_row(screen0: Seq<bool>, ram: Seq<u8>, i: int, vx: u8, vy: u8, r: int)
    requires
        0 <= r,
    ensures
        coll_upto(screen0, ram, i, vx, vy, r, 8) == coll_upto(screen0, ram, i, vx, vy, r + 1, 0),
{
    if coll_upto(screen0, ram, i, vx, vy, r, 8) {
        let (row, col) = choose|row: int, col: int|
            pair_before(row, col, r, 8) && sprite_bit(ram[i + row], col) && screen0[pix(
                vx,
                vy,
                row,
                col,
            )];
        assert(pair_before(row, col, r + 1, 0));
        assert(coll_upto(screen0, ram, i, vx, vy, r + 1, 0));
    }
    if coll_upto(screen0, ram, i, vx, vy, r + 1, 0) {
        let (row, col) = choose|row: int, col: int|
            pair_before(row, col, r + 1, 0) && sprite_bit(ram[i + row], col) && screen0[pix(
                vx,
                vy,
                row,
                col,
            )];
        assert(pair_before(row, col, r, 8));
        assert(coll_upto(screen0, ram, i, vx, vy, r, 8));
    }
}

/// The cell the sprite position (`r`, `c`) lands on is covered by no earlier
/// position: each draw touches each cell at most once.
pub proof fn lemma_not_covered_before(
    ram: Seq<u8>,
    i: int,
    vx: u8,
    vy: u8,
    r: int,
    c: int,
)
    requires
        0 <= r < 32,
        0 <= c < 8,
    ensures
        !covers_upto(ram, i, vx, vy, r, c, pix(vx, vy, r, c)),
{
    if covers_upto(ram, i, vx, vy, r, c, pix(vx, vy, r, c)) {
        let (row, col) = choose|row: int, col: int|
            pair_before(row, col, r, c) && sprite_bit(ram[i + row], col) && pix(vx, vy, row, col)
                == pix(vx, vy, r, c);
        lemma_pix_inj(vx, vy, row, col, r, c);
        assert(false);
    }
}

/// What the ascending key scan yields: the lowest-indexed pressed key at or
/// above `from`, or nothing when no key there is pressed.
pub proof fn lemma_first_pressed(keys: Seq<bool>, from: int)
    requires
        0 <= from <= 16,
    ensures
        match first_pressed_from(keys, from) {
            Option::Some(k) => from <= k < 16 && keys[k as int] && (forall|j: int|
                from <= j < k ==> !keys[j]),
            Option::None => forall|j: int| from <= j < 16 ==> !keys[j],
        },
    decreases 16 - from,
{
    if from < 16 {
        lemma_first_pressed(keys, from + 1);
    }
}

} // verus!
