//! The machine state and the engine that executes instructions on it.
use vstd::prelude::*;

use crate::opcode::{decode, decode_instruction, operands_fit, Opcode};

verus! {

/// Width of the framebuffer in pixels.
pub const DISPLAY_WIDTH: usize = 64;

/// Height of the framebuffer in pixels.
pub const DISPLAY_HEIGHT: usize = 32;

/// Size of the addressable memory in bytes.
pub const MEMORY_SIZE: usize = 4096;

/// Address at which programs are loaded; everything below is reserved.
pub const PROGRAM_START: usize = 0x200;

/// Deepest nesting of subroutine calls.
pub const STACK_LIMIT: usize = 16;

/// Number of bytes of the built-in font: sixteen glyphs of five bytes.
pub const FONT_SIZE: usize = 80;

/// Why the interpreter halts.
#[derive(Clone, Copy, Debug, PartialEq, Eq, Structural)]
pub enum Chip8Error {
    /// The word, fetched at the program counter, is no supported instruction.
    DecodeFailure(u16),
    /// A call past the deepest nesting of subroutines.
    StackOverflow,
    /// A return with no subroutine to return from.
    StackUnderflow,
    /// A register, key, address or memory access out of range.
    OutOfBoundsAccess,
    /// The program does not fit in memory above the reserved region.
    ProgramTooLarge,
}

/// The built-in hexadecimal font, glyphs 0 to F, five rows each.
pub open spec fn font() -> Seq<u8> {
    seq![
        0xF0u8, 0x90, 0x90, 0x90, 0xF0, 0x20, 0x60, 0x20, 0x20, 0x70,
        0xF0, 0x10, 0xF0, 0x80, 0xF0, 0xF0, 0x10, 0xF0, 0x10, 0xF0,
        0x90, 0x90, 0xF0, 0x10, 0x10, 0xF0, 0x80, 0xF0, 0x10, 0xF0,
        0xF0, 0x80, 0xF0, 0x90, 0xF0, 0xF0, 0x10, 0x20, 0x40, 0x40,
        0xF0, 0x90, 0xF0, 0x90, 0xF0, 0xF0, 0x90, 0xF0, 0x10, 0xF0,
        0xF0, 0x90, 0xF0, 0x90, 0x90, 0xE0, 0x90, 0xE0, 0x90, 0xE0,
        0xF0, 0x80, 0x80, 0x80, 0xF0, 0xE0, 0x90, 0x90, 0x90, 0xE0,
        0xF0, 0x80, 0xF0, 0x80, 0xF0, 0xF0, 0x80, 0xF0, 0x80, 0x80,
    ]
}

fn font_bytes() -> (r: Vec<u8>)
    ensures
        r@ == font(),
{
    let r: Vec<u8> = vec![
        0xF0u8, 0x90, 0x90, 0x90, 0xF0, 0x20, 0x60, 0x20, 0x20, 0x70,
        0xF0, 0x10, 0xF0, 0x80, 0xF0, 0xF0, 0x10, 0xF0, 0x10, 0xF0,
        0x90, 0x90, 0xF0, 0x10, 0x10, 0xF0, 0x80, 0xF0, 0x10, 0xF0,
        0xF0, 0x80, 0xF0, 0x90, 0xF0, 0xF0, 0x10, 0x20, 0x40, 0x40,
        0xF0, 0x90, 0xF0, 0x90, 0xF0, 0xF0, 0x90, 0xF0, 0x10, 0xF0,
        0xF0, 0x90, 0xF0, 0x90, 0x90, 0xE0, 0x90, 0xE0, 0x90, 0xE0,
        0xF0, 0x80, 0x80, 0x80, 0xF0, 0xE0, 0x90, 0x90, 0x90, 0xE0,
        0xF0, 0x80, 0xF0, 0x80, 0xF0, 0xF0, 0x80, 0xF0, 0x80, 0x80,
    ];
    assert(r@ =~= font());
    r
}

/// The machine state as values: memory, framebuffer (row-major, `true` for
/// a lit pixel), program counter, index register, call stack (innermost
/// return address last), timers, registers V0..VF, keypad, and the register
/// that awaits a key press, if any.
pub struct CpuState {
    pub ram: Seq<u8>,
    pub vram: Seq<bool>,
    pub pc: u16,
    pub i: u16,
    pub stack: Seq<u16>,
    pub delay: u8,
    pub sound: u8,
    pub v: Seq<u8>,
    pub keys: Seq<bool>,
    pub waiting: Option<u8>,
}

/// The sizes are fixed, the call stack is within its limit, the font is in
/// place and a register that awaits a key exists.
pub open spec fn valid(s: CpuState) -> bool {
    &&& s.ram.len() == MEMORY_SIZE
    &&& s.vram.len() == DISPLAY_WIDTH * DISPLAY_HEIGHT
    &&& s.stack.len() <= STACK_LIMIT
    &&& s.v.len() == 16
    &&& s.keys.len() == 16
    &&& s.ram.subrange(0, FONT_SIZE as int) == font()
    &&& (s.waiting matches Some(x) ==> x < 16)
}

/// The state that a fresh machine starts in.
pub open spec fn initial_state() -> CpuState {
    CpuState {
        ram: font() + Seq::new((MEMORY_SIZE - FONT_SIZE) as nat, |a: int| 0u8),
        vram: Seq::new((DISPLAY_WIDTH * DISPLAY_HEIGHT) as nat, |p: int| false),
        pc: 0,
        i: 0,
        stack: Seq::empty(),
        delay: 0,
        sound: 0,
        v: Seq::new(16, |k: int| 0u8),
        keys: Seq::new(16, |k: int| false),
        waiting: None,
    }
}

/// The state after loading `prog`: its bytes from the program start on, and
/// the program counter there.
pub open spec fn loaded(s: CpuState, prog: Seq<u8>) -> CpuState {
    CpuState {
        ram: Seq::new(
            s.ram.len(),
            |a: int|
                if PROGRAM_START <= a < PROGRAM_START + prog.len() {
                    prog[a - PROGRAM_START]
                } else {
                    s.ram[a]
                },
        ),
        pc: PROGRAM_START as u16,
        ..s
    }
}

/// The instruction word at `a`: the byte there, then the next one.
pub open spec fn word_at(ram: Seq<u8>, a: int) -> u16 {
    (ram[a] * 0x100 + ram[a + 1]) as u16
}

/// The value of register `x`.
pub open spec fn reg(s: CpuState, x: u8) -> u8 {
    s.v[x as int]
}

/// `s` with register `x` set to `val`.
pub open spec fn set_reg(s: CpuState, x: u8, val: u8) -> CpuState {
    CpuState { v: s.v.update(x as int, val), ..s }
}

/// `s` with register `x` set to `val` and then VF to the flag, so that the
/// flag wins where `x` is VF.
pub open spec fn set_reg_flag(s: CpuState, x: u8, val: u8, flag: bool) -> CpuState {
    CpuState { v: s.v.update(x as int, val).update(0xF, if flag { 1u8 } else { 0u8 }), ..s }
}

/// `s` with the next instruction skipped when `cond` holds; a program
/// counter pushed past 16 bits is out of range.
pub open spec fn skip_if(s: CpuState, cond: bool) -> Result<CpuState, Chip8Error> {
    if !cond {
        Ok(s)
    } else if s.pc + 2 > u16::MAX {
        Err(Chip8Error::OutOfBoundsAccess)
    } else {
        Ok(CpuState { pc: (s.pc + 2) as u16, ..s })
    }
}

/// Bit `col` of a sprite row, counted from the most significant bit.
pub open spec fn sprite_bit(b: u8, col: int) -> bool {
    (b >> ((7 - col) as u8)) & 1u8 == 1u8
}

/// The sprite row that pixel `p` falls in, for a sprite drawn with its top
/// edge on row `y0`, counted with wraparound.
pub open spec fn row_in_sprite(p: int, y0: int) -> int {
    (p / DISPLAY_WIDTH as int - y0) % DISPLAY_HEIGHT as int
}

/// The sprite column that pixel `p` falls in, for a sprite drawn with its
/// left edge on column `x0`, counted with wraparound.
pub open spec fn col_in_sprite(p: int, x0: int) -> int {
    (p % DISPLAY_WIDTH as int - x0) % DISPLAY_WIDTH as int
}

/// The sprite of `h` rows at address `i`, drawn at `(x0, y0)`, has a set
/// bit over pixel `p`.
pub open spec fn sprite_covers(ram: Seq<u8>, i: int, x0: int, y0: int, h: int, p: int) -> bool {
    let row = row_in_sprite(p, y0);
    let col = col_in_sprite(p, x0);
    row < h && col < 8 && sprite_bit(ram[i + row], col)
}

/// The state after drawing the sprite of `n` rows at I at `(VX, VY)`: each
/// pixel under a set bit is flipped, and VF tells whether a lit pixel went
/// out.
pub open spec fn drawn(s: CpuState, x: u8, y: u8, n: u8) -> CpuState {
    let x0 = reg(s, x) as int % DISPLAY_WIDTH as int;
    let y0 = reg(s, y) as int % DISPLAY_HEIGHT as int;
    let collision = exists|p: int|
        0 <= p < s.vram.len() && s.vram[p] && #[trigger] sprite_covers(
            s.ram,
            s.i as int,
            x0,
            y0,
            n as int,
            p,
        );
    CpuState {
        vram: Seq::new(
            s.vram.len(),
            |p: int| s.vram[p] != sprite_covers(s.ram, s.i as int, x0, y0, n as int, p),
        ),
        v: s.v.update(0xF, if collision { 1u8 } else { 0u8 }),
        ..s
    }
}

/// Memory with V0..=VX written from I on.
pub open spec fn registers_stored(s: CpuState, x: u8) -> Seq<u8> {
    Seq::new(s.ram.len(), |a: int| if s.i <= a <= s.i + x { s.v[a - s.i] } else { s.ram[a] })
}

/// Registers with V0..=VX read from I on.
pub open spec fn registers_filled(s: CpuState, x: u8) -> Seq<u8> {
    Seq::new(s.v.len(), |k: int| if k <= x { s.ram[s.i + k] } else { s.v[k] })
}

/// What executing `op` does to `s`, with `rnd` as the random byte: the next
/// state, or the error that halts the machine. Out of range are an operand
/// that does not fit its field, a key or glyph above F, an I moved past
/// memory, a read past memory, and a write below the program start (which
/// keeps the font in place). Shifts take VY as their source.
pub open spec fn execute(s: CpuState, op: Opcode, rnd: u8) -> Result<CpuState, Chip8Error> {
    if !operands_fit(op) {
        Err(Chip8Error::OutOfBoundsAccess)
    } else {
        match op {
            Opcode::Clear => Ok(CpuState { vram: Seq::new(s.vram.len(), |p: int| false), ..s }),
            Opcode::Return => if s.stack.len() == 0 {
                Err(Chip8Error::StackUnderflow)
            } else {
                Ok(CpuState { pc: s.stack.last(), stack: s.stack.drop_last(), ..s })
            },
            Opcode::Jump(a) => Ok(CpuState { pc: a, ..s }),
            Opcode::Call(a) => if s.stack.len() >= STACK_LIMIT {
                Err(Chip8Error::StackOverflow)
            } else {
                Ok(CpuState { pc: a, stack: s.stack.push(s.pc), ..s })
            },
            Opcode::SkipIfVxEqualsNn(x, nn) => skip_if(s, reg(s, x) == nn),
            Opcode::SkipIfVxNotEqualsNn(x, nn) => skip_if(s, reg(s, x) != nn),
            Opcode::SkipIfVxEqualsVy(x, y) => skip_if(s, reg(s, x) == reg(s, y)),
            Opcode::StoreNnInVx(x, nn) => Ok(set_reg(s, x, nn)),
            Opcode::AddNnToVx(x, nn) => Ok(set_reg(s, x, ((reg(s, x) + nn) % 0x100) as u8)),
            Opcode::SetVyInVx(x, y) => Ok(set_reg(s, x, reg(s, y))),
            Opcode::Or(x, y) => Ok(set_reg(s, x, reg(s, x) | reg(s, y))),
            Opcode::And(x, y) => Ok(set_reg(s, x, reg(s, x) & reg(s, y))),
            Opcode::Xor(x, y) => Ok(set_reg(s, x, reg(s, x) ^ reg(s, y))),
            Opcode::Add(x, y) => Ok(
                set_reg_flag(
                    s,
                    x,
                    ((reg(s, x) + reg(s, y)) % 0x100) as u8,
                    reg(s, x) + reg(s, y) > 0xFF,
                ),
            ),
            Opcode::Sub(x, y) => Ok(
                set_reg_flag(
                    s,
                    x,
                    ((reg(s, x) - reg(s, y) + 0x100) % 0x100) as u8,
                    reg(s, x) >= reg(s, y),
                ),
            ),
            Opcode::ShiftRight(x, y) => Ok(
                set_reg_flag(s, x, reg(s, y) / 2, reg(s, y) % 2 == 1),
            ),
            Opcode::ReverseSub(x, y) => Ok(
                set_reg_flag(
                    s,
                    x,
                    ((reg(s, y) - reg(s, x) + 0x100) % 0x100) as u8,
                    reg(s, y) >= reg(s, x),
                ),
            ),
            Opcode::ShiftLeft(x, y) => Ok(
                set_reg_flag(s, x, ((reg(s, y) * 2) % 0x100) as u8, reg(s, y) >= 0x80),
            ),
            Opcode::SkipIfVxNotEqualsVy(x, y) => skip_if(s, reg(s, x) != reg(s, y)),
            Opcode::StoreNnnInI(a) => Ok(CpuState { i: a, ..s }),
            Opcode::JumpAddV0(a) => Ok(CpuState { pc: (a + reg(s, 0)) as u16, ..s }),
            Opcode::SetVxRand(x, nn) => Ok(set_reg(s, x, rnd & nn)),
            Opcode::DrawSprite(x, y, n) => if s.i + n > MEMORY_SIZE {
                Err(Chip8Error::OutOfBoundsAccess)
            } else {
                Ok(drawn(s, x, y, n))
            },
            Opcode::SkipIfKeyDown(x) => if reg(s, x) >= 16 {
                Err(Chip8Error::OutOfBoundsAccess)
            } else {
                skip_if(s, s.keys[reg(s, x) as int])
            },
            Opcode::SkipIfKeyNotDown(x) => if reg(s, x) >= 16 {
                Err(Chip8Error::OutOfBoundsAccess)
            } else {
                skip_if(s, !s.keys[reg(s, x) as int])
            },
            Opcode::StoreDelayInVx(x) => Ok(set_reg(s, x, s.delay)),
            Opcode::WaitKeyDownStore(x) => Ok(CpuState { waiting: Some(x), ..s }),
            Opcode::SetDelayToVx(x) => Ok(CpuState { delay: reg(s, x), ..s }),
            Opcode::SetSoundToVx(x) => Ok(CpuState { sound: reg(s, x), ..s }),
            Opcode::AddVxToI(x) => if s.i + reg(s, x) >= MEMORY_SIZE {
                Err(Chip8Error::OutOfBoundsAccess)
            } else {
                Ok(CpuState { i: (s.i + reg(s, x)) as u16, ..s })
            },
            Opcode::SetSpriteIFromVx(x) => if reg(s, x) >= 16 {
                Err(Chip8Error::OutOfBoundsAccess)
            } else {
                Ok(CpuState { i: (reg(s, x) * 5) as u16, ..s })
            },
            Opcode::StoreBCD(x) => if s.i < PROGRAM_START || s.i + 2 >= MEMORY_SIZE {
                Err(Chip8Error::OutOfBoundsAccess)
            } else {
                let vx = reg(s, x);
                Ok(
                    CpuState {
                        ram: s.ram.update(s.i as int, vx / 100).update(
                            s.i + 1,
                            (vx / 10) % 10,
                        ).update(s.i + 2, vx % 10),
                        ..s
                    },
                )
            },
            Opcode::CopyRegisters(x) => if s.i < PROGRAM_START || s.i + x >= MEMORY_SIZE {
                Err(Chip8Error::OutOfBoundsAccess)
            } else {
                Ok(CpuState { ram: registers_stored(s, x), i: (s.i + x + 1) as u16, ..s })
            },
            Opcode::FillRegisters(x) => if s.i + x >= MEMORY_SIZE {
                Err(Chip8Error::OutOfBoundsAccess)
            } else {
                Ok(CpuState { v: registers_filled(s, x), i: (s.i + x + 1) as u16, ..s })
            },
        }
    }
}

/// Pixel `p` lies under a set bit of the sprite in a row before `r`, or in
/// row `r` before column `c`: what a row-by-row drawing has reached.
pub open spec fn covered_before(
    ram: Seq<u8>,
    i: int,
    x0: int,
    y0: int,
    h: int,
    p: int,
    r: int,
    c: int,
) -> bool {
    let row = row_in_sprite(p, y0);
    sprite_covers(ram, i, x0, y0, h, p) && (row < r || (row == r && col_in_sprite(p, x0) < c))
}

/// The pixel on which column `c` of row `r` of a sprite drawn at
/// `(x0, y0)` lands.
pub open spec fn pixel_at(x0: int, y0: int, r: int, c: int) -> int {
    ((y0 + r) % DISPLAY_HEIGHT as int) * DISPLAY_WIDTH as int + (x0 + c) % DISPLAY_WIDTH as int
}

proof fn lemma_pixel_at(x0: int, y0: int, r: int, c: int)
    requires
        0 <= x0 < DISPLAY_WIDTH,
        0 <= y0 < DISPLAY_HEIGHT,
        0 <= r < DISPLAY_HEIGHT,
        0 <= c < DISPLAY_WIDTH,
    ensures
        0 <= pixel_at(x0, y0, r, c) < DISPLAY_WIDTH * DISPLAY_HEIGHT,
        row_in_sprite(pixel_at(x0, y0, r, c), y0) == r,
        col_in_sprite(pixel_at(x0, y0, r, c), x0) == c,
{
    let py = (y0 + r) % 32;
    let px = (x0 + c) % 64;
    if y0 + r < 32 {
        assert(py == y0 + r);
    } else {
        assert(py == y0 + r - 32);
    }
    if x0 + c < 64 {
        assert(px == x0 + c);
    } else {
        assert(px == x0 + c - 64);
    }
    let p = py * 64 + px;
    assert(p / 64 == py);
    assert(p % 64 == px);
}

proof fn lemma_pixel_unique(q: int, x0: int, y0: int, r: int, c: int)
    requires
        0 <= x0 < DISPLAY_WIDTH,
        0 <= y0 < DISPLAY_HEIGHT,
        0 <= r < DISPLAY_HEIGHT,
        0 <= c < DISPLAY_WIDTH,
        0 <= q < DISPLAY_WIDTH * DISPLAY_HEIGHT,
        row_in_sprite(q, y0) == r,
        col_in_sprite(q, x0) == c,
    ensures
        q == pixel_at(x0, y0, r, c),
{
    let a = q / 64;
    let b = q % 64;
    assert(q == a * 64 + b);
    assert(0 <= a < 32);
    if a >= y0 {
        assert((a - y0) % 32 == a - y0);
        assert((y0 + r) % 32 == a);
    } else {
        assert((a - y0) % 32 == a - y0 + 32);
        assert((y0 + r) % 32 == a);
    }
    if b >= x0 {
        assert((b - x0) % 64 == b - x0);
        assert((x0 + c) % 64 == b);
    } else {
        assert((b - x0) % 64 == b - x0 + 64);
        assert((x0 + c) % 64 == b);
    }
}

/// One cycle of the run loop on `s`: nothing while a key is awaited;
/// otherwise fetch the word at the program counter, advance past it, decode
/// it and execute it. Gives the state after the cycle and its outcome; after
/// an error the state is the one at the point of failure.
pub open spec fn cycle(s: CpuState, rnd: u8) -> (CpuState, Result<(), Chip8Error>) {
    if s.waiting is Some {
        (s, Ok(()))
    } else if s.pc > MEMORY_SIZE - 2 {
        (s, Err(Chip8Error::OutOfBoundsAccess))
    } else {
        let w = word_at(s.ram, s.pc as int);
        let f = CpuState { pc: (s.pc + 2) as u16, ..s };
        match decode(w) {
            None => (f, Err(Chip8Error::DecodeFailure(w))),
            Some(op) => match execute(f, op, rnd) {
                Ok(t) => (t, Ok(())),
                Err(e) => (f, Err(e)),
            },
        }
    }
}

/// One timer tick: each timer goes down by one, and stays at zero.
pub open spec fn ticked(s: CpuState) -> CpuState {
    CpuState {
        delay: if s.delay > 0 { (s.delay - 1) as u8 } else { 0 },
        sound: if s.sound > 0 { (s.sound - 1) as u8 } else { 0 },
        ..s
    }
}

/// Key `k` set to `pressed`. A press of a key that was up ends a wait for a
/// key: the key goes into the waiting register.
pub open spec fn key_set(s: CpuState, k: u8, pressed: bool) -> CpuState {
    let t = CpuState { keys: s.keys.update(k as int, pressed), ..s };
    match s.waiting {
        Some(x) => if pressed && !s.keys[k as int] {
            CpuState { v: s.v.update(x as int, k), waiting: None, ..t }
        } else {
            t
        },
        None => t,
    }
}

/// A call pushes the current program counter and jumps; a later return
/// from any state whose stack is the one the call left gets back exactly
/// that program counter and stack. So calls and returns pair up.
pub proof fn lemma_call_return(s: CpuState, a: u16, t: CpuState, rnd: u8)
    requires
        valid(s),
        s.stack.len() < STACK_LIMIT,
        a < 0x1000,
        valid(t),
        t.stack == s.stack.push(s.pc),
    ensures
        execute(s, Opcode::Call(a), rnd) == Ok::<CpuState, Chip8Error>(
            CpuState { pc: a, stack: s.stack.push(s.pc), ..s },
        ),
        execute(t, Opcode::Return, rnd) == Ok::<CpuState, Chip8Error>(
            CpuState { pc: s.pc, stack: s.stack, ..t },
        ),
{
    assert(t.stack.drop_last() =~= s.stack);
}

/// A call with the stack at its limit fails with a stack overflow and a
/// return with an empty stack with a stack underflow.
pub proof fn lemma_stack_limits(s: CpuState, a: u16, rnd: u8)
    requires
        valid(s),
        a < 0x1000,
    ensures
        s.stack.len() == STACK_LIMIT ==> execute(s, Opcode::Call(a), rnd) == Err::<
            CpuState,
            Chip8Error,
        >(Chip8Error::StackOverflow),
        s.stack.len() == 0 ==> execute(s, Opcode::Return, rnd) == Err::<CpuState, Chip8Error>(
            Chip8Error::StackUnderflow,
        ),
{
}

/// `s` after `k` timer ticks.
pub open spec fn ticked_times(s: CpuState, k: nat) -> CpuState
    decreases k,
{
    if k == 0 {
        s
    } else {
        ticked(ticked_times(s, (k - 1) as nat))
    }
}

/// After `k` ticks each timer has gone down by `k`, or stopped at zero:
/// it never wraps round, and stays at zero once there.
pub proof fn lemma_timer_floor(s: CpuState, k: nat)
    ensures
        ticked_times(s, k).delay == if s.delay >= k { s.delay - k } else { 0 },
        ticked_times(s, k).sound == if s.sound >= k { s.sound - k } else { 0 },
        ticked_times(s, k) == (CpuState {
            delay: ticked_times(s, k).delay,
            sound: ticked_times(s, k).sound,
            ..s
        }),
    decreases k,
{
    if k > 0 {
        lemma_timer_floor(s, (k - 1) as nat);
    }
}

/// Drawing the same sprite twice at the same place gives back the
/// framebuffer as it was, and the second drawing reports a collision
/// exactly when the sprite has a set bit over a pixel that was dark before
/// the first. The coordinates must not be in VF, which the first drawing
/// overwrites.
pub proof fn lemma_draw_twice(s: CpuState, x: u8, y: u8, n: u8)
    requires
        valid(s),
        x < 0xF,
        y < 0xF,
        n < 16,
        s.i + n <= MEMORY_SIZE,
    ensures
        drawn(drawn(s, x, y, n), x, y, n).vram == s.vram,
        reg(drawn(drawn(s, x, y, n), x, y, n), 0xF) == 1 <==> exists|p: int|
            0 <= p < s.vram.len() && !s.vram[p] && #[trigger] sprite_covers(
                s.ram,
                s.i as int,
                reg(s, x) as int % DISPLAY_WIDTH as int,
                reg(s, y) as int % DISPLAY_HEIGHT as int,
                n as int,
                p,
            ),
{
    let t = drawn(s, x, y, n);
    assert(reg(t, x) == reg(s, x));
    assert(reg(t, y) == reg(s, y));
    assert(drawn(t, x, y, n).vram =~= s.vram);
}

/// Drawing on a dark framebuffer reports no collision.
pub proof fn lemma_draw_on_blank(s: CpuState, x: u8, y: u8, n: u8)
    requires
        valid(s),
        forall|p: int| 0 <= p < s.vram.len() ==> !s.vram[p],
    ensures
        reg(drawn(s, x, y, n), 0xF) == 0,
{
}

/// An interpreter: the whole state of one CHIP-8 machine.
pub struct CPU {
    ram: Vec<u8>,
    vram: Vec<bool>,
    pc: u16,
    i: u16,
    stack: Vec<u16>,
    delay: u8,
    sound: u8,
    registers: Vec<u8>,
    keys: Vec<bool>,
    waiting: Option<u8>,
}

impl View for CPU {
    type V = CpuState;

    closed spec fn view(&self) -> CpuState {
        CpuState {
            ram: self.ram@,
            vram: self.vram@,
            pc: self.pc,
            i: self.i,
            stack: self.stack@,
            delay: self.delay,
            sound: self.sound,
            v: self.registers@,
            keys: self.keys@,
            waiting: self.waiting,
        }
    }
}

impl CPU {
    /// The machine is in a valid state.
    pub open spec fn wf(&self) -> bool {
        valid(self@)
    }

    /// A fresh machine: the font at address 0, the rest of memory, the
    /// screen, registers, stack, timers and keys all zero.
    pub fn new() -> (r: CPU)
        ensures
            r@ == initial_state(),
            r.wf(),
    {
        let mut ram = font_bytes();
        let mut a: usize = FONT_SIZE;
        while a < MEMORY_SIZE
            invariant
                FONT_SIZE <= a <= MEMORY_SIZE,
                ram@.len() == a,
                ram@ =~= font() + Seq::new((a - FONT_SIZE) as nat, |k: int| 0u8),
            decreases MEMORY_SIZE - a,
        {
            ram.push(0u8);
            a = a + 1;
        }
        let r = CPU {
            ram,
            vram: vec![false; DISPLAY_WIDTH * DISPLAY_HEIGHT],
            pc: 0,
            i: 0,
            stack: Vec::new(),
            delay: 0,
            sound: 0,
            registers: vec![0u8; 16],
            keys: vec![false; 16],
            waiting: None,
        };
        assert(r@.vram =~= initial_state().vram);
        assert(r@.v =~= initial_state().v);
        assert(r@.keys =~= initial_state().keys);
        assert(r@.ram.subrange(0, FONT_SIZE as int) =~= font());
        r
    }

    /// Copies `prog` into memory at the program start and points the
    /// program counter there; a program longer than the memory above the
    /// reserved region is refused and nothing changes.
    pub fn load_program(&mut self, prog: &[u8]) -> (r: Result<(), Chip8Error>)
        requires
            old(self).wf(),
        ensures
            final(self).wf(),
            prog@.len() <= MEMORY_SIZE - PROGRAM_START ==> r == Ok::<(), Chip8Error>(()) && final(self)@ == loaded(
                old(self)@,
                prog@,
            ),
            prog@.len() > MEMORY_SIZE - PROGRAM_START ==> r == Err::<(), Chip8Error>(
                Chip8Error::ProgramTooLarge,
            ) && final(self)@ == old(self)@,
    {
        if prog.len() > MEMORY_SIZE - PROGRAM_START {
            return Err(Chip8Error::ProgramTooLarge);
        }
        let ghost before = self@;
        let mut k: usize = 0;
        while k < prog.len()
            invariant
                k <= prog@.len() <= MEMORY_SIZE - PROGRAM_START,
                self.ram@.len() == MEMORY_SIZE,
                forall|a: int|
                    0 <= a < MEMORY_SIZE ==> #[trigger] self.ram@[a] == if PROGRAM_START <= a
                        < PROGRAM_START + k {
                        prog@[a - PROGRAM_START]
                    } else {
                        before.ram[a]
                    },
                self@ == (CpuState { ram: self.ram@, ..before }),
            decreases prog@.len() - k,
        {
            self.ram.set(PROGRAM_START + k, prog[k]);
            k = k + 1;
        }
        self.pc = PROGRAM_START as u16;
        assert(self@.ram =~= loaded(before, prog@).ram);
        assert(self@.ram.subrange(0, FONT_SIZE as int) =~= before.ram.subrange(0, FONT_SIZE as int));
        Ok(())
    }

    /// Draws the sprite of `n` rows at I at `(VX, VY)`, with wraparound,
    /// and sets VF to 1 when a lit pixel went out, else to 0.
    fn draw_sprite(&mut self, x: u8, y: u8, n: u8)
        requires
            old(self).wf(),
            x < 16,
            y < 16,
            n < 16,
            old(self)@.i + n <= MEMORY_SIZE,
        ensures
            final(self).wf(),
            final(self)@ == drawn(old(self)@, x, y, n),
    {
        let ghost s = self@;
        let x0 = (self.registers[x as usize] % 64) as usize;
        let y0 = (self.registers[y as usize] % 32) as usize;
        let base = self.i as usize;
        let h = n as usize;
        let ghost ram = s.ram;
        let mut collided = false;
        let mut r: usize = 0;
        while r < h
            invariant
                valid(s),
                base + h <= MEMORY_SIZE,
                base == s.i,
                h == n,
                x0 == reg(s, x) as int % 64,
                y0 == reg(s, y) as int % 32,
                ram == s.ram,
                self@ == (CpuState { vram: self@.vram, ..s }),
                self.vram@.len() == DISPLAY_WIDTH * DISPLAY_HEIGHT,
                r <= h < 16,
                forall|q: int|
                    0 <= q < DISPLAY_WIDTH * DISPLAY_HEIGHT ==> #[trigger] self.vram@[q] == (s.vram[q] != covered_before(ram, base as int, x0 as int, y0 as int, h as int, q, r as int, 0)),
                collided == exists|q: int|
                    0 <= q < DISPLAY_WIDTH * DISPLAY_HEIGHT && s.vram[q] && #[trigger] covered_before(ram, base as int, x0 as int, y0 as int, h as int, q, r as int, 0),
            decreases h - r,
        {
            let byte = self.ram[base + r];
            let mut c: usize = 0;
            while c < 8
                invariant
                    valid(s),
                    base + h <= MEMORY_SIZE,
                    base == s.i,
                    h == n,
                    x0 == reg(s, x) as int % 64,
                    y0 == reg(s, y) as int % 32,
                    ram == s.ram,
                    self@ == (CpuState { vram: self@.vram, ..s }),
                    self.vram@.len() == DISPLAY_WIDTH * DISPLAY_HEIGHT,
                    r < h < 16,
                    c <= 8,
                    byte == ram[base + r],
                    forall|q: int|
                        0 <= q < DISPLAY_WIDTH * DISPLAY_HEIGHT ==> #[trigger] self.vram@[q] == (s.vram[q] != covered_before(ram, base as int, x0 as int, y0 as int, h as int, q, r as int, c as int)),
                    collided == exists|q: int|
                        0 <= q < DISPLAY_WIDTH * DISPLAY_HEIGHT && s.vram[q] && #[trigger] covered_before(ram, base as int, x0 as int, y0 as int, h as int, q, r as int, c as int),
                decreases 8 - c,
            {
                let ghost before = self.vram@;
                let p = ((y0 + r) % DISPLAY_HEIGHT) * DISPLAY_WIDTH + (x0 + c) % DISPLAY_WIDTH;
                proof {
                    lemma_pixel_at(x0 as int, y0 as int, r as int, c as int);
                    assert forall|q: int|
                        0 <= q < DISPLAY_WIDTH * DISPLAY_HEIGHT && q != p implies #[trigger] covered_before(ram, base as int, x0 as int, y0 as int, h as int, q, r as int, c + 1)
                        == covered_before(ram, base as int, x0 as int, y0 as int, h as int, q, r as int, c as int) by {
                        if row_in_sprite(q, y0 as int) == r && col_in_sprite(q, x0 as int) == c {
                            lemma_pixel_unique(q, x0 as int, y0 as int, r as int, c as int);
                        }
                    }
                    assert(!covered_before(ram, base as int, x0 as int, y0 as int, h as int, p as int, r as int, c as int));
                }
                let bit = (byte >> (7u8 - c as u8)) & 1u8 == 1u8;
                assert(covered_before(ram, base as int, x0 as int, y0 as int, h as int, p as int, r as int, c + 1) == bit);
                if bit {
                    let lit = self.vram[p];
                    if lit {
                        collided = true;
                    }
                    self.vram.set(p, !lit);
                }
                proof {
                    assert forall|q: int|
                        0 <= q < DISPLAY_WIDTH * DISPLAY_HEIGHT implies #[trigger] self.vram@[q] == (s.vram[q]
                        != covered_before(ram, base as int, x0 as int, y0 as int, h as int, q, r as int, c + 1)) by {
                        if q != p {
                            assert(covered_before(ram, base as int, x0 as int, y0 as int, h as int, q, r as int, c + 1) == covered_before(ram, base as int, x0 as int, y0 as int, h as int, q, r as int, c as int));
                        }
                    }
                    if collided {
                        if bit && before[p as int] {
                            assert(s.vram[p as int] && covered_before(ram, base as int, x0 as int, y0 as int, h as int, p as int, r as int, c + 1));
                        } else {
                            let w = choose|q: int|
                                0 <= q < DISPLAY_WIDTH * DISPLAY_HEIGHT && s.vram[q] && #[trigger] covered_before(ram, base as int, x0 as int, y0 as int, h as int, q, r as int, c as int);
                            assert(w != p);
                            assert(covered_before(ram, base as int, x0 as int, y0 as int, h as int, w, r as int, c + 1));
                        }
                    } else {
                        assert forall|q: int|
                            0 <= q < DISPLAY_WIDTH * DISPLAY_HEIGHT && s.vram[q] implies !#[trigger] covered_before(ram, base as int, x0 as int, y0 as int, h as int, q, r as int, c + 1) by {
                            if q != p {
                                assert(!covered_before(ram, base as int, x0 as int, y0 as int, h as int, q, r as int, c as int));
                            }
                        }
                    }
                }
                c = c + 1;
            }
            proof {
                assert forall|q: int| #[trigger] covered_before(ram, base as int, x0 as int, y0 as int, h as int, q, r as int, 8) == covered_before(ram, base as int, x0 as int, y0 as int, h as int, q, r + 1, 0) by {}
                if collided {
                    let w = choose|q: int| 0 <= q < DISPLAY_WIDTH * DISPLAY_HEIGHT && s.vram[q] && #[trigger] covered_before(ram, base as int, x0 as int, y0 as int, h as int, q, r as int, 8);
                    assert(covered_before(ram, base as int, x0 as int, y0 as int, h as int, w, r + 1, 0));
                } else {
                    assert forall|q: int|
                        0 <= q < DISPLAY_WIDTH * DISPLAY_HEIGHT && s.vram[q] implies !#[trigger] covered_before(ram, base as int, x0 as int, y0 as int, h as int, q, r + 1, 0) by {
                        assert(!covered_before(ram, base as int, x0 as int, y0 as int, h as int, q, r as int, 8));
                    }
                }
            }
            r = r + 1;
        }
        proof {
            assert forall|q: int| #[trigger] covered_before(ram, base as int, x0 as int, y0 as int, h as int, q, h as int, 0)
                == sprite_covers(ram, base as int, x0 as int, y0 as int, h as int, q) by {}
            if collided {
                let w = choose|q: int| 0 <= q < DISPLAY_WIDTH * DISPLAY_HEIGHT && s.vram[q] && #[trigger] covered_before(ram, base as int, x0 as int, y0 as int, h as int, q, h as int, 0);
                assert(sprite_covers(ram, base as int, x0 as int, y0 as int, h as int, w));
            } else {
                assert forall|q: int|
                    0 <= q < DISPLAY_WIDTH * DISPLAY_HEIGHT && s.vram[q] implies !#[trigger] sprite_covers(
                        ram,
                        base as int,
                        x0 as int,
                        y0 as int,
                        h as int,
                        q,
                    ) by {
                    assert(!covered_before(ram, base as int, x0 as int, y0 as int, h as int, q, h as int, 0));
                }
            }
        }
        self.registers.set(15, if collided { 1u8 } else { 0u8 });
        proof {
            let t = drawn(s, x, y, n);
            assert(self@.vram =~= t.vram);
            assert(self@.v =~= t.v);
        }
    }

    fn set_register(&mut self, x: u8, val: u8)
        requires
            old(self).wf(),
            x < 16,
        ensures
            final(self).wf(),
            final(self)@ == set_reg(old(self)@, x, val),
    {
        self.registers.set(x as usize, val);
    }

    fn set_register_and_flag(&mut self, x: u8, val: u8, flag: bool)
        requires
            old(self).wf(),
            x < 16,
        ensures
            final(self).wf(),
            final(self)@ == set_reg_flag(old(self)@, x, val, flag),
    {
        self.registers.set(x as usize, val);
        self.registers.set(15, if flag { 1u8 } else { 0u8 });
    }

    fn skip_next_if(&mut self, cond: bool) -> (r: Result<(), Chip8Error>)
        requires
            old(self).wf(),
        ensures
            final(self).wf(),
            match skip_if(old(self)@, cond) {
                Ok(t) => r == Ok::<(), Chip8Error>(()) && final(self)@ == t,
                Err(e) => r == Err::<(), Chip8Error>(e) && final(self)@ == old(self)@,
            },
    {
        if !cond {
            Ok(())
        } else if self.pc > u16::MAX - 2 {
            Err(Chip8Error::OutOfBoundsAccess)
        } else {
            self.pc = self.pc + 2;
            Ok(())
        }
    }

    fn store_bcd(&mut self, x: u8)
        requires
            old(self).wf(),
            x < 16,
            PROGRAM_START <= old(self)@.i,
            old(self)@.i + 2 < MEMORY_SIZE,
        ensures
            final(self).wf(),
            final(self)@ == (CpuState {
                ram: old(self)@.ram.update(old(self)@.i as int, reg(old(self)@, x) / 100).update(
                    old(self)@.i + 1,
                    (reg(old(self)@, x) / 10) % 10,
                ).update(old(self)@.i + 2, reg(old(self)@, x) % 10),
                ..old(self)@
            }),
    {
        let ghost s = self@;
        let vx = self.registers[x as usize];
        let a = self.i as usize;
        self.ram.set(a, vx / 100);
        self.ram.set(a + 1, (vx / 10) % 10);
        self.ram.set(a + 2, vx % 10);
        assert(self@.ram.subrange(0, FONT_SIZE as int) =~= s.ram.subrange(0, FONT_SIZE as int));
    }

    fn copy_registers(&mut self, x: u8)
        requires
            old(self).wf(),
            x < 16,
            PROGRAM_START <= old(self)@.i,
            old(self)@.i + x < MEMORY_SIZE,
        ensures
            final(self).wf(),
            final(self)@ == (CpuState {
                ram: registers_stored(old(self)@, x),
                i: (old(self)@.i + x + 1) as u16,
                ..old(self)@
            }),
    {
        let ghost s = self@;
        let base = self.i as usize;
        let mut k: usize = 0;
        while k <= x as usize
            invariant
                valid(s),
                x < 16,
                k <= x + 1,
                base == s.i,
                PROGRAM_START <= base,
                base + x < MEMORY_SIZE,
                self@ == (CpuState { ram: self@.ram, ..s }),
                self.ram@.len() == MEMORY_SIZE,
                forall|a: int|
                    0 <= a < MEMORY_SIZE ==> #[trigger] self.ram@[a] == if base <= a < base + k {
                        s.v[a - base]
                    } else {
                        s.ram[a]
                    },
            decreases x + 1 - k,
        {
            let val = self.registers[k];
            self.ram.set(base + k, val);
            k = k + 1;
        }
        self.i = self.i + x as u16 + 1;
        assert(self@.ram =~= registers_stored(s, x));
        assert(self@.ram.subrange(0, FONT_SIZE as int) =~= s.ram.subrange(0, FONT_SIZE as int));
    }

    fn fill_registers(&mut self, x: u8)
        requires
            old(self).wf(),
            x < 16,
            old(self)@.i + x < MEMORY_SIZE,
        ensures
            final(self).wf(),
            final(self)@ == (CpuState {
                v: registers_filled(old(self)@, x),
                i: (old(self)@.i + x + 1) as u16,
                ..old(self)@
            }),
    {
        let ghost s = self@;
        let base = self.i as usize;
        let mut k: usize = 0;
        while k <= x as usize
            invariant
                valid(s),
                x < 16,
                k <= x + 1,
                base == s.i,
                base + x < MEMORY_SIZE,
                self@ == (CpuState { v: self@.v, ..s }),
                self.registers@.len() == 16,
                forall|j: int|
                    0 <= j < 16 ==> #[trigger] self.registers@[j] == if j < k {
                        s.ram[base + j]
                    } else {
                        s.v[j]
                    },
            decreases x + 1 - k,
        {
            let val = self.ram[base + k];
            self.registers.set(k, val);
            k = k + 1;
        }
        self.i = self.i + x as u16 + 1;
        assert(self@.v =~= registers_filled(s, x));
    }

    /// Applies one decoded instruction to the machine, with `random` as the
    /// byte that CXNN draws. The program counter is expected to point past
    /// the instruction already. On an error the machine is left unchanged.
    pub fn execute_instruction(&mut self, op: Opcode, random: u8) -> (r: Result<(), Chip8Error>)
        requires
            old(self).wf(),
        ensures
            final(self).wf(),
            match execute(old(self)@, op, random) {
                Ok(t) => r == Ok::<(), Chip8Error>(()) && final(self)@ == t,
                Err(e) => r == Err::<(), Chip8Error>(e) && final(self)@ == old(self)@,
            },
    {
        if !op.has_valid_operands() {
            return Err(Chip8Error::OutOfBoundsAccess);
        }
        match op {
            Opcode::Clear => {
                let mut p: usize = 0;
                let ghost s = self@;
                while p < self.vram.len()
                    invariant
                        self@ == (CpuState { vram: self@.vram, ..s }),
                        valid(s),
                        self.vram@.len() == DISPLAY_WIDTH * DISPLAY_HEIGHT,
                        p <= DISPLAY_WIDTH * DISPLAY_HEIGHT,
                        forall|q: int| 0 <= q < p ==> !#[trigger] self.vram@[q],
                    decreases DISPLAY_WIDTH * DISPLAY_HEIGHT - p,
                {
                    self.vram.set(p, false);
                    p = p + 1;
                }
                assert(self@.vram =~= Seq::new(s.vram.len(), |q: int| false));
                Ok(())
            },
            Opcode::Return => {
                match self.stack.pop() {
                    Some(a) => {
                        self.pc = a;
                        Ok(())
                    },
                    None => Err(Chip8Error::StackUnderflow),
                }
            },
            Opcode::Jump(a) => {
                self.pc = a;
                Ok(())
            },
            Opcode::Call(a) => {
                if self.stack.len() >= STACK_LIMIT {
                    return Err(Chip8Error::StackOverflow);
                }
                self.stack.push(self.pc);
                self.pc = a;
                Ok(())
            },
            Opcode::SkipIfVxEqualsNn(x, nn) => {
                let cond = self.registers[x as usize] == nn;
                self.skip_next_if(cond)
            },
            Opcode::SkipIfVxNotEqualsNn(x, nn) => {
                let cond = self.registers[x as usize] != nn;
                self.skip_next_if(cond)
            },
            Opcode::SkipIfVxEqualsVy(x, y) => {
                let cond = self.registers[x as usize] == self.registers[y as usize];
                self.skip_next_if(cond)
            },
            Opcode::StoreNnInVx(x, nn) => {
                self.set_register(x, nn);
                Ok(())
            },
            Opcode::AddNnToVx(x, nn) => {
                let vx = self.registers[x as usize];
                self.set_register(x, ((vx as u16 + nn as u16) % 0x100) as u8);
                Ok(())
            },
            Opcode::SetVyInVx(x, y) => {
                let vy = self.registers[y as usize];
                self.set_register(x, vy);
                Ok(())
            },
            Opcode::Or(x, y) => {
                let val = self.registers[x as usize] | self.registers[y as usize];
                self.set_register(x, val);
                Ok(())
            },
            Opcode::And(x, y) => {
                let val = self.registers[x as usize] & self.registers[y as usize];
                self.set_register(x, val);
                Ok(())
            },
            Opcode::Xor(x, y) => {
                let val = self.registers[x as usize] ^ self.registers[y as usize];
                self.set_register(x, val);
                Ok(())
            },
            Opcode::Add(x, y) => {
                let sum = self.registers[x as usize] as u16 + self.registers[y as usize] as u16;
                self.set_register_and_flag(x, (sum % 0x100) as u8, sum > 0xFF);
                Ok(())
            },
            Opcode::Sub(x, y) => {
                let vx = self.registers[x as usize];
                let vy = self.registers[y as usize];
                let diff = ((vx as u16 + 0x100 - vy as u16) % 0x100) as u8;
                self.set_register_and_flag(x, diff, vx >= vy);
                Ok(())
            },
            Opcode::ShiftRight(x, y) => {
                let vy = self.registers[y as usize];
                self.set_register_and_flag(x, vy / 2, vy % 2 == 1);
                Ok(())
            },
            Opcode::ReverseSub(x, y) => {
                let vx = self.registers[x as usize];
                let vy = self.registers[y as usize];
                let diff = ((vy as u16 + 0x100 - vx as u16) % 0x100) as u8;
                self.set_register_and_flag(x, diff, vy >= vx);
                Ok(())
            },
            Opcode::ShiftLeft(x, y) => {
                let vy = self.registers[y as usize];
                self.set_register_and_flag(x, ((vy as u16 * 2) % 0x100) as u8, vy >= 0x80);
                Ok(())
            },
            Opcode::SkipIfVxNotEqualsVy(x, y) => {
                let cond = self.registers[x as usize] != self.registers[y as usize];
                self.skip_next_if(cond)
            },
            Opcode::StoreNnnInI(a) => {
                self.i = a;
                Ok(())
            },
            Opcode::JumpAddV0(a) => {
                self.pc = a + self.registers[0] as u16;
                Ok(())
            },
            Opcode::SetVxRand(x, nn) => {
                self.set_register(x, random & nn);
                Ok(())
            },
            Opcode::DrawSprite(x, y, n) => {
                if self.i as usize + n as usize > MEMORY_SIZE {
                    return Err(Chip8Error::OutOfBoundsAccess);
                }
                self.draw_sprite(x, y, n);
                Ok(())
            },
            Opcode::SkipIfKeyDown(x) => {
                let k = self.registers[x as usize];
                if k >= 16 {
                    return Err(Chip8Error::OutOfBoundsAccess);
                }
                let cond = self.keys[k as usize];
                self.skip_next_if(cond)
            },
            Opcode::SkipIfKeyNotDown(x) => {
                let k = self.registers[x as usize];
                if k >= 16 {
                    return Err(Chip8Error::OutOfBoundsAccess);
                }
                let cond = !self.keys[k as usize];
                self.skip_next_if(cond)
            },
            Opcode::StoreDelayInVx(x) => {
                let d = self.delay;
                self.set_register(x, d);
                Ok(())
            },
            Opcode::WaitKeyDownStore(x) => {
                self.waiting = Some(x);
                Ok(())
            },
            Opcode::SetDelayToVx(x) => {
                self.delay = self.registers[x as usize];
                Ok(())
            },
            Opcode::SetSoundToVx(x) => {
                self.sound = self.registers[x as usize];
                Ok(())
            },
            Opcode::AddVxToI(x) => {
                let vx = self.registers[x as usize];
                if self.i as usize + vx as usize >= MEMORY_SIZE {
                    return Err(Chip8Error::OutOfBoundsAccess);
                }
                self.i = self.i + vx as u16;
                Ok(())
            },
            Opcode::SetSpriteIFromVx(x) => {
                let vx = self.registers[x as usize];
                if vx >= 16 {
                    return Err(Chip8Error::OutOfBoundsAccess);
                }
                self.i = vx as u16 * 5;
                Ok(())
            },
            Opcode::StoreBCD(x) => {
                if (self.i as usize) < PROGRAM_START || self.i as usize + 2 >= MEMORY_SIZE {
                    return Err(Chip8Error::OutOfBoundsAccess);
                }
                self.store_bcd(x);
                Ok(())
            },
            Opcode::CopyRegisters(x) => {
                if (self.i as usize) < PROGRAM_START || self.i as usize + x as usize >= MEMORY_SIZE {
                    return Err(Chip8Error::OutOfBoundsAccess);
                }
                self.copy_registers(x);
                Ok(())
            },
            Opcode::FillRegisters(x) => {
                if self.i as usize + x as usize >= MEMORY_SIZE {
                    return Err(Chip8Error::OutOfBoundsAccess);
                }
                self.fill_registers(x);
                Ok(())
            },
        }
    }

    /// Reads the instruction word at the program counter and advances the
    /// program counter past it; fails, changing nothing, when the word
    /// would run past the end of memory.
    pub fn fetch_instruction(&mut self) -> (r: Result<u16, Chip8Error>)
        requires
            old(self).wf(),
        ensures
            final(self).wf(),
            old(self)@.pc <= MEMORY_SIZE - 2 ==> r == Ok::<u16, Chip8Error>(
                word_at(old(self)@.ram, old(self)@.pc as int),
            ) && final(self)@ == (CpuState { pc: (old(self)@.pc + 2) as u16, ..old(self)@ }),
            old(self)@.pc > MEMORY_SIZE - 2 ==> r == Err::<u16, Chip8Error>(
                Chip8Error::OutOfBoundsAccess,
            ) && final(self)@ == old(self)@,
    {
        if self.pc as usize > MEMORY_SIZE - 2 {
            return Err(Chip8Error::OutOfBoundsAccess);
        }
        let pc = self.pc as usize;
        let opcode = (self.ram[pc] as u16) * 0x100 + (self.ram[pc + 1] as u16);
        self.pc = self.pc + 2;
        Ok(opcode)
    }

    /// Runs one cycle (see `cycle`), with `random` as the byte that CXNN
    /// draws.
    pub fn step(&mut self, random: u8) -> (r: Result<(), Chip8Error>)
        requires
            old(self).wf(),
        ensures
            final(self).wf(),
            (final(self)@, r) == cycle(old(self)@, random),
    {
        if self.waiting.is_some() {
            return Ok(());
        }
        let word = match self.fetch_instruction() {
            Ok(w) => w,
            Err(e) => return Err(e),
        };
        match decode_instruction(word) {
            Some(op) => self.execute_instruction(op, random),
            None => Err(Chip8Error::DecodeFailure(word)),
        }
    }

    /// One 60 Hz tick: both timers count down by one and stop at zero.
    pub fn tick_timers(&mut self)
        requires
            old(self).wf(),
        ensures
            final(self).wf(),
            final(self)@ == ticked(old(self)@),
    {
        if self.delay > 0 {
            self.delay = self.delay - 1;
        }
        if self.sound > 0 {
            self.sound = self.sound - 1;
        }
    }

    /// Records that key `key` is down (`pressed`) or up; a key outside
    /// 0 to F is refused and nothing changes.
    pub fn set_key(&mut self, key: u8, pressed: bool) -> (r: Result<(), Chip8Error>)
        requires
            old(self).wf(),
        ensures
            final(self).wf(),
            key < 16 ==> r == Ok::<(), Chip8Error>(()) && final(self)@ == key_set(old(self)@, key, pressed),
            key >= 16 ==> r == Err::<(), Chip8Error>(Chip8Error::OutOfBoundsAccess)
                && final(self)@ == old(self)@,
    {
        if key >= 16 {
            return Err(Chip8Error::OutOfBoundsAccess);
        }
        let was_down = self.keys[key as usize];
        self.keys.set(key as usize, pressed);
        if pressed && !was_down {
            if let Some(x) = self.waiting {
                self.registers.set(x as usize, key);
                self.waiting = None;
            }
        }
        Ok(())
    }

    /// The program counter.
    pub fn pc(&self) -> (r: u16)
        ensures
            r == self@.pc,
    {
        self.pc
    }

    /// The index register I.
    pub fn index(&self) -> (r: u16)
        ensures
            r == self@.i,
    {
        self.i
    }

    /// The delay timer.
    pub fn delay(&self) -> (r: u8)
        ensures
            r == self@.delay,
    {
        self.delay
    }

    /// The sound timer.
    pub fn sound(&self) -> (r: u8)
        ensures
            r == self@.sound,
    {
        self.sound
    }

    /// Whether a tone should sound: the sound timer is running.
    pub fn sound_active(&self) -> (r: bool)
        ensures
            r == (self@.sound > 0),
    {
        self.sound > 0
    }

    /// Register VX.
    pub fn register(&self, x: u8) -> (r: u8)
        requires
            self.wf(),
            x < 16,
        ensures
            r == reg(self@, x),
    {
        self.registers[x as usize]
    }

    /// The byte at address `addr`.
    pub fn memory(&self, addr: usize) -> (r: u8)
        requires
            self.wf(),
            addr < MEMORY_SIZE,
        ensures
            r == self@.ram[addr as int],
    {
        self.ram[addr]
    }

    /// Whether the pixel at column `x`, row `y` is lit.
    pub fn pixel(&self, x: usize, y: usize) -> (r: bool)
        requires
            self.wf(),
            x < DISPLAY_WIDTH,
            y < DISPLAY_HEIGHT,
        ensures
            r == self@.vram[y * DISPLAY_WIDTH + x],
    {
        self.vram[y * DISPLAY_WIDTH + x]
    }

    /// How many return addresses are on the call stack.
    pub fn stack_depth(&self) -> (r: usize)
        ensures
            r == self@.stack.len(),
    {
        self.stack.len()
    }

    /// The register that awaits a key press, if the machine is waiting.
    pub fn awaiting_key(&self) -> (r: Option<u8>)
        ensures
            r == self@.waiting,
    {
        self.waiting
    }
}

} // verus!
