//! Instruction words and their decoding.
use vstd::prelude::*;

verus! {

/// One decoded CHIP-8 instruction. Register operands (`x`, `y`) are
/// nibbles, `nn` is a byte, `nnn` is a 12-bit address and the height of a
/// sprite is a nibble.
#[derive(Clone, Copy, Debug, PartialEq, Eq, Structural)]
pub enum Opcode {
    /// 00E0: clear the screen.
    Clear,
    /// 00EE: return from a subroutine.
    Return,
    /// 1NNN: jump to NNN.
    Jump(u16),
    /// 2NNN: call the subroutine at NNN.
    Call(u16),
    /// 3XNN: skip the next instruction if VX equals NN.
    SkipIfVxEqualsNn(u8, u8),
    /// 4XNN: skip the next instruction if VX differs from NN.
    SkipIfVxNotEqualsNn(u8, u8),
    /// 5XY0: skip the next instruction if VX equals VY.
    SkipIfVxEqualsVy(u8, u8),
    /// 6XNN: store NN in VX.
    StoreNnInVx(u8, u8),
    /// 7XNN: add NN to VX, without carry.
    AddNnToVx(u8, u8),
    /// 8XY0: store VY in VX.
    SetVyInVx(u8, u8),
    /// 8XY1: VX := VX | VY.
    Or(u8, u8),
    /// 8XY2: VX := VX & VY.
    And(u8, u8),
    /// 8XY3: VX := VX ^ VY.
    Xor(u8, u8),
    /// 8XY4: VX := VX + VY; VF is the carry.
    Add(u8, u8),
    /// 8XY5: VX := VX - VY; VF is 1 when there is no borrow.
    Sub(u8, u8),
    /// 8XY6: VX := VY >> 1; VF is the bit shifted out.
    ShiftRight(u8, u8),
    /// 8XY7: VX := VY - VX; VF is 1 when there is no borrow.
    ReverseSub(u8, u8),
    /// 8XYE: VX := VY << 1; VF is the bit shifted out.
    ShiftLeft(u8, u8),
    /// 9XY0: skip the next instruction if VX differs from VY.
    SkipIfVxNotEqualsVy(u8, u8),
    /// ANNN: store NNN in I.
    StoreNnnInI(u16),
    /// BNNN: jump to NNN + V0.
    JumpAddV0(u16),
    /// CXNN: VX := a random byte & NN.
    SetVxRand(u8, u8),
    /// DXYN: draw the N-row sprite at I at (VX, VY); VF reports a collision.
    DrawSprite(u8, u8, u8),
    /// EX9E: skip the next instruction if the key VX is down.
    SkipIfKeyDown(u8),
    /// EXA1: skip the next instruction if the key VX is up.
    SkipIfKeyNotDown(u8),
    /// FX07: store the delay timer in VX.
    StoreDelayInVx(u8),
    /// FX0A: wait for a key press and store the key in VX.
    WaitKeyDownStore(u8),
    /// FX15: set the delay timer to VX.
    SetDelayToVx(u8),
    /// FX18: set the sound timer to VX.
    SetSoundToVx(u8),
    /// FX1E: add VX to I.
    AddVxToI(u8),
    /// FX29: point I at the font glyph of the digit VX.
    SetSpriteIFromVx(u8),
    /// FX33: store the three decimal digits of VX at I, I+1 and I+2.
    StoreBCD(u8),
    /// FX55: store V0..=VX in memory from I; then I := I + X + 1.
    CopyRegisters(u8),
    /// FX65: load V0..=VX from memory from I; then I := I + X + 1.
    FillRegisters(u8),
}

/// The most significant nibble of a word.
pub open spec fn top_nibble(w: u16) -> u8 {
    (w / 0x1000) as u8
}

/// The `x` operand: bits 8 to 11.
pub open spec fn x_field(w: u16) -> u8 {
    ((w / 0x100) % 0x10) as u8
}

/// The `y` operand: bits 4 to 7.
pub open spec fn y_field(w: u16) -> u8 {
    ((w / 0x10) % 0x10) as u8
}

/// The `n` operand: bits 0 to 3.
pub open spec fn n_field(w: u16) -> u8 {
    (w % 0x10) as u8
}

/// The `nn` operand: bits 0 to 7.
pub open spec fn nn_field(w: u16) -> u8 {
    (w % 0x100) as u8
}

/// The `nnn` operand: bits 0 to 11.
pub open spec fn nnn_field(w: u16) -> u16 {
    (w % 0x1000) as u16
}

/// What a word decodes to; `None` for a word that is no instruction
/// (0NNN included, which is left out on purpose).
pub open spec fn decode(w: u16) -> Option<Opcode> {
    let t = top_nibble(w);
    let x = x_field(w);
    let y = y_field(w);
    let n = n_field(w);
    let nn = nn_field(w);
    let nnn = nnn_field(w);
    if w == 0x00E0 {
        Some(Opcode::Clear)
    } else if w == 0x00EE {
        Some(Opcode::Return)
    } else if t == 0x1 {
        Some(Opcode::Jump(nnn))
    } else if t == 0x2 {
        Some(Opcode::Call(nnn))
    } else if t == 0x3 {
        Some(Opcode::SkipIfVxEqualsNn(x, nn))
    } else if t == 0x4 {
        Some(Opcode::SkipIfVxNotEqualsNn(x, nn))
    } else if t == 0x5 && n == 0x0 {
        Some(Opcode::SkipIfVxEqualsVy(x, y))
    } else if t == 0x6 {
        Some(Opcode::StoreNnInVx(x, nn))
    } else if t == 0x7 {
        Some(Opcode::AddNnToVx(x, nn))
    } else if t == 0x8 && n == 0x0 {
        Some(Opcode::SetVyInVx(x, y))
    } else if t == 0x8 && n == 0x1 {
        Some(Opcode::Or(x, y))
    } else if t == 0x8 && n == 0x2 {
        Some(Opcode::And(x, y))
    } else if t == 0x8 && n == 0x3 {
        Some(Opcode::Xor(x, y))
    } else if t == 0x8 && n == 0x4 {
        Some(Opcode::Add(x, y))
    } else if t == 0x8 && n == 0x5 {
        Some(Opcode::Sub(x, y))
    } else if t == 0x8 && n == 0x6 {
        Some(Opcode::ShiftRight(x, y))
    } else if t == 0x8 && n == 0x7 {
        Some(Opcode::ReverseSub(x, y))
    } else if t == 0x8 && n == 0xE {
        Some(Opcode::ShiftLeft(x, y))
    } else if t == 0x9 && n == 0x0 {
        Some(Opcode::SkipIfVxNotEqualsVy(x, y))
    } else if t == 0xA {
        Some(Opcode::StoreNnnInI(nnn))
    } else if t == 0xB {
        Some(Opcode::JumpAddV0(nnn))
    } else if t == 0xC {
        Some(Opcode::SetVxRand(x, nn))
    } else if t == 0xD {
        Some(Opcode::DrawSprite(x, y, n))
    } else if t == 0xE && nn == 0x9E {
        Some(Opcode::SkipIfKeyDown(x))
    } else if t == 0xE && nn == 0xA1 {
        Some(Opcode::SkipIfKeyNotDown(x))
    } else if t == 0xF && nn == 0x07 {
        Some(Opcode::StoreDelayInVx(x))
    } else if t == 0xF && nn == 0x0A {
        Some(Opcode::WaitKeyDownStore(x))
    } else if t == 0xF && nn == 0x15 {
        Some(Opcode::SetDelayToVx(x))
    } else if t == 0xF && nn == 0x18 {
        Some(Opcode::SetSoundToVx(x))
    } else if t == 0xF && nn == 0x1E {
        Some(Opcode::AddVxToI(x))
    } else if t == 0xF && nn == 0x29 {
        Some(Opcode::SetSpriteIFromVx(x))
    } else if t == 0xF && nn == 0x33 {
        Some(Opcode::StoreBCD(x))
    } else if t == 0xF && nn == 0x55 {
        Some(Opcode::CopyRegisters(x))
    } else if t == 0xF && nn == 0x65 {
        Some(Opcode::FillRegisters(x))
    } else {
        None
    }
}

/// A word from its top nibble and three lower nibbles.
pub open spec fn word(t: int, x: int, y: int, n: int) -> u16 {
    (t * 0x1000 + x * 0x100 + y * 0x10 + n) as u16
}

/// The instruction word of an instruction.
pub open spec fn encode(op: Opcode) -> u16 {
    match op {
        Opcode::Clear => 0x00E0,
        Opcode::Return => 0x00EE,
        Opcode::Jump(a) => (0x1000 + a) as u16,
        Opcode::Call(a) => (0x2000 + a) as u16,
        Opcode::SkipIfVxEqualsNn(x, nn) => word(0x3, x as int, nn as int / 0x10, nn as int % 0x10),
        Opcode::SkipIfVxNotEqualsNn(x, nn) => word(0x4, x as int, nn as int / 0x10, nn as int % 0x10),
        Opcode::SkipIfVxEqualsVy(x, y) => word(0x5, x as int, y as int, 0x0),
        Opcode::StoreNnInVx(x, nn) => word(0x6, x as int, nn as int / 0x10, nn as int % 0x10),
        Opcode::AddNnToVx(x, nn) => word(0x7, x as int, nn as int / 0x10, nn as int % 0x10),
        Opcode::SetVyInVx(x, y) => word(0x8, x as int, y as int, 0x0),
        Opcode::Or(x, y) => word(0x8, x as int, y as int, 0x1),
        Opcode::And(x, y) => word(0x8, x as int, y as int, 0x2),
        Opcode::Xor(x, y) => word(0x8, x as int, y as int, 0x3),
        Opcode::Add(x, y) => word(0x8, x as int, y as int, 0x4),
        Opcode::Sub(x, y) => word(0x8, x as int, y as int, 0x5),
        Opcode::ShiftRight(x, y) => word(0x8, x as int, y as int, 0x6),
        Opcode::ReverseSub(x, y) => word(0x8, x as int, y as int, 0x7),
        Opcode::ShiftLeft(x, y) => word(0x8, x as int, y as int, 0xE),
        Opcode::SkipIfVxNotEqualsVy(x, y) => word(0x9, x as int, y as int, 0x0),
        Opcode::StoreNnnInI(a) => (0xA000 + a) as u16,
        Opcode::JumpAddV0(a) => (0xB000 + a) as u16,
        Opcode::SetVxRand(x, nn) => word(0xC, x as int, nn as int / 0x10, nn as int % 0x10),
        Opcode::DrawSprite(x, y, n) => word(0xD, x as int, y as int, n as int),
        Opcode::SkipIfKeyDown(x) => word(0xE, x as int, 0x9, 0xE),
        Opcode::SkipIfKeyNotDown(x) => word(0xE, x as int, 0xA, 0x1),
        Opcode::StoreDelayInVx(x) => word(0xF, x as int, 0x0, 0x7),
        Opcode::WaitKeyDownStore(x) => word(0xF, x as int, 0x0, 0xA),
        Opcode::SetDelayToVx(x) => word(0xF, x as int, 0x1, 0x5),
        Opcode::SetSoundToVx(x) => word(0xF, x as int, 0x1, 0x8),
        Opcode::AddVxToI(x) => word(0xF, x as int, 0x1, 0xE),
        Opcode::SetSpriteIFromVx(x) => word(0xF, x as int, 0x2, 0x9),
        Opcode::StoreBCD(x) => word(0xF, x as int, 0x3, 0x3),
        Opcode::CopyRegisters(x) => word(0xF, x as int, 0x5, 0x5),
        Opcode::FillRegisters(x) => word(0xF, x as int, 0x6, 0x5),
    }
}

/// Every operand of the instruction fits its field: registers and sprite
/// heights in a nibble, addresses in 12 bits.
pub open spec fn operands_fit(op: Opcode) -> bool {
    match op {
        Opcode::Jump(a) | Opcode::Call(a) | Opcode::StoreNnnInI(a) | Opcode::JumpAddV0(a) => a
            < 0x1000,
        Opcode::SkipIfVxEqualsNn(x, _)
        | Opcode::SkipIfVxNotEqualsNn(x, _)
        | Opcode::StoreNnInVx(x, _)
        | Opcode::AddNnToVx(x, _)
        | Opcode::SetVxRand(x, _) => x < 0x10,
        Opcode::SkipIfVxEqualsVy(x, y)
        | Opcode::SetVyInVx(x, y)
        | Opcode::Or(x, y)
        | Opcode::And(x, y)
        | Opcode::Xor(x, y)
        | Opcode::Add(x, y)
        | Opcode::Sub(x, y)
        | Opcode::ShiftRight(x, y)
        | Opcode::ReverseSub(x, y)
        | Opcode::ShiftLeft(x, y)
        | Opcode::SkipIfVxNotEqualsVy(x, y) => x < 0x10 && y < 0x10,
        Opcode::DrawSprite(x, y, n) => x < 0x10 && y < 0x10 && n < 0x10,
        Opcode::SkipIfKeyDown(x)
        | Opcode::SkipIfKeyNotDown(x)
        | Opcode::StoreDelayInVx(x)
        | Opcode::WaitKeyDownStore(x)
        | Opcode::SetDelayToVx(x)
        | Opcode::SetSoundToVx(x)
        | Opcode::AddVxToI(x)
        | Opcode::SetSpriteIFromVx(x)
        | Opcode::StoreBCD(x)
        | Opcode::CopyRegisters(x)
        | Opcode::FillRegisters(x) => x < 0x10,
        Opcode::Clear | Opcode::Return => true,
    }
}

impl Opcode {
    /// Every operand fits its field (see `operands_fit`).
    pub fn has_valid_operands(&self) -> (r: bool)
        ensures
            r == operands_fit(*self),
    {
        match *self {
            Opcode::Jump(a) | Opcode::Call(a) | Opcode::StoreNnnInI(a) | Opcode::JumpAddV0(a) => a
                < 0x1000,
            Opcode::SkipIfVxEqualsNn(x, _)
            | Opcode::SkipIfVxNotEqualsNn(x, _)
            | Opcode::StoreNnInVx(x, _)
            | Opcode::AddNnToVx(x, _)
            | Opcode::SetVxRand(x, _) => x < 0x10,
            Opcode::SkipIfVxEqualsVy(x, y)
            | Opcode::SetVyInVx(x, y)
            | Opcode::Or(x, y)
            | Opcode::And(x, y)
            | Opcode::Xor(x, y)
            | Opcode::Add(x, y)
            | Opcode::Sub(x, y)
            | Opcode::ShiftRight(x, y)
            | Opcode::ReverseSub(x, y)
            | Opcode::ShiftLeft(x, y)
            | Opcode::SkipIfVxNotEqualsVy(x, y) => x < 0x10 && y < 0x10,
            Opcode::DrawSprite(x, y, n) => x < 0x10 && y < 0x10 && n < 0x10,
            Opcode::SkipIfKeyDown(x)
            | Opcode::SkipIfKeyNotDown(x)
            | Opcode::StoreDelayInVx(x)
            | Opcode::WaitKeyDownStore(x)
            | Opcode::SetDelayToVx(x)
            | Opcode::SetSoundToVx(x)
            | Opcode::AddVxToI(x)
            | Opcode::SetSpriteIFromVx(x)
            | Opcode::StoreBCD(x)
            | Opcode::CopyRegisters(x)
            | Opcode::FillRegisters(x) => x < 0x10,
            Opcode::Clear | Opcode::Return => true,
        }
    }
}

proof fn lemma_word_fields(t: int, x: int, y: int, n: int)
    requires
        0 <= t < 0x10,
        0 <= x < 0x10,
        0 <= y < 0x10,
        0 <= n < 0x10,
    ensures
        top_nibble(word(t, x, y, n)) == t,
        x_field(word(t, x, y, n)) == x,
        y_field(word(t, x, y, n)) == y,
        n_field(word(t, x, y, n)) == n,
        nn_field(word(t, x, y, n)) == y * 0x10 + n,
        nnn_field(word(t, x, y, n)) == x * 0x100 + y * 0x10 + n,
{
    let w = t * 0x1000 + x * 0x100 + y * 0x10 + n;
    assert(w / 0x1000 == t);
    assert(w / 0x100 == t * 0x10 + x);
    assert((t * 0x10 + x) % 0x10 == x);
    assert(w / 0x10 == t * 0x100 + x * 0x10 + y);
    assert((t * 0x100 + x * 0x10 + y) % 0x10 == y);
    assert(w % 0x10 == n);
    assert(w % 0x100 == y * 0x10 + n);
    assert(w % 0x1000 == x * 0x100 + y * 0x10 + n);
}

proof fn lemma_word_split(w: u16)
    ensures
        w == word(top_nibble(w) as int, x_field(w) as int, y_field(w) as int, n_field(w) as int),
        nn_field(w) == y_field(w) * 0x10 + n_field(w),
        nnn_field(w) == x_field(w) * 0x100 + nn_field(w),
        top_nibble(w) < 0x10,
        x_field(w) < 0x10,
        y_field(w) < 0x10,
        n_field(w) < 0x10,
{
    let v = w as int;
    assert(v == (v / 0x10) * 0x10 + v % 0x10);
    assert(v / 0x10 == ((v / 0x10) / 0x10) * 0x10 + (v / 0x10) % 0x10);
    assert((v / 0x10) / 0x10 == v / 0x100);
    assert(v / 0x100 == ((v / 0x100) / 0x10) * 0x10 + (v / 0x100) % 0x10);
    assert((v / 0x100) / 0x10 == v / 0x1000);
    assert(v % 0x100 == (v / 0x10) % 0x10 * 0x10 + v % 0x10);
    assert(v % 0x1000 == (v / 0x100) % 0x10 * 0x100 + v % 0x100);
}

/// Decoding then encoding gives back the word: every operand field of a
/// word that decodes is carried over exactly, and fits its field.
pub proof fn lemma_decode_encode(w: u16)
    requires
        decode(w) is Some,
    ensures
        encode(decode(w)->0) == w,
        operands_fit(decode(w)->0),
{
    lemma_word_split(w);
    let nn = nn_field(w);
    assert(nn / 0x10 == y_field(w) && nn % 0x10 == n_field(w));
}

/// Encoding then decoding gives back the instruction, for every instruction
/// whose operands fit their fields.
pub proof fn lemma_encode_decode(op: Opcode)
    requires
        operands_fit(op),
    ensures
        decode(encode(op)) == Some(op),
{
    match op {
        Opcode::Clear | Opcode::Return => {},
        Opcode::Jump(a) | Opcode::Call(a) | Opcode::StoreNnnInI(a) | Opcode::JumpAddV0(a) => {
            lemma_word_split(encode(op));
        },
        Opcode::SkipIfVxEqualsNn(x, nn)
        | Opcode::SkipIfVxNotEqualsNn(x, nn)
        | Opcode::StoreNnInVx(x, nn)
        | Opcode::AddNnToVx(x, nn)
        | Opcode::SetVxRand(x, nn) => {
            lemma_word_fields(0, x as int, nn as int / 0x10, nn as int % 0x10);
            lemma_word_fields(0x3, x as int, nn as int / 0x10, nn as int % 0x10);
            lemma_word_fields(0x4, x as int, nn as int / 0x10, nn as int % 0x10);
            lemma_word_fields(0x6, x as int, nn as int / 0x10, nn as int % 0x10);
            lemma_word_fields(0x7, x as int, nn as int / 0x10, nn as int % 0x10);
            lemma_word_fields(0xC, x as int, nn as int / 0x10, nn as int % 0x10);
        },
        Opcode::SkipIfVxEqualsVy(x, y) => lemma_word_fields(0x5, x as int, y as int, 0x0),
        Opcode::SetVyInVx(x, y) => lemma_word_fields(0x8, x as int, y as int, 0x0),
        Opcode::Or(x, y) => lemma_word_fields(0x8, x as int, y as int, 0x1),
        Opcode::And(x, y) => lemma_word_fields(0x8, x as int, y as int, 0x2),
        Opcode::Xor(x, y) => lemma_word_fields(0x8, x as int, y as int, 0x3),
        Opcode::Add(x, y) => lemma_word_fields(0x8, x as int, y as int, 0x4),
        Opcode::Sub(x, y) => lemma_word_fields(0x8, x as int, y as int, 0x5),
        Opcode::ShiftRight(x, y) => lemma_word_fields(0x8, x as int, y as int, 0x6),
        Opcode::ReverseSub(x, y) => lemma_word_fields(0x8, x as int, y as int, 0x7),
        Opcode::ShiftLeft(x, y) => lemma_word_fields(0x8, x as int, y as int, 0xE),
        Opcode::SkipIfVxNotEqualsVy(x, y) => lemma_word_fields(0x9, x as int, y as int, 0x0),
        Opcode::DrawSprite(x, y, n) => lemma_word_fields(0xD, x as int, y as int, n as int),
        Opcode::SkipIfKeyDown(x) => lemma_word_fields(0xE, x as int, 0x9, 0xE),
        Opcode::SkipIfKeyNotDown(x) => lemma_word_fields(0xE, x as int, 0xA, 0x1),
        Opcode::StoreDelayInVx(x) => lemma_word_fields(0xF, x as int, 0x0, 0x7),
        Opcode::WaitKeyDownStore(x) => lemma_word_fields(0xF, x as int, 0x0, 0xA),
        Opcode::SetDelayToVx(x) => lemma_word_fields(0xF, x as int, 0x1, 0x5),
        Opcode::SetSoundToVx(x) => lemma_word_fields(0xF, x as int, 0x1, 0x8),
        Opcode::AddVxToI(x) => lemma_word_fields(0xF, x as int, 0x1, 0xE),
        Opcode::SetSpriteIFromVx(x) => lemma_word_fields(0xF, x as int, 0x2, 0x9),
        Opcode::StoreBCD(x) => lemma_word_fields(0xF, x as int, 0x3, 0x3),
        Opcode::CopyRegisters(x) => lemma_word_fields(0xF, x as int, 0x5, 0x5),
        Opcode::FillRegisters(x) => lemma_word_fields(0xF, x as int, 0x6, 0x5),
    }
}

/// Decodes an instruction word; `None` when no instruction has that
/// encoding.
pub fn decode_instruction(opcode: u16) -> (r: Option<Opcode>)
    ensures
        r == decode(opcode),
{
    let t = (opcode / 0x1000) as u8;
    let x = ((opcode / 0x100) % 0x10) as u8;
    let y = ((opcode / 0x10) % 0x10) as u8;
    let n = (opcode % 0x10) as u8;
    let nn = (opcode % 0x100) as u8;
    let nnn = opcode % 0x1000;
    match (t, x, y, n) {
        (0x0, 0x0, 0xE, 0x0) => Some(Opcode::Clear),
        (0x0, 0x0, 0xE, 0xE) => Some(Opcode::Return),
        (0x1, _, _, _) => Some(Opcode::Jump(nnn)),
        (0x2, _, _, _) => Some(Opcode::Call(nnn)),
        (0x3, _, _, _) => Some(Opcode::SkipIfVxEqualsNn(x, nn)),
        (0x4, _, _, _) => Some(Opcode::SkipIfVxNotEqualsNn(x, nn)),
        (0x5, _, _, 0x0) => Some(Opcode::SkipIfVxEqualsVy(x, y)),
        (0x6, _, _, _) => Some(Opcode::StoreNnInVx(x, nn)),
        (0x7, _, _, _) => Some(Opcode::AddNnToVx(x, nn)),
        (0x8, _, _, 0x0) => Some(Opcode::SetVyInVx(x, y)),
        (0x8, _, _, 0x1) => Some(Opcode::Or(x, y)),
        (0x8, _, _, 0x2) => Some(Opcode::And(x, y)),
        (0x8, _, _, 0x3) => Some(Opcode::Xor(x, y)),
        (0x8, _, _, 0x4) => Some(Opcode::Add(x, y)),
        (0x8, _, _, 0x5) => Some(Opcode::Sub(x, y)),
        (0x8, _, _, 0x6) => Some(Opcode::ShiftRight(x, y)),
        (0x8, _, _, 0x7) => Some(Opcode::ReverseSub(x, y)),
        (0x8, _, _, 0xE) => Some(Opcode::ShiftLeft(x, y)),
        (0x9, _, _, 0x0) => Some(Opcode::SkipIfVxNotEqualsVy(x, y)),
        (0xA, _, _, _) => Some(Opcode::StoreNnnInI(nnn)),
        (0xB, _, _, _) => Some(Opcode::JumpAddV0(nnn)),
        (0xC, _, _, _) => Some(Opcode::SetVxRand(x, nn)),
        (0xD, _, _, _) => Some(Opcode::DrawSprite(x, y, n)),
        (0xE, _, 0x9, 0xE) => Some(Opcode::SkipIfKeyDown(x)),
        (0xE, _, 0xA, 0x1) => Some(Opcode::SkipIfKeyNotDown(x)),
        (0xF, _, 0x0, 0x7) => Some(Opcode::StoreDelayInVx(x)),
        (0xF, _, 0x0, 0xA) => Some(Opcode::WaitKeyDownStore(x)),
        (0xF, _, 0x1, 0x5) => Some(Opcode::SetDelayToVx(x)),
        (0xF, _, 0x1, 0x8) => Some(Opcode::SetSoundToVx(x)),
        (0xF, _, 0x1, 0xE) => Some(Opcode::AddVxToI(x)),
        (0xF, _, 0x2, 0x9) => Some(Opcode::SetSpriteIFromVx(x)),
        (0xF, _, 0x3, 0x3) => Some(Opcode::StoreBCD(x)),
        (0xF, _, 0x5, 0x5) => Some(Opcode::CopyRegisters(x)),
        (0xF, _, 0x6, 0x5) => Some(Opcode::FillRegisters(x)),
        _ => None,
    }
}

} // verus!
