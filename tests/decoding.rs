use chip8_core::opcode::{decode_instruction, Opcode};

#[test]
fn decodes_full_twelve_bit_address() {
    assert_eq!(decode_instruction(0xAFFF), Some(Opcode::StoreNnnInI(0xFFF)));
    assert_eq!(decode_instruction(0x1FFF), Some(Opcode::Jump(0xFFF)));
    assert_eq!(decode_instruction(0x2ABC), Some(Opcode::Call(0xABC)));
    assert_eq!(decode_instruction(0xB123), Some(Opcode::JumpAddV0(0x123)));
}

#[test]
fn decodes_operand_fields() {
    assert_eq!(decode_instruction(0x3A42), Some(Opcode::SkipIfVxEqualsNn(0xA, 0x42)));
    assert_eq!(decode_instruction(0x4B17), Some(Opcode::SkipIfVxNotEqualsNn(0xB, 0x17)));
    assert_eq!(decode_instruction(0x5120), Some(Opcode::SkipIfVxEqualsVy(1, 2)));
    assert_eq!(decode_instruction(0x6C99), Some(Opcode::StoreNnInVx(0xC, 0x99)));
    assert_eq!(decode_instruction(0x7D01), Some(Opcode::AddNnToVx(0xD, 0x01)));
    assert_eq!(decode_instruction(0x8340), Some(Opcode::SetVyInVx(3, 4)));
    assert_eq!(decode_instruction(0x8341), Some(Opcode::Or(3, 4)));
    assert_eq!(decode_instruction(0x8342), Some(Opcode::And(3, 4)));
    assert_eq!(decode_instruction(0x8343), Some(Opcode::Xor(3, 4)));
    assert_eq!(decode_instruction(0x8344), Some(Opcode::Add(3, 4)));
    assert_eq!(decode_instruction(0x8345), Some(Opcode::Sub(3, 4)));
    assert_eq!(decode_instruction(0x8346), Some(Opcode::ShiftRight(3, 4)));
    assert_eq!(decode_instruction(0x8347), Some(Opcode::ReverseSub(3, 4)));
    assert_eq!(decode_instruction(0x834E), Some(Opcode::ShiftLeft(3, 4)));
    assert_eq!(decode_instruction(0x9560), Some(Opcode::SkipIfVxNotEqualsVy(5, 6)));
    assert_eq!(decode_instruction(0xC7F0), Some(Opcode::SetVxRand(7, 0xF0)));
    assert_eq!(decode_instruction(0xD12F), Some(Opcode::DrawSprite(1, 2, 0xF)));
}

#[test]
fn decodes_secondary_groups() {
    assert_eq!(decode_instruction(0x00E0), Some(Opcode::Clear));
    assert_eq!(decode_instruction(0x00EE), Some(Opcode::Return));
    assert_eq!(decode_instruction(0xE59E), Some(Opcode::SkipIfKeyDown(5)));
    assert_eq!(decode_instruction(0xE5A1), Some(Opcode::SkipIfKeyNotDown(5)));
    assert_eq!(decode_instruction(0xF207), Some(Opcode::StoreDelayInVx(2)));
    assert_eq!(decode_instruction(0xF20A), Some(Opcode::WaitKeyDownStore(2)));
    assert_eq!(decode_instruction(0xF215), Some(Opcode::SetDelayToVx(2)));
    assert_eq!(decode_instruction(0xF218), Some(Opcode::SetSoundToVx(2)));
    assert_eq!(decode_instruction(0xF21E), Some(Opcode::AddVxToI(2)));
    assert_eq!(decode_instruction(0xF229), Some(Opcode::SetSpriteIFromVx(2)));
    assert_eq!(decode_instruction(0xF233), Some(Opcode::StoreBCD(2)));
    assert_eq!(decode_instruction(0xF255), Some(Opcode::CopyRegisters(2)));
    assert_eq!(decode_instruction(0xF265), Some(Opcode::FillRegisters(2)));
}

#[test]
fn rejects_unsupported_words() {
    assert_eq!(decode_instruction(0x0123), None);
    assert_eq!(decode_instruction(0x0000), None);
    assert_eq!(decode_instruction(0x5121), None);
    assert_eq!(decode_instruction(0x8128), None);
    assert_eq!(decode_instruction(0x9121), None);
    assert_eq!(decode_instruction(0xE1FF), None);
    assert_eq!(decode_instruction(0xF1FF), None);
}

#[test]
fn operand_ranges_are_checked() {
    assert!(Opcode::Jump(0xFFF).has_valid_operands());
    assert!(!Opcode::Jump(0x1000).has_valid_operands());
    assert!(!Opcode::Add(16, 0).has_valid_operands());
    assert!(!Opcode::DrawSprite(0, 0, 16).has_valid_operands());
    assert!(Opcode::Clear.has_valid_operands());
}
