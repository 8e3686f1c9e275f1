use chip8_core::cpu::{Chip8Error, CPU};
use chip8_core::opcode::Opcode;

fn run(c: &mut CPU, op: Opcode) {
    assert_eq!(c.execute_instruction(op, 0), Ok(()));
}

fn with_registers(vx: u8, vy: u8) -> CPU {
    let mut c = CPU::new();
    run(&mut c, Opcode::StoreNnInVx(1, vx));
    run(&mut c, Opcode::StoreNnInVx(2, vy));
    c
}

#[test]
fn new_machine_holds_font() {
    let c = CPU::new();
    assert_eq!(c.memory(0), 0xF0);
    assert_eq!(c.memory(5), 0x20);
    assert_eq!(c.memory(79), 0x80);
    assert_eq!(c.memory(80), 0);
    assert_eq!(c.pc(), 0);
    assert!(!c.pixel(0, 0));
}

#[test]
fn load_program_and_fetch() {
    let mut c = CPU::new();
    assert_eq!(c.load_program(&[0x12, 0x34, 0xAB]), Ok(()));
    assert_eq!(c.pc(), 0x200);
    assert_eq!(c.memory(0x202), 0xAB);
    assert_eq!(c.fetch_instruction(), Ok(0x1234));
    assert_eq!(c.pc(), 0x202);
}

#[test]
fn program_too_large() {
    let mut c = CPU::new();
    let big = vec![0u8; 4096 - 0x200 + 1];
    assert_eq!(c.load_program(&big), Err(Chip8Error::ProgramTooLarge));
    let fits = vec![0x11u8; 4096 - 0x200];
    assert_eq!(c.load_program(&fits), Ok(()));
    assert_eq!(c.memory(4095), 0x11);
}

#[test]
fn fetch_past_memory_fails() {
    let mut c = CPU::new();
    run(&mut c, Opcode::Jump(0xFFF));
    assert_eq!(c.fetch_instruction(), Err(Chip8Error::OutOfBoundsAccess));
    assert_eq!(c.pc(), 0xFFF);
}

#[test]
fn step_reports_decode_failure() {
    let mut c = CPU::new();
    c.load_program(&[0x01, 0x23]).unwrap();
    assert_eq!(c.step(0), Err(Chip8Error::DecodeFailure(0x0123)));
}

#[test]
fn store_nnn_keeps_twelve_bits() {
    let mut c = CPU::new();
    c.load_program(&[0xAF, 0xFF]).unwrap();
    assert_eq!(c.step(0), Ok(()));
    assert_eq!(c.index(), 0xFFF);
    assert_eq!(c.pc(), 0x202);
}

#[test]
fn add_sets_carry() {
    let mut c = with_registers(0xFF, 0x01);
    run(&mut c, Opcode::Add(1, 2));
    assert_eq!(c.register(1), 0x00);
    assert_eq!(c.register(0xF), 1);
}

#[test]
fn sub_sets_borrow() {
    let mut c = with_registers(0x01, 0x02);
    run(&mut c, Opcode::Sub(1, 2));
    assert_eq!(c.register(1), 0xFF);
    assert_eq!(c.register(0xF), 0);
    let mut d = with_registers(0x05, 0x02);
    run(&mut d, Opcode::ReverseSub(1, 2));
    assert_eq!(d.register(1), 0xFD);
    assert_eq!(d.register(0xF), 0);
}

#[test]
fn flag_wins_over_destination() {
    let mut c = CPU::new();
    run(&mut c, Opcode::StoreNnInVx(0xF, 0xFF));
    run(&mut c, Opcode::StoreNnInVx(2, 0x01));
    run(&mut c, Opcode::Add(0xF, 2));
    assert_eq!(c.register(0xF), 1);
}

#[test]
fn shifts_use_source_register() {
    let mut c = with_registers(0x00, 0x03);
    run(&mut c, Opcode::ShiftRight(1, 2));
    assert_eq!(c.register(1), 0x01);
    assert_eq!(c.register(0xF), 1);
    let mut d = with_registers(0x00, 0x81);
    run(&mut d, Opcode::ShiftLeft(1, 2));
    assert_eq!(d.register(1), 0x02);
    assert_eq!(d.register(0xF), 1);
}

#[test]
fn bitwise_and_add_without_carry() {
    let mut c = with_registers(0b1100, 0b1010);
    run(&mut c, Opcode::Or(1, 2));
    assert_eq!(c.register(1), 0b1110);
    let mut d = with_registers(0b1100, 0b1010);
    run(&mut d, Opcode::And(1, 2));
    assert_eq!(d.register(1), 0b1000);
    let mut e = with_registers(0b1100, 0b1010);
    run(&mut e, Opcode::Xor(1, 2));
    assert_eq!(e.register(1), 0b0110);
    run(&mut e, Opcode::AddNnToVx(1, 0xFF));
    assert_eq!(e.register(1), 0x05);
    assert_eq!(e.register(0xF), 0);
}

#[test]
fn random_is_masked() {
    let mut c = CPU::new();
    assert_eq!(c.execute_instruction(Opcode::SetVxRand(3, 0x0F), 0xAB), Ok(()));
    assert_eq!(c.register(3), 0x0B);
}

#[test]
fn draw_twice_collides() {
    let mut c = CPU::new();
    c.load_program(&[0xFF]).unwrap();
    run(&mut c, Opcode::StoreNnnInI(0x200));
    run(&mut c, Opcode::StoreNnInVx(1, 10));
    run(&mut c, Opcode::StoreNnInVx(2, 5));
    run(&mut c, Opcode::DrawSprite(1, 2, 1));
    assert_eq!(c.register(0xF), 0);
    for x in 10..18 {
        assert!(c.pixel(x, 5));
    }
    run(&mut c, Opcode::DrawSprite(1, 2, 1));
    assert_eq!(c.register(0xF), 1);
    for x in 10..18 {
        assert!(!c.pixel(x, 5));
    }
}

#[test]
fn draw_wraps_around() {
    let mut c = CPU::new();
    c.load_program(&[0xFF, 0x80]).unwrap();
    run(&mut c, Opcode::StoreNnnInI(0x200));
    run(&mut c, Opcode::StoreNnInVx(1, 60));
    run(&mut c, Opcode::StoreNnInVx(2, 31));
    run(&mut c, Opcode::DrawSprite(1, 2, 2));
    for x in 60..64 {
        assert!(c.pixel(x, 31));
    }
    for x in 0..4 {
        assert!(c.pixel(x, 31));
    }
    assert!(!c.pixel(4, 31));
    assert!(!c.pixel(59, 31));
    assert!(c.pixel(60, 0));
    assert!(!c.pixel(61, 0));
}

#[test]
fn draw_font_glyph() {
    let mut c = CPU::new();
    run(&mut c, Opcode::StoreNnInVx(1, 0));
    run(&mut c, Opcode::SetSpriteIFromVx(1));
    assert_eq!(c.index(), 0);
    run(&mut c, Opcode::DrawSprite(1, 1, 5));
    assert!(c.pixel(0, 0) && c.pixel(3, 0) && !c.pixel(4, 0));
    assert!(c.pixel(0, 1) && !c.pixel(1, 1) && c.pixel(3, 1));
    run(&mut c, Opcode::Clear);
    assert!(!c.pixel(0, 0));
}

#[test]
fn store_bcd_digits() {
    let mut c = CPU::new();
    run(&mut c, Opcode::StoreNnInVx(4, 234));
    run(&mut c, Opcode::StoreNnnInI(0x300));
    run(&mut c, Opcode::StoreBCD(4));
    assert_eq!(c.memory(0x300), 2);
    assert_eq!(c.memory(0x301), 3);
    assert_eq!(c.memory(0x302), 4);
}

#[test]
fn copy_and_fill_registers() {
    let mut c = CPU::new();
    for k in 0..4u8 {
        run(&mut c, Opcode::StoreNnInVx(k, 10 + k));
    }
    run(&mut c, Opcode::StoreNnnInI(0x400));
    run(&mut c, Opcode::CopyRegisters(3));
    assert_eq!(c.index(), 0x404);
    assert_eq!(c.memory(0x400), 10);
    assert_eq!(c.memory(0x403), 13);
    assert_eq!(c.memory(0x404), 0);
    let mut d = CPU::new();
    d.load_program(&[7, 8, 9]).unwrap();
    run(&mut d, Opcode::StoreNnnInI(0x200));
    run(&mut d, Opcode::FillRegisters(2));
    assert_eq!(d.index(), 0x203);
    assert_eq!(d.register(0), 7);
    assert_eq!(d.register(2), 9);
    assert_eq!(d.register(3), 0);
}

#[test]
fn reserved_memory_is_not_written() {
    let mut c = CPU::new();
    run(&mut c, Opcode::StoreNnnInI(0x010));
    assert_eq!(
        c.execute_instruction(Opcode::StoreBCD(0), 0),
        Err(Chip8Error::OutOfBoundsAccess)
    );
    assert_eq!(
        c.execute_instruction(Opcode::CopyRegisters(0), 0),
        Err(Chip8Error::OutOfBoundsAccess)
    );
    assert_eq!(c.memory(0x010), 0x10);
}

#[test]
fn memory_bounds_are_checked() {
    let mut c = CPU::new();
    run(&mut c, Opcode::StoreNnnInI(0xFFE));
    assert_eq!(
        c.execute_instruction(Opcode::StoreBCD(0), 0),
        Err(Chip8Error::OutOfBoundsAccess)
    );
    assert_eq!(
        c.execute_instruction(Opcode::FillRegisters(2), 0),
        Err(Chip8Error::OutOfBoundsAccess)
    );
    assert_eq!(
        c.execute_instruction(Opcode::DrawSprite(0, 0, 3), 0),
        Err(Chip8Error::OutOfBoundsAccess)
    );
    assert_eq!(
        c.execute_instruction(Opcode::Add(16, 0), 0),
        Err(Chip8Error::OutOfBoundsAccess)
    );
    run(&mut c, Opcode::StoreNnInVx(1, 16));
    assert_eq!(
        c.execute_instruction(Opcode::SkipIfKeyDown(1), 0),
        Err(Chip8Error::OutOfBoundsAccess)
    );
    assert_eq!(
        c.execute_instruction(Opcode::SetSpriteIFromVx(1), 0),
        Err(Chip8Error::OutOfBoundsAccess)
    );
    assert_eq!(
        c.execute_instruction(Opcode::AddVxToI(1), 0),
        Err(Chip8Error::OutOfBoundsAccess)
    );
    assert_eq!(c.index(), 0xFFE);
}

#[test]
fn nested_calls_and_returns() {
    let mut c = CPU::new();
    c.load_program(&[]).unwrap();
    let mut pcs = Vec::new();
    for k in 0..16u16 {
        pcs.push(c.pc());
        run(&mut c, Opcode::Call(0x300 + 2 * k));
        assert_eq!(c.pc(), 0x300 + 2 * k);
    }
    assert_eq!(c.stack_depth(), 16);
    assert_eq!(
        c.execute_instruction(Opcode::Call(0x500), 0),
        Err(Chip8Error::StackOverflow)
    );
    assert_eq!(c.pc(), 0x31E);
    while let Some(expected) = pcs.pop() {
        run(&mut c, Opcode::Return);
        assert_eq!(c.pc(), expected);
    }
    assert_eq!(
        c.execute_instruction(Opcode::Return, 0),
        Err(Chip8Error::StackUnderflow)
    );
}

#[test]
fn call_from_program_returns_after_call() {
    let mut c = CPU::new();
    c.load_program(&[0x22, 0x04, 0x00, 0xE0, 0x00, 0xEE]).unwrap();
    assert_eq!(c.step(0), Ok(()));
    assert_eq!(c.pc(), 0x204);
    assert_eq!(c.step(0), Ok(()));
    assert_eq!(c.pc(), 0x202);
}

#[test]
fn skips_and_jumps() {
    let mut c = CPU::new();
    c.load_program(&[]).unwrap();
    run(&mut c, Opcode::StoreNnInVx(1, 7));
    run(&mut c, Opcode::SkipIfVxEqualsNn(1, 7));
    assert_eq!(c.pc(), 0x202);
    run(&mut c, Opcode::SkipIfVxNotEqualsNn(1, 7));
    assert_eq!(c.pc(), 0x202);
    run(&mut c, Opcode::SkipIfVxEqualsVy(1, 1));
    assert_eq!(c.pc(), 0x204);
    run(&mut c, Opcode::SkipIfVxNotEqualsVy(1, 2));
    assert_eq!(c.pc(), 0x206);
    run(&mut c, Opcode::StoreNnInVx(0, 0x10));
    run(&mut c, Opcode::JumpAddV0(0x300));
    assert_eq!(c.pc(), 0x310);
}

#[test]
fn timers_stop_at_zero() {
    let mut c = CPU::new();
    for _ in 0..5 {
        c.tick_timers();
        assert_eq!(c.delay(), 0);
        assert_eq!(c.sound(), 0);
    }
    run(&mut c, Opcode::StoreNnInVx(1, 2));
    run(&mut c, Opcode::SetDelayToVx(1));
    run(&mut c, Opcode::SetSoundToVx(1));
    assert!(c.sound_active());
    c.tick_timers();
    assert_eq!(c.delay(), 1);
    c.tick_timers();
    c.tick_timers();
    assert_eq!(c.delay(), 0);
    assert!(!c.sound_active());
    run(&mut c, Opcode::StoreDelayInVx(3));
    assert_eq!(c.register(3), 0);
}

#[test]
fn keys_and_waiting() {
    let mut c = CPU::new();
    c.load_program(&[0xF3, 0x0A, 0x00, 0xE0]).unwrap();
    assert_eq!(c.step(0), Ok(()));
    assert_eq!(c.awaiting_key(), Some(3));
    assert_eq!(c.step(0), Ok(()));
    assert_eq!(c.pc(), 0x202);
    assert_eq!(c.set_key(16, true), Err(Chip8Error::OutOfBoundsAccess));
    assert_eq!(c.set_key(0xA, true), Ok(()));
    assert_eq!(c.awaiting_key(), None);
    assert_eq!(c.register(3), 0xA);
    run(&mut c, Opcode::SkipIfKeyDown(3));
    assert_eq!(c.pc(), 0x204);
    run(&mut c, Opcode::SkipIfKeyNotDown(3));
    assert_eq!(c.pc(), 0x204);
    c.set_key(0xA, false).unwrap();
    run(&mut c, Opcode::SkipIfKeyNotDown(3));
    assert_eq!(c.pc(), 0x206);
}
