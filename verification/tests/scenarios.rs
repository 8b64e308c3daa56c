use chip8::machine::{Chip8, NO_KEY};

fn step(emu: &mut Chip8) {
    assert!(emu.step_ready());
    emu.step().unwrap();
}

#[test]
fn add_with_carry_program() {
    let mut emu = Chip8::init();
    emu.load_rom(&[0x60, 0x05, 0x61, 0x03, 0x80, 0x14]).unwrap();
    step(&mut emu);
    step(&mut emu);
    step(&mut emu);
    assert_eq!(emu.variable_register[0], 8);
    assert_eq!(emu.variable_register[15], 0);
    assert_eq!(emu.program_counter, 0x206);
}

#[test]
fn key_wait_blocks_then_proceeds() {
    let mut emu = Chip8::init();
    emu.load_rom(&[0xF0, 0x0A]).unwrap();
    emu.key_pressed = NO_KEY;
    step(&mut emu);
    assert_eq!(emu.program_counter, 0x200);
    assert_eq!(emu.variable_register[0], 0);
    step(&mut emu);
    assert_eq!(emu.program_counter, 0x200);
    emu.key_pressed = 0x5;
    step(&mut emu);
    assert_eq!(emu.variable_register[0], 5);
    assert_eq!(emu.program_counter, 0x202);
}

#[test]
fn fetch_is_big_endian() {
    let mut emu = Chip8::init();
    emu.load_rom(&[0x6A, 0x42]).unwrap();
    assert_eq!(emu.fetch_opcode(), 0x6A42);
}

#[test]
fn step_advances_past_plain_instruction() {
    let mut emu = Chip8::init();
    emu.load_rom(&[0x6A, 0x42, 0x6B, 0x07]).unwrap();
    step(&mut emu);
    assert_eq!(emu.variable_register[0xA], 0x42);
    assert_eq!(emu.program_counter, 0x202);
    assert!(emu.increment_pc);
    step(&mut emu);
    assert_eq!(emu.variable_register[0xB], 0x07);
    assert_eq!(emu.program_counter, 0x204);
}

#[test]
fn step_does_not_advance_after_jump() {
    let mut emu = Chip8::init();
    emu.load_rom(&[0x12, 0x34]).unwrap();
    step(&mut emu);
    assert_eq!(emu.program_counter, 0x234);
    assert!(emu.increment_pc);
}

#[test]
fn call_and_return_round_trip() {
    // 0x200: CALL 0x204; 0x202: unused; 0x204: RET
    let mut emu = Chip8::init();
    emu.load_rom(&[0x22, 0x04, 0x00, 0x00, 0x00, 0xEE]).unwrap();
    step(&mut emu);
    assert_eq!(emu.program_counter, 0x204);
    step(&mut emu);
    assert_eq!(emu.program_counter, 0x202);
    assert!(emu.stack.is_empty());
}

#[test]
fn step_ready_refuses_fetch_past_memory() {
    let mut emu = Chip8::init();
    emu.program_counter = 4095;
    assert!(!emu.step_ready());
    emu.program_counter = 4094;
    assert!(emu.step_ready());
}

#[test]
fn step_ready_refuses_sprite_read_past_memory() {
    let mut emu = Chip8::init();
    emu.load_rom(&[0xD0, 0x01]).unwrap();
    emu.index_register = 0x1000;
    assert!(!emu.step_ready());
    emu.index_register = 0xFFF;
    assert!(emu.step_ready());
}

#[test]
fn step_ready_refuses_register_store_past_memory() {
    let mut emu = Chip8::init();
    emu.load_rom(&[0xF2, 0x55]).unwrap();
    emu.index_register = 0xFFE;
    assert!(!emu.step_ready());
    emu.index_register = 0xFFD;
    assert!(emu.step_ready());
}

#[test]
fn step_ready_refuses_key_wait_rewind_below_zero() {
    let mut emu = Chip8::init();
    emu.memory[0] = 0xF0;
    emu.memory[1] = 0x0A;
    emu.program_counter = 0;
    emu.key_pressed = NO_KEY;
    assert!(!emu.step_ready());
    emu.key_pressed = 0x3;
    assert!(emu.step_ready());
}

#[test]
fn step_reports_stack_underflow() {
    let mut emu = Chip8::init();
    emu.load_rom(&[0x00, 0xEE]).unwrap();
    assert!(emu.step_ready());
    assert!(emu.step().is_err());
    assert_eq!(emu.program_counter, 0x200);
}

#[test]
fn unknown_opcode_steps_on() {
    let mut emu = Chip8::init();
    emu.load_rom(&[0x01, 0x23, 0x6A, 0x07]).unwrap();
    step(&mut emu);
    assert_eq!(emu.unknown_opcode_count, 1);
    assert_eq!(emu.program_counter, 0x202);
    step(&mut emu);
    assert_eq!(emu.variable_register[0xA], 7);
}
