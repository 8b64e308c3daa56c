use chip8::instructions::read_instruction;
use chip8::machine::{Chip8, Chip8Error, NO_KEY};

fn exec(emu: &mut Chip8, opcode: u16) {
    read_instruction(emu, opcode).unwrap();
}

#[test]
fn opcode_zero_is_reported_unknown() {
    let mut emu = Chip8::init();
    exec(&mut emu, 0x0000);
    assert_eq!(emu.program_counter, 0x200);
    assert_eq!(emu.unknown_opcode_count, 1);
    assert_eq!(emu.variable_register, vec![0u8; 16]);
}

#[test]
fn cls_turns_every_pixel_off() {
    let mut emu = Chip8::init();
    emu.display[0][0] = true;
    emu.display[31][63] = true;
    emu.display[17][20] = true;
    exec(&mut emu, 0x00E0);
    for y in 0..32u16 {
        assert!(emu.get_display_row(y).iter().all(|&p| !p));
    }
}

#[test]
fn ret_pops_the_stack() {
    let mut emu = Chip8::init();
    emu.stack.push(0x0345);
    exec(&mut emu, 0x00EE);
    assert_eq!(emu.program_counter, 0x0345);
    assert!(emu.stack.is_empty());
    assert!(emu.increment_pc);
}

#[test]
fn ret_on_empty_stack_underflows_without_mutation() {
    let mut emu = Chip8::init();
    emu.program_counter = 0x0300;
    let r = read_instruction(&mut emu, 0x00EE);
    assert_eq!(r, Err(Chip8Error::StackUnderflow));
    assert_eq!(emu.program_counter, 0x0300);
    assert!(emu.stack.is_empty());
    assert_eq!(emu.unknown_opcode_count, 0);
}

#[test]
fn jump_sets_pc_and_suppresses_increment() {
    let mut emu = Chip8::init();
    exec(&mut emu, 0x1ABC);
    assert_eq!(emu.program_counter, 0xABC);
    assert!(!emu.increment_pc);
}

#[test]
fn call_pushes_return_address() {
    let mut emu = Chip8::init();
    emu.program_counter = 0x0210;
    exec(&mut emu, 0x2456);
    assert_eq!(emu.program_counter, 0x456);
    assert_eq!(emu.stack, vec![0x0210]);
    assert!(!emu.increment_pc);
    exec(&mut emu, 0x00EE);
    assert_eq!(emu.program_counter, 0x0210);
    assert!(emu.stack.is_empty());
}

#[test]
fn skip_if_equal_immediate() {
    let mut emu = Chip8::init();
    emu.variable_register[3] = 0x42;
    exec(&mut emu, 0x3342);
    assert_eq!(emu.program_counter, 0x202);
    exec(&mut emu, 0x3341);
    assert_eq!(emu.program_counter, 0x202);
}

#[test]
fn skip_if_not_equal_immediate() {
    let mut emu = Chip8::init();
    emu.variable_register[3] = 0x42;
    exec(&mut emu, 0x4342);
    assert_eq!(emu.program_counter, 0x200);
    exec(&mut emu, 0x4341);
    assert_eq!(emu.program_counter, 0x202);
}

#[test]
fn skip_if_registers_equal() {
    let mut emu = Chip8::init();
    emu.variable_register[1] = 9;
    emu.variable_register[2] = 9;
    emu.variable_register[3] = 8;
    exec(&mut emu, 0x5120);
    assert_eq!(emu.program_counter, 0x202);
    exec(&mut emu, 0x5130);
    assert_eq!(emu.program_counter, 0x202);
}

#[test]
fn skip_if_registers_not_equal() {
    let mut emu = Chip8::init();
    emu.variable_register[1] = 9;
    emu.variable_register[2] = 9;
    emu.variable_register[3] = 8;
    exec(&mut emu, 0x9120);
    assert_eq!(emu.program_counter, 0x200);
    exec(&mut emu, 0x9130);
    assert_eq!(emu.program_counter, 0x202);
}

#[test]
fn load_immediate_stores_nn() {
    let mut emu = Chip8::init();
    exec(&mut emu, 0x6A42);
    assert_eq!(emu.variable_register[0xA], 0x42);
    for i in 0..16 {
        if i != 0xA {
            assert_eq!(emu.variable_register[i], 0);
        }
    }
}

#[test]
fn add_immediate_wraps_without_flag() {
    let mut emu = Chip8::init();
    emu.variable_register[1] = 200;
    emu.variable_register[15] = 9;
    exec(&mut emu, 0x7150);
    assert_eq!(emu.variable_register[1], ((200u16 + 0x50) % 256) as u8);
    assert_eq!(emu.variable_register[15], 9);
}

#[test]
fn alu_assign_or_and_xor() {
    let mut emu = Chip8::init();
    emu.variable_register[1] = 0b1100;
    emu.variable_register[2] = 0b1010;
    exec(&mut emu, 0x8120);
    assert_eq!(emu.variable_register[1], 0b1010);
    emu.variable_register[1] = 0b1100;
    exec(&mut emu, 0x8121);
    assert_eq!(emu.variable_register[1], 0b1110);
    emu.variable_register[1] = 0b1100;
    exec(&mut emu, 0x8122);
    assert_eq!(emu.variable_register[1], 0b1000);
    emu.variable_register[1] = 0b1100;
    exec(&mut emu, 0x8123);
    assert_eq!(emu.variable_register[1], 0b0110);
}

#[test]
fn alu_add_sets_carry_iff_overflow() {
    let mut emu = Chip8::init();
    emu.variable_register[1] = 200;
    emu.variable_register[2] = 100;
    exec(&mut emu, 0x8124);
    assert_eq!(emu.variable_register[1], 44);
    assert_eq!(emu.variable_register[15], 1);
    emu.variable_register[1] = 100;
    exec(&mut emu, 0x8124);
    assert_eq!(emu.variable_register[1], 200);
    assert_eq!(emu.variable_register[15], 0);
}

#[test]
fn alu_sub_sets_flag_iff_no_borrow() {
    let mut emu = Chip8::init();
    emu.variable_register[1] = 7;
    emu.variable_register[2] = 5;
    exec(&mut emu, 0x8125);
    assert_eq!(emu.variable_register[1], 2);
    assert_eq!(emu.variable_register[15], 1);
    emu.variable_register[1] = 5;
    emu.variable_register[2] = 7;
    exec(&mut emu, 0x8125);
    assert_eq!(emu.variable_register[1], 254);
    assert_eq!(emu.variable_register[15], 0);
}

#[test]
fn alu_sub_flag_on_equal_values() {
    let mut emu = Chip8::init();
    emu.variable_register[1] = 5;
    emu.variable_register[2] = 5;
    exec(&mut emu, 0x8125);
    assert_eq!(emu.variable_register[1], 0);
    assert_eq!(emu.variable_register[15], 1);
}

#[test]
fn alu_shift_right_captures_low_bit() {
    let mut emu = Chip8::init();
    emu.variable_register[1] = 5;
    exec(&mut emu, 0x8106);
    assert_eq!(emu.variable_register[1], 2);
    assert_eq!(emu.variable_register[15], 1);
    emu.variable_register[1] = 4;
    exec(&mut emu, 0x8106);
    assert_eq!(emu.variable_register[1], 2);
    assert_eq!(emu.variable_register[15], 0);
}

#[test]
fn alu_reverse_sub() {
    let mut emu = Chip8::init();
    emu.variable_register[1] = 5;
    emu.variable_register[2] = 7;
    exec(&mut emu, 0x8127);
    assert_eq!(emu.variable_register[1], 2);
    assert_eq!(emu.variable_register[15], 1);
    emu.variable_register[1] = 7;
    emu.variable_register[2] = 5;
    exec(&mut emu, 0x8127);
    assert_eq!(emu.variable_register[1], 254);
    assert_eq!(emu.variable_register[15], 0);
}

#[test]
fn alu_shift_left_captures_high_bit() {
    let mut emu = Chip8::init();
    emu.variable_register[1] = 0x81;
    exec(&mut emu, 0x810E);
    assert_eq!(emu.variable_register[1], 0x02);
    assert_eq!(emu.variable_register[15], 1);
    emu.variable_register[1] = 0x41;
    exec(&mut emu, 0x810E);
    assert_eq!(emu.variable_register[1], 0x82);
    assert_eq!(emu.variable_register[15], 0);
}

#[test]
fn set_index_register() {
    let mut emu = Chip8::init();
    exec(&mut emu, 0xA123);
    assert_eq!(emu.index_register, 0x123);
}

#[test]
fn jump_with_offset_keeps_increment() {
    let mut emu = Chip8::init();
    emu.variable_register[0] = 0x10;
    exec(&mut emu, 0xB200);
    assert_eq!(emu.program_counter, 0x210);
    assert!(emu.increment_pc);
}

#[test]
fn random_masked_with_zero_is_zero() {
    let mut emu = Chip8::init();
    emu.variable_register[1] = 0xFF;
    exec(&mut emu, 0xC100);
    assert_eq!(emu.variable_register[1], 0);
}

#[test]
fn random_respects_mask() {
    let mut emu = Chip8::init();
    for _ in 0..32 {
        exec(&mut emu, 0xC20F);
        assert_eq!(emu.variable_register[2] & 0xF0, 0);
    }
}

#[test]
fn draw_glyph_zero_top_row() {
    let mut emu = Chip8::init();
    emu.index_register = 0x50;
    exec(&mut emu, 0xD005);
    // glyph 0 starts with 0xF0: four pixels on, four off
    let row = emu.get_display_row(0);
    assert_eq!(&row[0..8], &[true, true, true, true, false, false, false, false]);
    assert_eq!(emu.variable_register[15], 0);
    // rows 1..4 come from 0x90, 0x90, 0x90, 0xF0
    let row1 = emu.get_display_row(1);
    assert_eq!(&row1[0..4], &[true, false, false, true]);
}

#[test]
fn draw_twice_restores_and_collides() {
    let mut emu = Chip8::init();
    emu.index_register = 0x50;
    exec(&mut emu, 0xD005);
    exec(&mut emu, 0xD005);
    for y in 0..32u16 {
        assert!(emu.get_display_row(y).iter().all(|&p| !p));
    }
    assert_eq!(emu.variable_register[15], 1);
}

#[test]
fn draw_wraps_around_both_edges() {
    let mut emu = Chip8::init();
    emu.memory[0x300] = 0xC0; // two leftmost sprite pixels set
    emu.memory[0x301] = 0x80;
    emu.index_register = 0x300;
    emu.variable_register[0] = 63;
    emu.variable_register[1] = 31;
    exec(&mut emu, 0xD012);
    assert!(emu.get_display_row(31)[63]);
    assert!(emu.get_display_row(31)[0]);
    assert!(emu.get_display_row(0)[63]);
    assert!(!emu.get_display_row(0)[0]);
}

#[test]
fn draw_coordinates_taken_modulo_screen() {
    let mut emu = Chip8::init();
    emu.memory[0x300] = 0x80;
    emu.index_register = 0x300;
    emu.variable_register[0] = 64; // wraps to column 0
    emu.variable_register[1] = 32; // wraps to row 0
    exec(&mut emu, 0xD011);
    assert!(emu.get_display_row(0)[0]);
}

#[test]
fn skip_if_key_pressed() {
    let mut emu = Chip8::init();
    emu.variable_register[4] = 0xB;
    emu.key_pressed = 0xB;
    exec(&mut emu, 0xE49E);
    assert_eq!(emu.program_counter, 0x202);
    emu.key_pressed = 0xC;
    exec(&mut emu, 0xE49E);
    assert_eq!(emu.program_counter, 0x202);
}

#[test]
fn skip_if_key_not_pressed() {
    let mut emu = Chip8::init();
    emu.variable_register[4] = 0xB;
    emu.key_pressed = NO_KEY;
    exec(&mut emu, 0xE4A1);
    assert_eq!(emu.program_counter, 0x202);
    emu.key_pressed = 0xB;
    exec(&mut emu, 0xE4A1);
    assert_eq!(emu.program_counter, 0x202);
}

#[test]
fn timer_reads_and_writes() {
    let mut emu = Chip8::init();
    emu.variable_register[2] = 77;
    exec(&mut emu, 0xF215);
    assert_eq!(emu.delay_timer, 77);
    exec(&mut emu, 0xF218);
    assert_eq!(emu.sound_timer, 77);
    emu.delay_timer = 33;
    exec(&mut emu, 0xF307);
    assert_eq!(emu.variable_register[3], 33);
}

#[test]
fn key_wait_rewinds_pc_when_no_key() {
    let mut emu = Chip8::init();
    emu.key_pressed = NO_KEY;
    exec(&mut emu, 0xF00A);
    assert_eq!(emu.program_counter, 0x1FE);
    assert!(emu.increment_pc);
    assert_eq!(emu.variable_register[0], 0);
}

#[test]
fn key_wait_stores_key_when_pressed() {
    let mut emu = Chip8::init();
    emu.key_pressed = 0x5;
    exec(&mut emu, 0xF20A);
    assert_eq!(emu.variable_register[2], 5);
    assert_eq!(emu.program_counter, 0x200);
    assert!(emu.increment_pc);
}

#[test]
fn add_to_index_plain() {
    let mut emu = Chip8::init();
    emu.index_register = 0x100;
    emu.variable_register[1] = 0x20;
    exec(&mut emu, 0xF11E);
    assert_eq!(emu.index_register, 0x120);
    assert_eq!(emu.variable_register[15], 0);
}

#[test]
fn add_to_index_overflow_sets_flag_and_resets() {
    let mut emu = Chip8::init();
    emu.index_register = 0x0FF0;
    emu.variable_register[0] = 0x20;
    exec(&mut emu, 0xF01E);
    assert_eq!(emu.variable_register[15], 1);
    assert_eq!(emu.index_register, 0);
}

#[test]
fn add_to_index_sentinel_boundary_stays() {
    let mut emu = Chip8::init();
    emu.index_register = 0x0FF0;
    emu.variable_register[0] = 0x10;
    exec(&mut emu, 0xF01E);
    assert_eq!(emu.index_register, 0x1000);
    assert_eq!(emu.variable_register[15], 0);
}

#[test]
fn font_address_is_five_times_digit() {
    let mut emu = Chip8::init();
    emu.variable_register[3] = 7;
    exec(&mut emu, 0xF329);
    assert_eq!(emu.index_register, 35);
}

#[test]
fn bcd_of_255() {
    let mut emu = Chip8::init();
    emu.index_register = 0x300;
    emu.variable_register[1] = 255;
    exec(&mut emu, 0xF133);
    assert_eq!(&emu.memory[0x300..0x303], &[2, 5, 5]);
}

#[test]
fn bcd_of_7_left_pads_with_zeros() {
    let mut emu = Chip8::init();
    emu.index_register = 0x300;
    emu.variable_register[1] = 7;
    exec(&mut emu, 0xF133);
    assert_eq!(&emu.memory[0x300..0x303], &[0, 0, 7]);
}

#[test]
fn store_and_load_registers() {
    let mut emu = Chip8::init();
    emu.index_register = 0x300;
    for i in 0..4 {
        emu.variable_register[i] = (10 + i) as u8;
    }
    exec(&mut emu, 0xF355);
    assert_eq!(&emu.memory[0x300..0x304], &[10, 11, 12, 13]);
    assert_eq!(emu.memory[0x304], 0);
    for i in 0..16 {
        emu.variable_register[i] = 0;
    }
    exec(&mut emu, 0xF365);
    assert_eq!(&emu.variable_register[0..4], &[10, 11, 12, 13]);
    assert_eq!(emu.variable_register[4], 0);
}

#[test]
fn unknown_opcodes_count_and_do_nothing_else() {
    let mut emu = Chip8::init();
    exec(&mut emu, 0x0123);
    assert_eq!(emu.unknown_opcode_count, 1);
    exec(&mut emu, 0x8009);
    assert_eq!(emu.unknown_opcode_count, 2);
    exec(&mut emu, 0xE400);
    assert_eq!(emu.unknown_opcode_count, 3);
    exec(&mut emu, 0xF0FF);
    assert_eq!(emu.unknown_opcode_count, 4);
    assert_eq!(emu.program_counter, 0x200);
    assert_eq!(emu.variable_register, vec![0u8; 16]);
}
