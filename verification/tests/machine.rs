use chip8::machine::{Chip8, Chip8Error, NO_KEY};

const FONT: [u8; 80] = [
    0xF0, 0x90, 0x90, 0x90, 0xF0, 0x20, 0x60, 0x20, 0x20, 0x70, 0xF0, 0x10, 0xF0, 0x80, 0xF0,
    0xF0, 0x10, 0xF0, 0x10, 0xF0, 0x90, 0x90, 0xF0, 0x10, 0x10, 0xF0, 0x80, 0xF0, 0x10, 0xF0,
    0xF0, 0x80, 0xF0, 0x90, 0xF0, 0xF0, 0x10, 0x20, 0x40, 0x40, 0xF0, 0x90, 0xF0, 0x90, 0xF0,
    0xF0, 0x90, 0xF0, 0x10, 0xF0, 0xF0, 0x90, 0xF0, 0x90, 0x90, 0xE0, 0x90, 0xE0, 0x90, 0xE0,
    0xF0, 0x80, 0x80, 0x80, 0xF0, 0xE0, 0x90, 0x90, 0x90, 0xE0, 0xF0, 0x80, 0xF0, 0x80, 0xF0,
    0xF0, 0x80, 0xF0, 0x80, 0x80,
];

#[test]
fn init_defaults() {
    let emu = Chip8::init();
    assert_eq!(emu.program_counter, 0x200);
    assert_eq!(emu.index_register, 0);
    assert!(emu.stack.is_empty());
    assert_eq!(emu.delay_timer, 0);
    assert_eq!(emu.sound_timer, 0);
    assert!(emu.increment_pc);
    assert_eq!(emu.key_pressed, NO_KEY);
    assert_eq!(emu.unknown_opcode_count, 0);
    assert_eq!(emu.memory.len(), 4096);
    assert_eq!(emu.variable_register, vec![0u8; 16]);
}

#[test]
fn init_display_all_off() {
    let emu = Chip8::init();
    for y in 0..32u16 {
        let row = emu.get_display_row(y);
        assert_eq!(row.len(), 64);
        assert!(row.iter().all(|&p| !p));
    }
}

#[test]
fn init_font_at_0x50() {
    let emu = Chip8::init();
    assert_eq!(&emu.memory[0x50..0xA0], &FONT[..]);
    assert_eq!(emu.memory[0x4F], 0);
    assert_eq!(emu.memory[0xA0], 0);
}

#[test]
fn init_font_in_memory_rewrites_font() {
    let mut emu = Chip8::init();
    for a in 0x50..0xA0 {
        emu.memory[a] = 0xAA;
    }
    emu.init_font_in_memory();
    assert_eq!(&emu.memory[0x50..0xA0], &FONT[..]);
}

#[test]
fn load_rom_places_bytes_at_0x200() {
    let mut emu = Chip8::init();
    let rom = vec![0xDE, 0xAD, 0xBE, 0xEF];
    assert_eq!(emu.load_rom(&rom), Ok(()));
    assert_eq!(&emu.memory[0x200..0x204], &rom[..]);
    assert_eq!(emu.memory[0x204], 0);
    assert_eq!(emu.memory[0x1FF], 0);
}

#[test]
fn load_rom_fills_memory_to_the_end() {
    let mut emu = Chip8::init();
    let rom = vec![7u8; 4096 - 0x200];
    assert_eq!(emu.load_rom(&rom), Ok(()));
    assert_eq!(emu.memory[0xFFF], 7);
    assert_eq!(emu.memory[0x200], 7);
}

#[test]
fn load_rom_overflow_rejected_whole() {
    let mut emu = Chip8::init();
    let rom = vec![9u8; 4096 - 0x200 + 1];
    assert_eq!(emu.load_rom(&rom), Err(Chip8Error::LoadOverflow));
    assert_eq!(emu.memory[0x200], 0);
    assert_eq!(emu.memory[0xFFF], 0);
}

#[test]
fn tick_timers_counts_down_to_floor() {
    let mut emu = Chip8::init();
    emu.delay_timer = 2;
    emu.sound_timer = 1;
    emu.tick_timers();
    assert_eq!((emu.delay_timer, emu.sound_timer), (1, 0));
    emu.tick_timers();
    assert_eq!((emu.delay_timer, emu.sound_timer), (0, 0));
    emu.tick_timers();
    assert_eq!((emu.delay_timer, emu.sound_timer), (0, 0));
}

#[test]
fn get_display_row_copies_the_row() {
    let mut emu = Chip8::init();
    emu.display[5][63] = true;
    let row = emu.get_display_row(5);
    assert!(row[63]);
    assert!(!row[0]);
    let other = emu.get_display_row(4);
    assert!(!other[63]);
}
