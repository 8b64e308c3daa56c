use vstd::prelude::*;

verus! {

/// Sentinel key code meaning "no key is currently pressed"; the sixteen
/// real key codes are 0x0 through 0xF.
pub const NO_KEY: u8 = 17;

/// The conditions a step can fail on: returning with an empty call stack,
/// and loading a program that would run past the end of memory.
#[derive(Debug, Clone, Copy, PartialEq, Eq, Structural)]
pub enum Chip8Error {
    StackUnderflow,
    LoadOverflow,
}

/// The complete state of the virtual machine: 4096 bytes of memory, a
/// 32 x 64 monochrome framebuffer, sixteen 8-bit registers, a call stack,
/// two countdown timers, the pending key, and the auto-increment flag that
/// the driver consults after each instruction.
pub struct Chip8 {
    pub memory: Vec<u8>,
    pub display: Vec<Vec<bool>>,
    pub program_counter: u16,
    pub index_register: usize,
    pub stack: Vec<u16>,
    pub delay_timer: u8,
    pub sound_timer: u8,
    pub variable_register: Vec<u8>,
    pub increment_pc: bool,
    pub key_pressed: u8,
    pub unknown_opcode_count: u64,
}

/// The mathematical image of a machine state: every collection replaced by
/// a sequence.
#[verifier::ext_equal]
pub ghost struct Chip8View {
    pub memory: Seq<u8>,
    pub display: Seq<Seq<bool>>,
    pub program_counter: u16,
    pub index_register: usize,
    pub stack: Seq<u16>,
    pub delay_timer: u8,
    pub sound_timer: u8,
    pub variable_register: Seq<u8>,
    pub increment_pc: bool,
    pub key_pressed: u8,
    pub unknown_opcode_count: u64,
}

impl View for Chip8 {
    type V = Chip8View;

    open spec fn view(&self) -> Chip8View {
        Chip8View {
            memory: self.memory@,
            display: Seq::new(self.display@.len(), |r: int| self.display@[r]@),
            program_counter: self.program_counter,
            index_register: self.index_register,
            stack: self.stack@,
            delay_timer: self.delay_timer,
            sound_timer: self.sound_timer,
            variable_register: self.variable_register@,
            increment_pc: self.increment_pc,
            key_pressed: self.key_pressed,
            unknown_opcode_count: self.unknown_opcode_count,
        }
    }
}

impl Chip8View {
    /// Well-formedness: the sizes of memory, framebuffer and register file
    /// are fixed, and the index register never exceeds its overflow
    /// sentinel value 0x1000.
    pub open spec fn wf(self) -> bool {
        &&& self.memory.len() == 4096
        &&& self.display.len() == 32
        &&& (forall|r: int| 0 <= r < 32 ==> (#[trigger] self.display[r]).len() == 64)
        &&& self.variable_register.len() == 16
        &&& self.index_register <= 0x1000
    }
}

/// The framebuffer with every pixel off.
pub open spec fn cleared_display() -> Seq<Seq<bool>> {
    Seq::new(32, |r: int| Seq::new(64, |c: int| false))
}

/// The built-in font: sixteen glyphs (hex digits 0 through F), five bytes
/// each, copied to memory at 0x050 on initialization.
pub open spec fn font_data() -> Seq<u8> {
    seq![
        0xF0u8, 0x90, 0x90, 0x90, 0xF0, // 0
        0x20, 0x60, 0x20, 0x20, 0x70, // 1
        0xF0, 0x10, 0xF0, 0x80, 0xF0, // 2
        0xF0, 0x10, 0xF0, 0x10, 0xF0, // 3
        0x90, 0x90, 0xF0, 0x10, 0x10, // 4
        0xF0, 0x80, 0xF0, 0x10, 0xF0, // 5
        0xF0, 0x80, 0xF0, 0x90, 0xF0, // 6
        0xF0, 0x10, 0x20, 0x40, 0x40, // 7
        0xF0, 0x90, 0xF0, 0x90, 0xF0, // 8
        0xF0, 0x90, 0xF0, 0x10, 0xF0, // 9
        0xF0, 0x90, 0xF0, 0x90, 0x90, // A
        0xE0, 0x90, 0xE0, 0x90, 0xE0, // B
        0xF0, 0x80, 0x80, 0x80, 0xF0, // C
        0xE0, 0x90, 0x90, 0x90, 0xE0, // D
        0xF0, 0x80, 0xF0, 0x80, 0xF0, // E
        0xF0, 0x80, 0xF0, 0x80, 0x80, // F
    ]
}

/// A fresh all-off framebuffer: 32 rows of 64 pixels.
pub(crate) fn blank_display() -> (d: Vec<Vec<bool>>)
    ensures
        d@.len() == 32,
        Seq::new(d@.len(), |r: int| d@[r]@) == cleared_display(),
{
    let mut d: Vec<Vec<bool>> = Vec::new();
    while d.len() < 32
        invariant
            d@.len() <= 32,
            forall|r: int| 0 <= r < d@.len() ==> (#[trigger] d@[r])@ == Seq::new(64, |c: int| false),
        decreases 32 - d@.len(),
    {
        let mut row: Vec<bool> = Vec::new();
        while row.len() < 64
            invariant
                row@.len() <= 64,
                forall|c: int| 0 <= c < row@.len() ==> !(#[trigger] row@[c]),
            decreases 64 - row@.len(),
        {
            row.push(false);
        }
        assert(row@ =~= Seq::new(64, |c: int| false));
        d.push(row);
    }
    assert(Seq::new(d@.len(), |r: int| d@[r]@) =~~= cleared_display());
    d
}

impl Chip8 {
    /// Copies the 80-byte font bitmap into memory at 0x050; every other
    /// byte of memory, and every other part of the state, is untouched.
    pub fn init_font_in_memory(&mut self)
        requires
            old(self)@.wf(),
        ensures
            final(self)@.wf(),
            final(self)@ == (Chip8View { memory: final(self)@.memory, ..old(self)@ }),
            forall|a: int|
                0 <= a < 4096 ==> final(self)@.memory[a] == (if 0x50 <= a < 0xA0 {
                    font_data()[a - 0x50]
                } else {
                    old(self)@.memory[a]
                }),
    {
        let font_set: [u8; 80] = [
            0xF0, 0x90, 0x90, 0x90, 0xF0, // 0
            0x20, 0x60, 0x20, 0x20, 0x70, // 1
            0xF0, 0x10, 0xF0, 0x80, 0xF0, // 2
            0xF0, 0x10, 0xF0, 0x10, 0xF0, // 3
            0x90, 0x90, 0xF0, 0x10, 0x10, // 4
            0xF0, 0x80, 0xF0, 0x10, 0xF0, // 5
            0xF0, 0x80, 0xF0, 0x90, 0xF0, // 6
            0xF0, 0x10, 0x20, 0x40, 0x40, // 7
            0xF0, 0x90, 0xF0, 0x90, 0xF0, // 8
            0xF0, 0x90, 0xF0, 0x10, 0xF0, // 9
            0xF0, 0x90, 0xF0, 0x90, 0x90, // A
            0xE0, 0x90, 0xE0, 0x90, 0xE0, // B
            0xF0, 0x80, 0x80, 0x80, 0xF0, // C
            0xE0, 0x90, 0x90, 0x90, 0xE0, // D
            0xF0, 0x80, 0xF0, 0x80, 0xF0, // E
            0xF0, 0x80, 0xF0, 0x80, 0x80, // F
        ];
        assert(font_set@ =~= font_data());
        let mut i: usize = 0;
        while i < 80
            invariant
                i <= 80,
                self@.wf(),
                font_set@ == font_data(),
                self@ == (Chip8View { memory: self@.memory, ..old(self)@ }),
                forall|a: int|
                    0 <= a < 4096 ==> self@.memory[a] == (if 0x50 <= a < 0x50 + i {
                        font_data()[a - 0x50]
                    } else {
                        old(self)@.memory[a]
                    }),
            decreases 80 - i,
        {
            self.memory[0x50 + i] = font_set[i];
            i = i + 1;
        }
    }

    /// A freshly initialized machine: memory all zero except the font at
    /// 0x050, all registers zero, screen off, empty stack, program counter
    /// at 0x200, no key pending, auto-increment on.
    pub fn init() -> (r: Chip8)
        ensures
            r@.wf(),
            r@.program_counter == 0x200,
            r@.index_register == 0,
            r@.stack.len() == 0,
            r@.delay_timer == 0,
            r@.sound_timer == 0,
            r@.increment_pc,
            r@.key_pressed == NO_KEY,
            r@.unknown_opcode_count == 0,
            r@.display == cleared_display(),
            forall|i: int| 0 <= i < 16 ==> r@.variable_register[i] == 0,
            forall|a: int|
                0 <= a < 4096 ==> r@.memory[a] == (if 0x50 <= a < 0xA0 {
                    font_data()[a - 0x50]
                } else {
                    0u8
                }),
    {
        let mut memory: Vec<u8> = Vec::new();
        while memory.len() < 4096
            invariant
                memory@.len() <= 4096,
                forall|a: int| 0 <= a < memory@.len() ==> memory@[a] == 0u8,
            decreases 4096 - memory@.len(),
        {
            memory.push(0);
        }
        let mut variable_register: Vec<u8> = Vec::new();
        while variable_register.len() < 16
            invariant
                variable_register@.len() <= 16,
                forall|i: int| 0 <= i < variable_register@.len() ==> variable_register@[i] == 0u8,
            decreases 16 - variable_register@.len(),
        {
            variable_register.push(0);
        }
        let mut initialized = Chip8 {
            memory,
            display: blank_display(),
            program_counter: 0x200,
            index_register: 0,
            stack: Vec::new(),
            delay_timer: 0,
            sound_timer: 0,
            variable_register,
            increment_pc: true,
            key_pressed: NO_KEY,
            unknown_opcode_count: 0,
        };
        initialized.init_font_in_memory();
        initialized
    }

    /// Copies a program verbatim into memory starting at 0x200. A program
    /// that would run past the end of memory is rejected whole: the error
    /// comes back and nothing is written.
    pub fn load_rom(&mut self, rom: &[u8]) -> (r: Result<(), Chip8Error>)
        requires
            old(self)@.wf(),
        ensures
            final(self)@.wf(),
            r is Ok <==> 0x200 + rom@.len() <= 4096,
            r is Err ==> r == Err::<(), Chip8Error>(Chip8Error::LoadOverflow) && final(self)@
                == old(self)@,
            r is Ok ==> final(self)@ == (Chip8View { memory: final(self)@.memory, ..old(self)@ }),
            r is Ok ==> forall|a: int|
                0 <= a < 4096 ==> final(self)@.memory[a] == (if 0x200 <= a < 0x200 + rom@.len() {
                    rom@[a - 0x200]
                } else {
                    old(self)@.memory[a]
                }),
    {
        if rom.len() > 4096 - 0x200 {
            return Err(Chip8Error::LoadOverflow);
        }
        let mut i: usize = 0;
        while i < rom.len()
            invariant
                i <= rom@.len(),
                rom@.len() <= 4096 - 0x200,
                self@.wf(),
                self@ == (Chip8View { memory: self@.memory, ..old(self)@ }),
                forall|a: int|
                    0 <= a < 4096 ==> self@.memory[a] == (if 0x200 <= a < 0x200 + i {
                        rom@[a - 0x200]
                    } else {
                        old(self)@.memory[a]
                    }),
            decreases rom@.len() - i,
        {
            self.memory[0x200 + i] = rom[i];
            i = i + 1;
        }
        Ok(())
    }

    /// One row of the framebuffer, copied out for presentation.
    pub fn get_display_row(&self, y: u16) -> (row: Vec<bool>)
        requires
            self@.wf(),
            y < 32,
        ensures
            row@ == self@.display[y as int],
    {
        let mut row: Vec<bool> = Vec::new();
        while row.len() < 64
            invariant
                self@.wf(),
                y < 32,
                row@.len() <= 64,
                forall|c: int| 0 <= c < row@.len() ==> row@[c] == self@.display[y as int][c],
            decreases 64 - row@.len(),
        {
            let c = row.len();
            assert(self.display@[y as int]@ == self@.display[y as int]);
            row.push(self.display[y as usize][c]);
        }
        assert(row@ =~= self@.display[y as int]);
        row
    }

    /// One timer tick: each timer goes down by one, with a floor of zero;
    /// nothing else changes.
    pub fn tick_timers(&mut self)
        ensures
            final(self)@ == (Chip8View {
                delay_timer: if old(self)@.delay_timer > 0 {
                    (old(self)@.delay_timer - 1) as u8
                } else {
                    0u8
                },
                sound_timer: if old(self)@.sound_timer > 0 {
                    (old(self)@.sound_timer - 1) as u8
                } else {
                    0u8
                },
                ..old(self)@
            }),
    {
        if self.delay_timer > 0 {
            self.delay_timer = self.delay_timer - 1;
        }
        if self.sound_timer > 0 {
            self.sound_timer = self.sound_timer - 1;
        }
    }
}

} // verus!
