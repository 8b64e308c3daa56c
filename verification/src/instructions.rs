use vstd::prelude::*;

use crate::machine::{blank_display, cleared_display, Chip8, Chip8Error, Chip8View, NO_KEY};

verus! {

// ---------------------------------------------------------------------------
// Decoding: the fields of a 16-bit instruction word.
// ---------------------------------------------------------------------------

/// High nibble: selects the instruction family.
pub open spec fn op_family(op: u16) -> u16 {
    op / 0x1000
}

/// Second nibble: a register index.
pub open spec fn op_x(op: u16) -> int {
    ((op / 0x100) % 0x10) as int
}

/// Third nibble: a register index.
pub open spec fn op_y(op: u16) -> int {
    ((op / 0x10) % 0x10) as int
}

/// Low nibble: a small immediate.
pub open spec fn op_n(op: u16) -> u16 {
    op % 0x10
}

/// Low byte: an 8-bit immediate.
pub open spec fn op_nn(op: u16) -> u8 {
    (op % 0x100) as u8
}

/// Low 12 bits: an address.
pub open spec fn op_nnn(op: u16) -> u16 {
    op % 0x1000
}

// ---------------------------------------------------------------------------
// Sprite drawing, described pixel by pixel.
// ---------------------------------------------------------------------------

/// Whether bit `b` of a sprite row byte is set, counting from the
/// most significant bit (bit 0 is drawn leftmost).
pub open spec fn sprite_bit(byte: u8, b: int) -> bool {
    (byte >> ((7 - b) as u8)) & 1 == 1
}

/// Whether sprite cell `(j, b)` of a sprite anchored at `(x0, y0)` lands on
/// pixel `(r, c)`: both coordinates wrap around the screen edges.
pub open spec fn sprite_targets(x0: int, y0: int, r: int, c: int, j: int, b: int) -> bool {
    r == (y0 + j) % 32 && c == (x0 + b) % 64
}

/// Whether sprite cell `(j, b)` lies in the prefix of the row-major drawing
/// order that ends just before row `rows`, bit `bits`.
pub open spec fn before(j: int, b: int, rows: int, bits: int) -> bool {
    j < rows || (j == rows && b < bits)
}

/// Whether pixel `(r, c)` is toggled by the prefix of the sprite ending at
/// `(rows, bits)`: some earlier sprite cell is set and lands there.
pub open spec fn sprite_hits(
    mem: Seq<u8>,
    idx: int,
    x0: int,
    y0: int,
    rows: int,
    bits: int,
    r: int,
    c: int,
) -> bool {
    exists|j: int, b: int|
        0 <= j && 0 <= b < 8 && before(j, b, rows, bits) && sprite_targets(x0, y0, r, c, j, b)
            && sprite_bit(mem[idx + j], b)
}

/// The framebuffer after drawing the prefix of the sprite ending at
/// `(rows, bits)`: a hit pixel is toggled, every other pixel keeps its state.
pub open spec fn draw_upto(
    disp: Seq<Seq<bool>>,
    mem: Seq<u8>,
    idx: int,
    x0: int,
    y0: int,
    rows: int,
    bits: int,
) -> Seq<Seq<bool>> {
    Seq::new(
        32,
        |r: int|
            Seq::new(
                64,
                |c: int|
                    if sprite_hits(mem, idx, x0, y0, rows, bits, r, c) {
                        !disp[r][c]
                    } else {
                        disp[r][c]
                    },
            ),
    )
}

/// Whether the prefix of the sprite ending at `(rows, bits)` collides:
/// some earlier set sprite cell lands on a pixel that was already on.
pub open spec fn collision_upto(
    disp: Seq<Seq<bool>>,
    mem: Seq<u8>,
    idx: int,
    x0: int,
    y0: int,
    rows: int,
    bits: int,
) -> bool {
    exists|j: int, b: int|
        0 <= j && 0 <= b < 8 && before(j, b, rows, bits) && sprite_bit(mem[idx + j], b)
            && disp[(y0 + j) % 32][(x0 + b) % 64]
}

/// The framebuffer after drawing a whole `n`-row sprite.
pub open spec fn draw_display(
    disp: Seq<Seq<bool>>,
    mem: Seq<u8>,
    idx: int,
    x0: int,
    y0: int,
    n: int,
) -> Seq<Seq<bool>> {
    draw_upto(disp, mem, idx, x0, y0, n, 0)
}

/// Whether drawing a whole `n`-row sprite collides anywhere.
pub open spec fn draw_collision(
    disp: Seq<Seq<bool>>,
    mem: Seq<u8>,
    idx: int,
    x0: int,
    y0: int,
    n: int,
) -> bool {
    collision_upto(disp, mem, idx, x0, y0, n, 0)
}

// ---------------------------------------------------------------------------
// Block memory transfers and binary-coded decimal.
// ---------------------------------------------------------------------------

/// Memory after the three decimal digits of `vx` (hundreds, tens, ones)
/// are stored at `idx`.
pub open spec fn mem_with_bcd(mem: Seq<u8>, idx: int, vx: u8) -> Seq<u8> {
    mem.update(idx, (vx / 100) as u8).update(idx + 1, ((vx / 10) % 10) as u8).update(
        idx + 2,
        (vx % 10) as u8,
    )
}

/// Memory after registers `V0 .. V(count-1)` are stored at `idx`.
pub open spec fn mem_with_regs(mem: Seq<u8>, vr: Seq<u8>, idx: int, count: int) -> Seq<u8> {
    Seq::new(
        mem.len() as nat,
        |a: int|
            if idx <= a < idx + count {
                vr[a - idx]
            } else {
                mem[a]
            },
    )
}

/// The register file after `V0 .. V(count-1)` are loaded from memory at
/// `idx`; the remaining registers keep their values.
pub open spec fn regs_from_mem(vr: Seq<u8>, mem: Seq<u8>, idx: int, count: int) -> Seq<u8> {
    Seq::new(
        vr.len() as nat,
        |i: int|
            if 0 <= i < count {
                mem[idx + i]
            } else {
                vr[i]
            },
    )
}

// ---------------------------------------------------------------------------
// The state transition of one instruction.
// ---------------------------------------------------------------------------

/// The state after an unrecognized opcode: the machine is untouched except
/// that the diagnostic counter goes up (it saturates rather than wraps).
pub open spec fn bump_unknown(pre: Chip8View) -> Chip8View {
    Chip8View {
        unknown_opcode_count: if pre.unknown_opcode_count < u64::MAX {
            (pre.unknown_opcode_count + 1) as u64
        } else {
            pre.unknown_opcode_count
        },
        ..pre
    }
}

/// The inputs on which executing `op` stays inside the machine: every
/// memory access of the instruction lands within the 4096 cells, and the
/// program counter arithmetic stays within 16 bits.
pub open spec fn exec_ok(v: Chip8View, op: u16) -> bool {
    let x = op_x(op);
    let vx = v.variable_register[x];
    let vy = v.variable_register[op_y(op)];
    let fam = op_family(op);
    if fam == 3 {
        vx == op_nn(op) ==> v.program_counter + 2 <= u16::MAX
    } else if fam == 4 {
        vx != op_nn(op) ==> v.program_counter + 2 <= u16::MAX
    } else if fam == 5 {
        vx == vy ==> v.program_counter + 2 <= u16::MAX
    } else if fam == 9 {
        vx != vy ==> v.program_counter + 2 <= u16::MAX
    } else if fam == 0xD {
        v.index_register + op_n(op) <= 4096
    } else if fam == 0xE {
        if op_nn(op) == 0x9E {
            v.key_pressed == vx ==> v.program_counter + 2 <= u16::MAX
        } else if op_nn(op) == 0xA1 {
            v.key_pressed != vx ==> v.program_counter + 2 <= u16::MAX
        } else {
            true
        }
    } else if fam == 0xF {
        if op_nn(op) == 0x0A {
            v.key_pressed == NO_KEY ==> v.program_counter >= 2
        } else if op_nn(op) == 0x33 {
            v.index_register + 3 <= 4096
        } else if op_nn(op) == 0x55 || op_nn(op) == 0x65 {
            v.index_register + x + 1 <= 4096
        } else {
            true
        }
    } else {
        true
    }
}

/// The state transition of one instruction: what executing `op` on `pre`
/// leaves behind. `rand` stands for the byte that the random opcode drew;
/// every other opcode ignores it. The return-with-empty-stack failure is
/// not covered here: it yields an error and no transition.
pub open spec fn exec_spec(pre: Chip8View, op: u16, rand: u8) -> Chip8View {
    let fam = op_family(op);
    let x = op_x(op);
    let y = op_y(op);
    let vr = pre.variable_register;
    let vx = vr[x];
    let vy = vr[y];
    let nn = op_nn(op);
    let nnn = op_nnn(op);
    if fam == 0 {
        if op == 0x00E0 {
            Chip8View { display: cleared_display(), ..pre }
        } else if op == 0x00EE {
            if pre.stack.len() > 0 {
                Chip8View { program_counter: pre.stack.last(), stack: pre.stack.drop_last(), ..pre }
            } else {
                pre
            }
        } else {
            bump_unknown(pre)
        }
    } else if fam == 1 {
        Chip8View { program_counter: nnn, increment_pc: false, ..pre }
    } else if fam == 2 {
        Chip8View {
            stack: pre.stack.push(pre.program_counter),
            program_counter: nnn,
            increment_pc: false,
            ..pre
        }
    } else if fam == 3 {
        if vx == nn {
            Chip8View { program_counter: (pre.program_counter + 2) as u16, ..pre }
        } else {
            pre
        }
    } else if fam == 4 {
        if vx != nn {
            Chip8View { program_counter: (pre.program_counter + 2) as u16, ..pre }
        } else {
            pre
        }
    } else if fam == 5 {
        if vx == vy {
            Chip8View { program_counter: (pre.program_counter + 2) as u16, ..pre }
        } else {
            pre
        }
    } else if fam == 6 {
        Chip8View { variable_register: vr.update(x, nn), ..pre }
    } else if fam == 7 {
        Chip8View {
            variable_register: vr.update(
                x,
                if vx + nn > 255 {
                    (vx + nn - 256) as u8
                } else {
                    (vx + nn) as u8
                },
            ),
            ..pre
        }
    } else if fam == 8 {
        let low = op_n(op);
        if low == 0 {
            Chip8View { variable_register: vr.update(x, vy), ..pre }
        } else if low == 1 {
            Chip8View { variable_register: vr.update(x, vx | vy), ..pre }
        } else if low == 2 {
            Chip8View { variable_register: vr.update(x, vx & vy), ..pre }
        } else if low == 3 {
            Chip8View { variable_register: vr.update(x, vx ^ vy), ..pre }
        } else if low == 4 {
            Chip8View {
                variable_register: vr.update(
                    x,
                    if vx + vy > 255 {
                        (vx + vy - 256) as u8
                    } else {
                        (vx + vy) as u8
                    },
                ).update(
                    15,
                    if vx + vy > 255 {
                        1u8
                    } else {
                        0u8
                    },
                ),
                ..pre
            }
        } else if low == 5 {
            Chip8View {
                variable_register: vr.update(
                    x,
                    if vx >= vy {
                        (vx - vy) as u8
                    } else {
                        (vx - vy + 256) as u8
                    },
                ).update(
                    15,
                    if vx >= vy {
                        1u8
                    } else {
                        0u8
                    },
                ),
                ..pre
            }
        } else if low == 6 {
            Chip8View { variable_register: vr.update(x, vx >> 1u8).update(15, vx & 1), ..pre }
        } else if low == 7 {
            Chip8View {
                variable_register: vr.update(
                    x,
                    if vy >= vx {
                        (vy - vx) as u8
                    } else {
                        (vy - vx + 256) as u8
                    },
                ).update(
                    15,
                    if vy >= vx {
                        1u8
                    } else {
                        0u8
                    },
                ),
                ..pre
            }
        } else if low == 0xE {
            Chip8View { variable_register: vr.update(x, vx << 1u8).update(15, vx >> 7u8), ..pre }
        } else {
            bump_unknown(pre)
        }
    } else if fam == 9 {
        if vx != vy {
            Chip8View { program_counter: (pre.program_counter + 2) as u16, ..pre }
        } else {
            pre
        }
    } else if fam == 0xA {
        Chip8View { index_register: nnn as usize, ..pre }
    } else if fam == 0xB {
        Chip8View { program_counter: (nnn + vr[0]) as u16, ..pre }
    } else if fam == 0xC {
        Chip8View { variable_register: vr.update(x, rand & nn), ..pre }
    } else if fam == 0xD {
        let x0 = (vx % 64) as int;
        let y0 = (vy % 32) as int;
        let idx = pre.index_register as int;
        let n = op_n(op) as int;
        Chip8View {
            display: draw_display(pre.display, pre.memory, idx, x0, y0, n),
            variable_register: vr.update(
                15,
                if draw_collision(pre.display, pre.memory, idx, x0, y0, n) {
                    1u8
                } else {
                    0u8
                },
            ),
            ..pre
        }
    } else if fam == 0xE {
        if nn == 0x9E {
            if pre.key_pressed == vx {
                Chip8View { program_counter: (pre.program_counter + 2) as u16, ..pre }
            } else {
                pre
            }
        } else if nn == 0xA1 {
            if pre.key_pressed != vx {
                Chip8View { program_counter: (pre.program_counter + 2) as u16, ..pre }
            } else {
                pre
            }
        } else {
            bump_unknown(pre)
        }
    } else {
        // fam == 0xF
        if nn == 0x07 {
            Chip8View { variable_register: vr.update(x, pre.delay_timer), ..pre }
        } else if nn == 0x0A {
            if pre.key_pressed == NO_KEY {
                Chip8View { program_counter: (pre.program_counter - 2) as u16, ..pre }
            } else {
                Chip8View { variable_register: vr.update(x, pre.key_pressed), ..pre }
            }
        } else if nn == 0x15 {
            Chip8View { delay_timer: vx, ..pre }
        } else if nn == 0x18 {
            Chip8View { sound_timer: vx, ..pre }
        } else if nn == 0x1E {
            if pre.index_register + vx > 0x1000 {
                Chip8View { index_register: 0, variable_register: vr.update(15, 1u8), ..pre }
            } else {
                Chip8View { index_register: (pre.index_register + vx) as usize, ..pre }
            }
        } else if nn == 0x29 {
            Chip8View { index_register: (vx * 5) as usize, ..pre }
        } else if nn == 0x33 {
            Chip8View { memory: mem_with_bcd(pre.memory, pre.index_register as int, vx), ..pre }
        } else if nn == 0x55 {
            Chip8View {
                memory: mem_with_regs(pre.memory, vr, pre.index_register as int, x + 1),
                ..pre
            }
        } else if nn == 0x65 {
            Chip8View {
                variable_register: regs_from_mem(vr, pre.memory, pre.index_register as int, x + 1),
                ..pre
            }
        } else {
            bump_unknown(pre)
        }
    }
}

// ---------------------------------------------------------------------------
// Execution.
// ---------------------------------------------------------------------------

/// Relies on rand::random (rand crate): draws one byte from the thread's
/// generator. Nothing is promised of the value.
#[verifier::external_body]
fn random_byte() -> u8 {
    rand::random::<u8>()
}

/// Counts one unrecognized opcode; the counter saturates rather than wraps.
fn report_unknown(emulator: &mut Chip8)
    ensures
        final(emulator)@ == bump_unknown(old(emulator)@),
{
    if emulator.unknown_opcode_count < u64::MAX {
        emulator.unknown_opcode_count = emulator.unknown_opcode_count + 1;
    }
    proof {
        assert(emulator@ =~~= bump_unknown(old(emulator)@));
    }
}

/// Writes one pixel of the framebuffer.
fn set_pixel(emulator: &mut Chip8, r: usize, c: usize, v: bool)
    requires
        old(emulator)@.wf(),
        r < 32,
        c < 64,
    ensures
        final(emulator)@.wf(),
        final(emulator)@ == (Chip8View { display: final(emulator)@.display, ..old(emulator)@ }),
        final(emulator)@.display == old(emulator)@.display.update(
            r as int,
            old(emulator)@.display[r as int].update(c as int, v),
        ),
{
    assert(emulator.display@[r as int]@ == emulator@.display[r as int]);
    emulator.display[r][c] = v;
    proof {
        assert(emulator@.display =~~= old(emulator)@.display.update(
            r as int,
            old(emulator)@.display[r as int].update(c as int, v),
        ));
    }
}

/// The sprite-draw operation: `n` rows of 8 pixels, fetched from memory at
/// the index register, XORed onto the screen at `(x0, y0)` with wraparound;
/// VF records whether any pixel was turned off.
#[verifier::loop_isolation(false)]
fn draw_sprite(emulator: &mut Chip8, x0: usize, y0: usize, n: usize)
    requires
        old(emulator)@.wf(),
        x0 < 64,
        y0 < 32,
        n <= 15,
        old(emulator)@.index_register + n <= 4096,
    ensures
        final(emulator)@.wf(),
        final(emulator)@ == (Chip8View {
            display: draw_display(
                old(emulator)@.display,
                old(emulator)@.memory,
                old(emulator)@.index_register as int,
                x0 as int,
                y0 as int,
                n as int,
            ),
            variable_register: old(emulator)@.variable_register.update(
                15,
                if draw_collision(
                    old(emulator)@.display,
                    old(emulator)@.memory,
                    old(emulator)@.index_register as int,
                    x0 as int,
                    y0 as int,
                    n as int,
                ) {
                    1u8
                } else {
                    0u8
                },
            ),
            ..old(emulator)@
        }),
{
    let ghost od = old(emulator)@.display;
    let ghost om = old(emulator)@.memory;
    let ghost oi = old(emulator)@.index_register as int;
    let ghost ovr = old(emulator)@.variable_register;
    emulator.variable_register[15] = 0;
    let idx_reg = emulator.index_register;
    let mut j: usize = 0;
    while j < n
        invariant
            emulator@.wf(),
            x0 < 64,
            y0 < 32,
            n <= 15,
            j <= n,
            idx_reg == oi,
            oi + n <= 4096,
            om.len() == 4096,
            emulator@ == (Chip8View {
                display: emulator@.display,
                variable_register: emulator@.variable_register,
                ..old(emulator)@
            }),
            emulator@.memory == om,
            emulator@.display.len() == 32,
            forall|r: int, c: int|
                0 <= r < 32 && 0 <= c < 64 ==> #[trigger] emulator@.display[r][c] == (
                if sprite_hits(om, oi, x0 as int, y0 as int, j as int, 0, r, c) {
                    !od[r][c]
                } else {
                    od[r][c]
                }),
            emulator@.variable_register == ovr.update(
                15,
                if collision_upto(od, om, oi, x0 as int, y0 as int, j as int, 0) {
                    1u8
                } else {
                    0u8
                },
            ),
        decreases n - j,
    {
        let sprite = emulator.memory[idx_reg + j];
        let mut b: usize = 0;
        while b < 8
            invariant
                emulator@.wf(),
                x0 < 64,
                y0 < 32,
                n <= 15,
                j < n,
                b <= 8,
                idx_reg == oi,
                oi + n <= 4096,
                om.len() == 4096,
                sprite == om[oi + j],
                emulator@ == (Chip8View {
                    display: emulator@.display,
                    variable_register: emulator@.variable_register,
                    ..old(emulator)@
                }),
                emulator@.memory == om,
                emulator@.display.len() == 32,
                forall|r: int, c: int|
                    0 <= r < 32 && 0 <= c < 64 ==> #[trigger] emulator@.display[r][c] == (
                    if sprite_hits(om, oi, x0 as int, y0 as int, j as int, b as int, r, c) {
                        !od[r][c]
                    } else {
                        od[r][c]
                    }),
                emulator@.variable_register == ovr.update(
                    15,
                    if collision_upto(od, om, oi, x0 as int, y0 as int, j as int, b as int) {
                        1u8
                    } else {
                        0u8
                    },
                ),
            decreases 8 - b,
        {
            let px = (x0 + b) % 64;
            let py = (y0 + j) % 32;
            let shift: u8 = (7 - b) as u8;
            let bit_on = ((sprite >> shift) & 1) == 1;
            proof {
                lemma_prefix_unique(om, oi, x0 as int, y0 as int, j as int, b as int, n as int);
                assert(emulator.display@[py as int]@ == emulator@.display[py as int]);
                assert(emulator@.display[py as int][px as int] == od[py as int][px as int]);
            }
            proof {
                lemma_prefix_step(
                    od,
                    om,
                    oi,
                    x0 as int,
                    y0 as int,
                    j as int,
                    b as int,
                    n as int,
                );
                assert(bit_on == sprite_bit(om[oi + j], b as int));
                assert(collision_upto(od, om, oi, x0 as int, y0 as int, j as int, b + 1)
                    == (collision_upto(od, om, oi, x0 as int, y0 as int, j as int, b as int) || (
                    sprite_bit(om[oi + j], b as int) && od[py as int][px as int])));
            }
            let ghost coll_next = collision_upto(od, om, oi, x0 as int, y0 as int, j as int, b + 1);
            if bit_on {
                let cur = emulator.display[py][px];
                if cur {
                    set_pixel(emulator, py, px, false);
                    emulator.variable_register[15] = 1;
                    proof {
                        assert(od[py as int][px as int]);
                        assert(coll_next);
                        assert(emulator@.variable_register =~= ovr.update(15, 1u8));
                    }
                } else {
                    set_pixel(emulator, py, px, true);
                    proof {
                        assert(!od[py as int][px as int]);
                        assert(coll_next == collision_upto(od, om, oi, x0 as int, y0 as int, j as int, b as int));
                        assert(emulator@.variable_register =~= ovr.update(
                            15,
                            if coll_next {
                                1u8
                            } else {
                                0u8
                            },
                        ));
                    }
                }
            } else {
                proof {
                    assert(coll_next == collision_upto(od, om, oi, x0 as int, y0 as int, j as int, b as int));
                    assert(emulator@.variable_register =~= ovr.update(
                        15,
                        if coll_next {
                            1u8
                        } else {
                            0u8
                        },
                    ));
                }
            }
            b = b + 1;
        }
        proof {
            lemma_prefix_row_wrap(od, om, oi, x0 as int, y0 as int, j as int);
        }
        j = j + 1;
    }
    proof {
        assert(emulator@.display =~~= draw_display(od, om, oi, x0 as int, y0 as int, n as int));
        assert(emulator@ =~~= (Chip8View {
            display: draw_display(od, om, oi, x0 as int, y0 as int, n as int),
            variable_register: ovr.update(
                15,
                if draw_collision(od, om, oi, x0 as int, y0 as int, n as int) {
                    1u8
                } else {
                    0u8
                },
            ),
            ..old(emulator)@
        }));
    }
}

/// Two sprite cells in the first sixteen rows never land on the same pixel:
/// the row offsets stay below the screen height and the bit offsets below
/// the screen width, so the wrapped coordinates determine the cell.
proof fn lemma_target_unique(x0: int, y0: int, j1: int, b1: int, j2: int, b2: int)
    requires
        0 <= x0 < 64,
        0 <= y0 < 32,
        0 <= j1 < 16,
        0 <= j2 < 16,
        0 <= b1 < 8,
        0 <= b2 < 8,
        (y0 + j1) % 32 == (y0 + j2) % 32,
        (x0 + b1) % 64 == (x0 + b2) % 64,
    ensures
        j1 == j2,
        b1 == b2,
{
    assert((y0 + j1) % 32 == if y0 + j1 < 32 {
        y0 + j1
    } else {
        y0 + j1 - 32
    });
    assert((y0 + j2) % 32 == if y0 + j2 < 32 {
        y0 + j2
    } else {
        y0 + j2 - 32
    });
    assert((x0 + b1) % 64 == if x0 + b1 < 64 {
        x0 + b1
    } else {
        x0 + b1 - 64
    });
    assert((x0 + b2) % 64 == if x0 + b2 < 64 {
        x0 + b2
    } else {
        x0 + b2 - 64
    });
}

/// The pixel that sprite cell `(j, b)` lands on is not touched by any
/// earlier cell of the same sprite.
proof fn lemma_prefix_unique(mem: Seq<u8>, idx: int, x0: int, y0: int, j: int, b: int, n: int)
    requires
        0 <= x0 < 64,
        0 <= y0 < 32,
        0 <= j < n <= 16,
        0 <= b < 8,
    ensures
        !sprite_hits(mem, idx, x0, y0, j, b, (y0 + j) % 32, (x0 + b) % 64) || !sprite_targets(
            x0,
            y0,
            (y0 + j) % 32,
            (x0 + b) % 64,
            j,
            b,
        ),
        !sprite_hits(mem, idx, x0, y0, j, b, (y0 + j) % 32, (x0 + b) % 64),
{
    let r = (y0 + j) % 32;
    let c = (x0 + b) % 64;
    if sprite_hits(mem, idx, x0, y0, j, b, r, c) {
        let (j2, b2) = choose|j2: int, b2: int|
            #![trigger sprite_bit(mem[idx + j2], b2)]
            0 <= j2 && 0 <= b2 < 8 && before(j2, b2, j, b) && sprite_targets(x0, y0, r, c, j2, b2)
                && sprite_bit(mem[idx + j2], b2);
        assert(j2 < 16);
        lemma_target_unique(x0, y0, j, b, j2, b2);
        assert(false);
    }
}

/// Extending the drawn prefix by one sprite cell changes exactly the pixel
/// that cell lands on (when its bit is set), and extends the collision
/// predicate by exactly that pixel's prior state.
proof fn lemma_prefix_step(
    disp: Seq<Seq<bool>>,
    mem: Seq<u8>,
    idx: int,
    x0: int,
    y0: int,
    j: int,
    b: int,
    n: int,
)
    requires
        0 <= x0 < 64,
        0 <= y0 < 32,
        0 <= j < n <= 16,
        0 <= b < 8,
    ensures
        forall|r: int, c: int|
            #![trigger sprite_hits(mem, idx, x0, y0, j, b + 1, r, c)]
            0 <= r < 32 && 0 <= c < 64 && !(r == (y0 + j) % 32 && c == (x0 + b) % 64)
                ==> sprite_hits(mem, idx, x0, y0, j, b + 1, r, c) == sprite_hits(
                mem,
                idx,
                x0,
                y0,
                j,
                b,
                r,
                c,
            ),
        sprite_bit(mem[idx + j], b) ==> sprite_hits(
            mem,
            idx,
            x0,
            y0,
            j,
            b + 1,
            (y0 + j) % 32,
            (x0 + b) % 64,
        ),
        !sprite_bit(mem[idx + j], b) ==> sprite_hits(
            mem,
            idx,
            x0,
            y0,
            j,
            b + 1,
            (y0 + j) % 32,
            (x0 + b) % 64,
        ) == sprite_hits(mem, idx, x0, y0, j, b, (y0 + j) % 32, (x0 + b) % 64),
        collision_upto(disp, mem, idx, x0, y0, j, b + 1) == (collision_upto(
            disp,
            mem,
            idx,
            x0,
            y0,
            j,
            b,
        ) || (sprite_bit(mem[idx + j], b) && disp[(y0 + j) % 32][(x0 + b) % 64])),
{
    let r0 = (y0 + j) % 32;
    let c0 = (x0 + b) % 64;
    assert forall|r: int, c: int|
        0 <= r < 32 && 0 <= c < 64 && !(r == r0 && c == c0) implies #[trigger] sprite_hits(
        mem,
        idx,
        x0,
        y0,
        j,
        b + 1,
        r,
        c,
    ) == sprite_hits(mem, idx, x0, y0, j, b, r, c) by {
        if sprite_hits(mem, idx, x0, y0, j, b + 1, r, c) {
            let (j2, b2) = choose|j2: int, b2: int|
                #![trigger sprite_bit(mem[idx + j2], b2)]
                0 <= j2 && 0 <= b2 < 8 && before(j2, b2, j, b + 1) && sprite_targets(
                    x0,
                    y0,
                    r,
                    c,
                    j2,
                    b2,
                ) && sprite_bit(mem[idx + j2], b2);
            if j2 == j && b2 == b {
                assert(r == r0 && c == c0);
            } else {
                assert(before(j2, b2, j, b));
                assert(sprite_hits(mem, idx, x0, y0, j, b, r, c));
            }
        }
        if sprite_hits(mem, idx, x0, y0, j, b, r, c) {
            let (j2, b2) = choose|j2: int, b2: int|
                #![trigger sprite_bit(mem[idx + j2], b2)]
                0 <= j2 && 0 <= b2 < 8 && before(j2, b2, j, b) && sprite_targets(
                    x0,
                    y0,
                    r,
                    c,
                    j2,
                    b2,
                ) && sprite_bit(mem[idx + j2], b2);
            assert(before(j2, b2, j, b + 1));
            assert(sprite_hits(mem, idx, x0, y0, j, b + 1, r, c));
        }
    }
    if sprite_bit(mem[idx + j], b) {
        assert(sprite_targets(x0, y0, r0, c0, j, b));
        assert(before(j, b, j, b + 1));
        assert(sprite_hits(mem, idx, x0, y0, j, b + 1, r0, c0));
    } else {
        if sprite_hits(mem, idx, x0, y0, j, b + 1, r0, c0) {
            let (j2, b2) = choose|j2: int, b2: int|
                #![trigger sprite_bit(mem[idx + j2], b2)]
                0 <= j2 && 0 <= b2 < 8 && before(j2, b2, j, b + 1) && sprite_targets(
                    x0,
                    y0,
                    r0,
                    c0,
                    j2,
                    b2,
                ) && sprite_bit(mem[idx + j2], b2);
            if !(j2 == j && b2 == b) {
                assert(before(j2, b2, j, b));
                assert(sprite_hits(mem, idx, x0, y0, j, b, r0, c0));
            }
        }
        if sprite_hits(mem, idx, x0, y0, j, b, r0, c0) {
            assert(sprite_hits(mem, idx, x0, y0, j, b + 1, r0, c0));
        }
    }
    if collision_upto(disp, mem, idx, x0, y0, j, b + 1) {
        let (j2, b2) = choose|j2: int, b2: int|
            #![trigger sprite_bit(mem[idx + j2], b2)]
            0 <= j2 && 0 <= b2 < 8 && before(j2, b2, j, b + 1) && sprite_bit(mem[idx + j2], b2)
                && disp[(y0 + j2) % 32][(x0 + b2) % 64];
        if !(j2 == j && b2 == b) {
            assert(before(j2, b2, j, b));
            assert(collision_upto(disp, mem, idx, x0, y0, j, b));
        }
    }
    if collision_upto(disp, mem, idx, x0, y0, j, b) {
        let (j2, b2) = choose|j2: int, b2: int|
            #![trigger sprite_bit(mem[idx + j2], b2)]
            0 <= j2 && 0 <= b2 < 8 && before(j2, b2, j, b) && sprite_bit(mem[idx + j2], b2)
                && disp[(y0 + j2) % 32][(x0 + b2) % 64];
        assert(before(j2, b2, j, b + 1));
        assert(collision_upto(disp, mem, idx, x0, y0, j, b + 1));
    }
    if sprite_bit(mem[idx + j], b) && disp[r0][c0] {
        assert(before(j, b, j, b + 1));
        assert(collision_upto(disp, mem, idx, x0, y0, j, b + 1));
    }
}

/// Finishing the eighth bit of a row is the same prefix as starting the
/// next row.
proof fn lemma_prefix_row_wrap(
    disp: Seq<Seq<bool>>,
    mem: Seq<u8>,
    idx: int,
    x0: int,
    y0: int,
    j: int,
)
    requires
        0 <= j,
    ensures
        forall|r: int, c: int|
            #![trigger sprite_hits(mem, idx, x0, y0, j, 8, r, c)]
            sprite_hits(mem, idx, x0, y0, j, 8, r, c) == sprite_hits(
                mem,
                idx,
                x0,
                y0,
                j + 1,
                0,
                r,
                c,
            ),
        collision_upto(disp, mem, idx, x0, y0, j, 8) == collision_upto(
            disp,
            mem,
            idx,
            x0,
            y0,
            j + 1,
            0,
        ),
{
    assert forall|j2: int, b2: int| 0 <= b2 < 8 implies before(j2, b2, j, 8) == before(
        j2,
        b2,
        j + 1,
        0,
    ) by {}
    assert forall|r: int, c: int| sprite_hits(mem, idx, x0, y0, j, 8, r, c) implies sprite_hits(
        mem,
        idx,
        x0,
        y0,
        j + 1,
        0,
        r,
        c,
    ) by {
        let (j2, b2) = choose|j2: int, b2: int|
            #![trigger sprite_bit(mem[idx + j2], b2)]
            0 <= j2 && 0 <= b2 < 8 && before(j2, b2, j, 8) && sprite_targets(x0, y0, r, c, j2, b2)
                && sprite_bit(mem[idx + j2], b2);
        assert(before(j2, b2, j + 1, 0));
        assert(sprite_hits(mem, idx, x0, y0, j + 1, 0, r, c));
    }
    assert forall|r: int, c: int| sprite_hits(mem, idx, x0, y0, j + 1, 0, r, c) implies sprite_hits(
        mem,
        idx,
        x0,
        y0,
        j,
        8,
        r,
        c,
    ) by {
        let (j2, b2) = choose|j2: int, b2: int|
            #![trigger sprite_bit(mem[idx + j2], b2)]
            0 <= j2 && 0 <= b2 < 8 && before(j2, b2, j + 1, 0) && sprite_targets(
                x0,
                y0,
                r,
                c,
                j2,
                b2,
            ) && sprite_bit(mem[idx + j2], b2);
        assert(before(j2, b2, j, 8));
        assert(sprite_hits(mem, idx, x0, y0, j, 8, r, c));
    }
    if collision_upto(disp, mem, idx, x0, y0, j, 8) {
        let (j2, b2) = choose|j2: int, b2: int|
            #![trigger sprite_bit(mem[idx + j2], b2)]
            0 <= j2 && 0 <= b2 < 8 && before(j2, b2, j, 8) && sprite_bit(mem[idx + j2], b2)
                && disp[(y0 + j2) % 32][(x0 + b2) % 64];
        assert(before(j2, b2, j + 1, 0));
        assert(collision_upto(disp, mem, idx, x0, y0, j + 1, 0));
    }
    if collision_upto(disp, mem, idx, x0, y0, j + 1, 0) {
        let (j2, b2) = choose|j2: int, b2: int|
            #![trigger sprite_bit(mem[idx + j2], b2)]
            0 <= j2 && 0 <= b2 < 8 && before(j2, b2, j + 1, 0) && sprite_bit(mem[idx + j2], b2)
                && disp[(y0 + j2) % 32][(x0 + b2) % 64];
        assert(before(j2, b2, j, 8));
        assert(collision_upto(disp, mem, idx, x0, y0, j, 8));
    }
}

/// Stores registers `V0 ..= Vx` into memory at the index register.
#[verifier::loop_isolation(false)]
fn store_registers(emulator: &mut Chip8, x: usize)
    requires
        old(emulator)@.wf(),
        x < 16,
        old(emulator)@.index_register + x + 1 <= 4096,
    ensures
        final(emulator)@.wf(),
        final(emulator)@ == (Chip8View {
            memory: mem_with_regs(
                old(emulator)@.memory,
                old(emulator)@.variable_register,
                old(emulator)@.index_register as int,
                x + 1,
            ),
            ..old(emulator)@
        }),
{
    let idx = emulator.index_register;
    let mut i: usize = 0;
    while i <= x
        invariant
            emulator@.wf(),
            x < 16,
            i <= x + 1,
            idx == old(emulator)@.index_register,
            idx + x + 1 <= 4096,
            emulator@ == (Chip8View { memory: emulator@.memory, ..old(emulator)@ }),
            forall|a: int|
                0 <= a < 4096 ==> emulator@.memory[a] == (if idx <= a < idx + i {
                    old(emulator)@.variable_register[a - idx]
                } else {
                    old(emulator)@.memory[a]
                }),
        decreases x + 1 - i,
    {
        emulator.memory[idx + i] = emulator.variable_register[i];
        i = i + 1;
    }
    proof {
        assert(emulator@.memory =~= mem_with_regs(
            old(emulator)@.memory,
            old(emulator)@.variable_register,
            idx as int,
            x + 1,
        ));
    }
}

/// Loads registers `V0 ..= Vx` from memory at the index register.
#[verifier::loop_isolation(false)]
fn load_registers(emulator: &mut Chip8, x: usize)
    requires
        old(emulator)@.wf(),
        x < 16,
        old(emulator)@.index_register + x + 1 <= 4096,
    ensures
        final(emulator)@.wf(),
        final(emulator)@ == (Chip8View {
            variable_register: regs_from_mem(
                old(emulator)@.variable_register,
                old(emulator)@.memory,
                old(emulator)@.index_register as int,
                x + 1,
            ),
            ..old(emulator)@
        }),
{
    let idx = emulator.index_register;
    let mut i: usize = 0;
    while i <= x
        invariant
            emulator@.wf(),
            x < 16,
            i <= x + 1,
            idx == old(emulator)@.index_register,
            idx + x + 1 <= 4096,
            emulator@ == (Chip8View { variable_register: emulator@.variable_register, ..old(
                emulator,
            )@ }),
            forall|k: int|
                0 <= k < 16 ==> emulator@.variable_register[k] == (if 0 <= k < i {
                    old(emulator)@.memory[idx + k]
                } else {
                    old(emulator)@.variable_register[k]
                }),
        decreases x + 1 - i,
    {
        emulator.variable_register[i] = emulator.memory[idx + i];
        i = i + 1;
    }
    proof {
        assert(emulator@.variable_register =~= regs_from_mem(
            old(emulator)@.variable_register,
            old(emulator)@.memory,
            idx as int,
            x + 1,
        ));
    }
}

/// Decodes and executes one instruction, mutating the machine in place.
/// Everything the instruction does is pinned down by `exec_spec`; the one
/// failure is a return with an empty call stack, which reports
/// `StackUnderflow` and leaves the machine untouched.
pub fn read_instruction(emulator: &mut Chip8, opcode: u16) -> (r: Result<(), Chip8Error>)
    requires
        old(emulator)@.wf(),
        exec_ok(old(emulator)@, opcode),
    ensures
        final(emulator)@.wf(),
        r is Err <==> opcode == 0x00EE && old(emulator)@.stack.len() == 0,
        r is Err ==> r == Err::<(), Chip8Error>(Chip8Error::StackUnderflow) && final(emulator)@
            == old(emulator)@,
        r is Ok ==> exists|rb: u8| final(emulator)@ == exec_spec(old(emulator)@, opcode, rb),
        r is Ok && op_family(opcode) != 0xC ==> final(emulator)@ == exec_spec(
            old(emulator)@,
            opcode,
            0,
        ),
{
    let x_nibble = ((opcode / 0x100) % 0x10) as usize;
    let y_nibble = ((opcode / 0x10) % 0x10) as usize;

    let vx = emulator.variable_register[x_nibble];
    let vy = emulator.variable_register[y_nibble];

    let n_nibble = opcode % 0x10;
    let nn = (opcode % 0x100) as u8;
    let nnn = opcode % 0x1000;
    let family = opcode / 0x1000;

    if family == 0 {
        if opcode == 0x00E0 {
            emulator.display = blank_display();
        } else if opcode == 0x00EE {
            match emulator.stack.pop() {
                Some(popped) => {
                    emulator.program_counter = popped;
                },
                None => {
                    return Err(Chip8Error::StackUnderflow);
                },
            }
        } else {
            report_unknown(emulator);
        }
    } else if family == 1 {
        emulator.program_counter = nnn;
        emulator.increment_pc = false;
    } else if family == 2 {
        emulator.stack.push(emulator.program_counter);
        emulator.program_counter = nnn;
        emulator.increment_pc = false;
    } else if family == 3 {
        if vx == nn {
            emulator.program_counter = emulator.program_counter + 2;
        }
    } else if family == 4 {
        if vx != nn {
            emulator.program_counter = emulator.program_counter + 2;
        }
    } else if family == 5 {
        if vx == vy {
            emulator.program_counter = emulator.program_counter + 2;
        }
    } else if family == 6 {
        emulator.variable_register[x_nibble] = nn;
    } else if family == 7 {
        let sum = vx as u16 + nn as u16;
        emulator.variable_register[x_nibble] = if sum > 255 {
            (sum - 256) as u8
        } else {
            sum as u8
        };
    } else if family == 8 {
        if n_nibble == 0 {
            emulator.variable_register[x_nibble] = vy;
        } else if n_nibble == 1 {
            emulator.variable_register[x_nibble] = vx | vy;
        } else if n_nibble == 2 {
            emulator.variable_register[x_nibble] = vx & vy;
        } else if n_nibble == 3 {
            emulator.variable_register[x_nibble] = vx ^ vy;
        } else if n_nibble == 4 {
            let sum = vx as u16 + vy as u16;
            emulator.variable_register[x_nibble] = if sum > 255 {
                (sum - 256) as u8
            } else {
                sum as u8
            };
            emulator.variable_register[15] = if sum > 255 {
                1
            } else {
                0
            };
        } else if n_nibble == 5 {
            emulator.variable_register[x_nibble] = if vx >= vy {
                vx - vy
            } else {
                ((vx as u16 + 256) - vy as u16) as u8
            };
            emulator.variable_register[15] = if vx >= vy {
                1
            } else {
                0
            };
        } else if n_nibble == 6 {
            emulator.variable_register[x_nibble] = vx >> 1u8;
            emulator.variable_register[15] = vx & 1;
        } else if n_nibble == 7 {
            emulator.variable_register[x_nibble] = if vy >= vx {
                vy - vx
            } else {
                ((vy as u16 + 256) - vx as u16) as u8
            };
            emulator.variable_register[15] = if vy >= vx {
                1
            } else {
                0
            };
        } else if n_nibble == 0xE {
            emulator.variable_register[x_nibble] = vx << 1u8;
            emulator.variable_register[15] = vx >> 7u8;
        } else {
            report_unknown(emulator);
        }
    } else if family == 9 {
        if vx != vy {
            emulator.program_counter = emulator.program_counter + 2;
        }
    } else if family == 0xA {
        emulator.index_register = nnn as usize;
    } else if family == 0xB {
        emulator.program_counter = nnn + emulator.variable_register[0] as u16;
    } else if family == 0xC {
        let rb = random_byte();
        emulator.variable_register[x_nibble] = rb & nn;
        proof {
            assert(emulator@ =~~= exec_spec(old(emulator)@, opcode, rb));
        }
        return Ok(());
    } else if family == 0xD {
        let x0 = (vx % 64) as usize;
        let y0 = (vy % 32) as usize;
        draw_sprite(emulator, x0, y0, n_nibble as usize);
    } else if family == 0xE {
        if nn == 0x9E {
            if emulator.key_pressed == vx {
                emulator.program_counter = emulator.program_counter + 2;
            }
        } else if nn == 0xA1 {
            if emulator.key_pressed != vx {
                emulator.program_counter = emulator.program_counter + 2;
            }
        } else {
            report_unknown(emulator);
        }
    } else {
        // family == 0xF
        if nn == 0x07 {
            emulator.variable_register[x_nibble] = emulator.delay_timer;
        } else if nn == 0x0A {
            if emulator.key_pressed == NO_KEY {
                emulator.program_counter = emulator.program_counter - 2;
            } else {
                emulator.variable_register[x_nibble] = emulator.key_pressed;
            }
        } else if nn == 0x15 {
            emulator.delay_timer = vx;
        } else if nn == 0x18 {
            emulator.sound_timer = vx;
        } else if nn == 0x1E {
            let mut new_idx = emulator.index_register + vx as usize;
            if new_idx > 0x1000 {
                emulator.variable_register[15] = 1;
                new_idx = 0;
            }
            emulator.index_register = new_idx;
        } else if nn == 0x29 {
            emulator.index_register = vx as usize * 5;
        } else if nn == 0x33 {
            let idx = emulator.index_register;
            emulator.memory[idx] = vx / 100;
            emulator.memory[idx + 1] = (vx / 10) % 10;
            emulator.memory[idx + 2] = vx % 10;
        } else if nn == 0x55 {
            store_registers(emulator, x_nibble);
        } else if nn == 0x65 {
            load_registers(emulator, x_nibble);
        } else {
            report_unknown(emulator);
        }
    }
    proof {
        assert(emulator@ =~~= exec_spec(old(emulator)@, opcode, 0));
    }
    Ok(())
}

// ---------------------------------------------------------------------------
// The driver's step: fetch, execute, advance.
// ---------------------------------------------------------------------------

/// The opcode at the program counter: two consecutive memory bytes,
/// big-endian.
pub open spec fn spec_fetch(v: Chip8View) -> u16 {
    (v.memory[v.program_counter as int] * 256 + v.memory[v.program_counter as int + 1]) as u16
}

/// The driver's half of a step: consume the auto-increment flag, advancing
/// the program counter by one instruction unless the instruction
/// suppressed that.
pub open spec fn advance_pc(v: Chip8View) -> Chip8View {
    Chip8View {
        program_counter: if v.increment_pc {
            (v.program_counter + 2) as u16
        } else {
            v.program_counter
        },
        increment_pc: true,
        ..v
    }
}

/// One whole fetch-decode-execute-advance step.
pub open spec fn step_spec(pre: Chip8View, rand: u8) -> Chip8View {
    advance_pc(exec_spec(pre, spec_fetch(pre), rand))
}

/// The states from which one step stays inside the machine: the fetch, the
/// instruction itself, and the advance of the program counter all stay in
/// bounds. (The return-with-empty-stack state is allowed: the step reports
/// the error and stops before the advance.)
pub open spec fn step_ok(v: Chip8View) -> bool {
    &&& v.program_counter + 1 < 4096
    &&& exec_ok(v, spec_fetch(v))
    &&& ((spec_fetch(v) == 0x00EE && v.stack.len() == 0) || {
        let post = exec_spec(v, spec_fetch(v), 0);
        post.increment_pc ==> post.program_counter + 2 <= u16::MAX
    })
}

impl Chip8 {
    /// Reads the two memory bytes at the program counter as one big-endian
    /// instruction word.
    pub fn fetch_opcode(&self) -> (op: u16)
        requires
            self@.wf(),
            self@.program_counter + 1 < 4096,
        ensures
            op == spec_fetch(self@),
    {
        let pc = self.program_counter as usize;
        (self.memory[pc] as u16) * 256 + (self.memory[pc + 1] as u16)
    }

    /// One step of the machine: fetch the opcode at the program counter,
    /// execute it, then advance the program counter by one instruction
    /// unless the instruction suppressed that; the auto-increment flag is
    /// reset either way. A return with an empty call stack reports
    /// `StackUnderflow` and leaves the machine untouched.
    pub fn step(&mut self) -> (r: Result<(), Chip8Error>)
        requires
            old(self)@.wf(),
            step_ok(old(self)@),
        ensures
            final(self)@.wf(),
            r is Err <==> (spec_fetch(old(self)@) == 0x00EE && old(self)@.stack.len() == 0),
            r is Err ==> r == Err::<(), Chip8Error>(Chip8Error::StackUnderflow) && final(self)@
                == old(self)@,
            r is Ok ==> exists|rb: u8| final(self)@ == step_spec(old(self)@, rb),
            r is Ok && op_family(spec_fetch(old(self)@)) != 0xC ==> final(self)@ == step_spec(
                old(self)@,
                0,
            ),
    {
        let opcode = self.fetch_opcode();
        match read_instruction(self, opcode) {
            Ok(()) => {},
            Err(e) => {
                return Err(e);
            },
        }
        let ghost mid = self@;
        let ghost rb = choose|rb: u8| mid == exec_spec(old(self)@, opcode, rb);
        proof {
            if op_family(opcode) == 0xC {
                assert(mid == exec_spec(old(self)@, opcode, rb));
                assert(mid.program_counter == old(self)@.program_counter);
                assert(mid.increment_pc == old(self)@.increment_pc);
                assert(exec_spec(old(self)@, opcode, 0).program_counter == old(
                    self,
                )@.program_counter);
                assert(exec_spec(old(self)@, opcode, 0).increment_pc == old(self)@.increment_pc);
            }
            assert(mid.increment_pc ==> mid.program_counter + 2 <= u16::MAX);
        }
        if self.increment_pc {
            self.program_counter = self.program_counter + 2;
        }
        self.increment_pc = true;
        proof {
            assert(self@ =~~= advance_pc(mid));
            assert(self@ == step_spec(old(self)@, rb));
            if op_family(opcode) != 0xC {
                assert(mid == exec_spec(old(self)@, opcode, 0));
                assert(self@ == step_spec(old(self)@, 0));
            }
        }
        Ok(())
    }

    /// Whether one step from the current state stays inside the machine:
    /// the runtime check of `step_ok`, for a driver that would rather stop
    /// than fault on a program that runs off the rails.
    pub fn step_ready(&self) -> (b: bool)
        requires
            self@.wf(),
        ensures
            b == step_ok(self@),
    {
        if self.program_counter > 4094 {
            return false;
        }
        let op = self.fetch_opcode();
        let x = ((op / 0x100) % 0x10) as usize;
        let vx = self.variable_register[x];
        let vy = self.variable_register[((op / 0x10) % 0x10) as usize];
        let nn = (op % 0x100) as u8;
        let fam = op / 0x1000;
        let exec_fits: bool = if fam == 3 {
            vx != nn || self.program_counter <= 0xFFFD
        } else if fam == 4 {
            vx == nn || self.program_counter <= 0xFFFD
        } else if fam == 5 {
            vx != vy || self.program_counter <= 0xFFFD
        } else if fam == 9 {
            vx == vy || self.program_counter <= 0xFFFD
        } else if fam == 0xD {
            self.index_register + (op % 0x10) as usize <= 4096
        } else if fam == 0xE {
            if nn == 0x9E {
                self.key_pressed != vx || self.program_counter <= 0xFFFD
            } else if nn == 0xA1 {
                self.key_pressed == vx || self.program_counter <= 0xFFFD
            } else {
                true
            }
        } else if fam == 0xF {
            if nn == 0x0A {
                self.key_pressed != NO_KEY || self.program_counter >= 2
            } else if nn == 0x33 {
                self.index_register <= 4093
            } else if nn == 0x55 || nn == 0x65 {
                self.index_register + x + 1 <= 4096
            } else {
                true
            }
        } else {
            true
        };
        if !exec_fits {
            return false;
        }
        let advance_fits: bool = if op == 0x00EE {
            if self.stack.len() == 0 {
                true
            } else {
                !self.increment_pc || self.stack[self.stack.len() - 1] <= 0xFFFD
            }
        } else {
            true
        };
        proof {
            assert(exec_fits == exec_ok(self@, op));
            let v = self@;
            let post = exec_spec(v, op, 0);
            let fam_g = op_family(op);
            if op == 0x00EE {
                if v.stack.len() > 0 {
                    assert(post.program_counter == v.stack.last());
                    assert(post.increment_pc == v.increment_pc);
                }
            } else {
                if fam_g == 0 || fam_g == 6 || fam_g == 7 || fam_g == 8 || fam_g == 0xA
                    || fam_g == 0xC || fam_g == 0xD {
                    assert(post.program_counter == v.program_counter);
                } else if fam_g == 1 || fam_g == 2 {
                    assert(!post.increment_pc);
                } else if fam_g == 3 || fam_g == 4 || fam_g == 5 || fam_g == 9 || fam_g == 0xE {
                    assert(post.program_counter <= v.program_counter + 2);
                } else if fam_g == 0xB {
                    assert(post.program_counter <= 0x10FE);
                } else {
                    assert(fam_g == 0xF);
                    assert(post.program_counter <= v.program_counter);
                }
                assert(post.increment_pc ==> post.program_counter + 2 <= u16::MAX);
            }
            assert(advance_fits == ((spec_fetch(self@) == 0x00EE && self@.stack.len() == 0) || {
                let p = exec_spec(self@, spec_fetch(self@), 0);
                p.increment_pc ==> p.program_counter + 2 <= u16::MAX
            }));
        }
        advance_fits
    }
}

} // verus!
