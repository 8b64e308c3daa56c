use vstd::prelude::*;

use crate::instructions::{
    before, collision_upto, draw_display, exec_ok, exec_spec, op_family, op_n, op_nn, op_x, op_y,
    spec_fetch, sprite_bit, sprite_hits, sprite_targets, step_ok, step_spec,
};
use crate::machine::{Chip8View, NO_KEY};

verus! {

/// Law: the load-immediate opcode stores its immediate. After any
/// `0x6xnn`, register Vx holds nn, and no other register changes.
pub proof fn lemma_load_immediate(pre: Chip8View, op: u16, rand: u8)
    requires
        pre.wf(),
        op_family(op) == 6,
    ensures
        exec_spec(pre, op, rand).variable_register[op_x(op)] == op_nn(op),
        forall|i: int|
            0 <= i < 16 && i != op_x(op) ==> exec_spec(pre, op, rand).variable_register[i]
                == pre.variable_register[i],
{
}

/// Law: the add-immediate opcode wraps modulo 256 and reports no carry.
/// After `0x7xnn` with Vx = a, Vx holds (a + nn) mod 256; every other
/// register keeps its value, so VF is untouched whenever x is not F.
pub proof fn lemma_add_immediate(pre: Chip8View, op: u16, rand: u8)
    requires
        pre.wf(),
        op_family(op) == 7,
    ensures
        exec_spec(pre, op, rand).variable_register[op_x(op)] == (pre.variable_register[op_x(op)]
            + op_nn(op)) % 256,
        forall|i: int|
            0 <= i < 16 && i != op_x(op) ==> exec_spec(pre, op, rand).variable_register[i]
                == pre.variable_register[i],
        op_x(op) != 15 ==> exec_spec(pre, op, rand).variable_register[15]
            == pre.variable_register[15],
{
}

/// Law: the register-add opcode reports its carry in VF. After `0x8xy4`
/// with Vx = a and Vy = b, VF is 1 exactly when a + b > 255, whatever x
/// and y are; when x is not F, Vx holds (a + b) mod 256.
pub proof fn lemma_add_carry(pre: Chip8View, op: u16, rand: u8)
    requires
        pre.wf(),
        op_family(op) == 8,
        op_n(op) == 4,
    ensures
        exec_spec(pre, op, rand).variable_register[15] == (if pre.variable_register[op_x(op)]
            + pre.variable_register[op_y(op)] > 255 {
            1u8
        } else {
            0u8
        }),
        op_x(op) != 15 ==> exec_spec(pre, op, rand).variable_register[op_x(op)] == (
        pre.variable_register[op_x(op)] + pre.variable_register[op_y(op)]) % 256,
{
}

/// Law: the register-subtract opcode reports "no borrow" in VF. After
/// `0x8xy5` with Vx = a and Vy = b, VF is 1 exactly when a >= b, whatever
/// x and y are; when x is not F, Vx holds (a - b) mod 256.
pub proof fn lemma_sub_borrow(pre: Chip8View, op: u16, rand: u8)
    requires
        pre.wf(),
        op_family(op) == 8,
        op_n(op) == 5,
    ensures
        exec_spec(pre, op, rand).variable_register[15] == (if pre.variable_register[op_x(op)]
            >= pre.variable_register[op_y(op)] {
            1u8
        } else {
            0u8
        }),
        op_x(op) != 15 ==> exec_spec(pre, op, rand).variable_register[op_x(op)] == (
        pre.variable_register[op_x(op)] - pre.variable_register[op_y(op)] + 256) % 256,
{
}

/// Law: shift-right halves the register and captures the dropped bit.
/// After `0x8xy6` with Vx = v, VF is v & 1; when x is not F (there the
/// flag write lands on the destination itself), Vx is v >> 1.
pub proof fn lemma_shift_right(pre: Chip8View, op: u16, rand: u8)
    requires
        pre.wf(),
        op_family(op) == 8,
        op_n(op) == 6,
    ensures
        exec_spec(pre, op, rand).variable_register[15] == pre.variable_register[op_x(op)] & 1,
        op_x(op) != 15 ==> exec_spec(pre, op, rand).variable_register[op_x(op)]
            == pre.variable_register[op_x(op)] >> 1u8,
{
}

/// Law: clear-screen turns every pixel off.
pub proof fn lemma_clear_screen(pre: Chip8View, rand: u8)
    requires
        pre.wf(),
    ensures
        exec_spec(pre, 0x00E0, rand).display.len() == 32,
        forall|r: int, c: int|
            0 <= r < 32 && 0 <= c < 64 ==> !(#[trigger] exec_spec(
                pre,
                0x00E0,
                rand,
            ).display[r][c]),
{
}

/// Law: drawing the same sprite twice at the same position restores the
/// framebuffer: every set sprite bit toggles its pixel twice and every
/// clear bit never touches it. Register index F is left out for x and y:
/// the first draw writes VF itself, so the second draw could address
/// another position.
pub proof fn lemma_draw_twice_restores(pre: Chip8View, op: u16, r1: u8, r2: u8)
    requires
        pre.wf(),
        op_family(op) == 0xD,
        op_x(op) != 15,
        op_y(op) != 15,
        exec_ok(pre, op),
    ensures
        exec_spec(exec_spec(pre, op, r1), op, r2).display == pre.display,
{
    let x0 = (pre.variable_register[op_x(op)] % 64) as int;
    let y0 = (pre.variable_register[op_y(op)] % 32) as int;
    let idx = pre.index_register as int;
    let n = op_n(op) as int;
    let once = exec_spec(pre, op, r1);
    let twice = exec_spec(once, op, r2);
    assert(once.display == draw_display(pre.display, pre.memory, idx, x0, y0, n));
    assert(twice.display == draw_display(once.display, pre.memory, idx, x0, y0, n));
    assert forall|r: int, c: int| 0 <= r < 32 && 0 <= c < 64 implies #[trigger] twice.display[r][c]
        == pre.display[r][c] by {
        assert(once.display[r][c] == (if sprite_hits(pre.memory, idx, x0, y0, n, 0, r, c) {
            !pre.display[r][c]
        } else {
            pre.display[r][c]
        }));
        assert(twice.display[r][c] == (if sprite_hits(pre.memory, idx, x0, y0, n, 0, r, c) {
            !once.display[r][c]
        } else {
            once.display[r][c]
        }));
    }
    assert(twice.display =~~= pre.display);
}

/// Law: the second of two identical draws reports a collision in VF,
/// provided some set sprite bit lands on a pixel that was off before the
/// first draw: that pixel comes back on, and the second draw turns it off
/// again. (When every covered pixel was already on, the first draw turns
/// them all off and the second finds nothing to collide with.) Register
/// index F is left out for x and y as in `lemma_draw_twice_restores`.
pub proof fn lemma_draw_twice_collides(pre: Chip8View, op: u16, r1: u8, r2: u8)
    requires
        pre.wf(),
        op_family(op) == 0xD,
        op_x(op) != 15,
        op_y(op) != 15,
        exec_ok(pre, op),
        exists|j: int, bt: int|
            #![trigger sprite_bit(pre.memory[pre.index_register + j], bt)]
            0 <= j < op_n(op) && 0 <= bt < 8 && sprite_bit(
                pre.memory[pre.index_register + j],
                bt,
            ) && !pre.display[((pre.variable_register[op_y(op)] % 32) + j) % 32][((
            pre.variable_register[op_x(op)] % 64) + bt) % 64],
    ensures
        exec_spec(exec_spec(pre, op, r1), op, r2).variable_register[15] == 1,
{
    let x0 = (pre.variable_register[op_x(op)] % 64) as int;
    let y0 = (pre.variable_register[op_y(op)] % 32) as int;
    let idx = pre.index_register as int;
    let n = op_n(op) as int;
    let once = exec_spec(pre, op, r1);
    let twice = exec_spec(once, op, r2);
    assert(once.display == draw_display(pre.display, pre.memory, idx, x0, y0, n));
    let (j, bt) = choose|j: int, bt: int|
        #![trigger sprite_bit(pre.memory[pre.index_register + j], bt)]
        0 <= j < op_n(op) && 0 <= bt < 8 && sprite_bit(pre.memory[pre.index_register + j], bt)
            && !pre.display[(y0 + j) % 32][(x0 + bt) % 64];
    let tr = (y0 + j) % 32;
    let tc = (x0 + bt) % 64;
    assert(sprite_targets(x0, y0, tr, tc, j, bt));
    assert(before(j, bt, n, 0));
    assert(sprite_hits(pre.memory, idx, x0, y0, n, 0, tr, tc));
    assert(once.display[tr][tc]);
    assert(collision_upto(once.display, pre.memory, idx, x0, y0, n, 0));
    assert(twice.variable_register[15] == 1);
}

/// Law: the key-wait opcode blocks until a key arrives. From a state
/// with the auto-increment flag set (as the driver always leaves it),
/// a whole step on `0xFx0A` with no key pressed brings the program
/// counter back where it was and touches no register; with a key
/// pressed, the step stores the key in Vx and advances past the
/// instruction.
pub proof fn lemma_key_wait(pre: Chip8View, rand: u8)
    requires
        pre.wf(),
        step_ok(pre),
        pre.increment_pc,
        op_family(spec_fetch(pre)) == 0xF,
        op_nn(spec_fetch(pre)) == 0x0A,
    ensures
        pre.key_pressed == NO_KEY ==> step_spec(pre, rand).program_counter
            == pre.program_counter && step_spec(pre, rand).variable_register
            == pre.variable_register,
        pre.key_pressed != NO_KEY ==> step_spec(pre, rand).variable_register[op_x(spec_fetch(pre))]
            == pre.key_pressed && step_spec(pre, rand).program_counter == pre.program_counter + 2,
{
}

} // verus!
