use librchip::Chip8Error;
use librchip::vm::{Quirks, VM};

fn run(vm: &mut VM, cycles: usize) {
    let mut i = 0;
    while i < cycles {
        vm.emulate_cycle().expect("cycle failed");
        i += 1;
    }
}

fn boot(program: &[u8]) -> VM {
    let mut vm = VM::new();
    vm.load_program(program).expect("load failed");
    vm
}

#[test]
fn add_sets_carry_on_overflow() {
    // V0 = 200, V1 = 100, V0 += V1: 300 wraps to 44, carry out.
    let mut vm = boot(&[0x60, 200, 0x61, 100, 0x80, 0x14]);
    run(&mut vm, 3);
    let s = vm.snapshot();
    assert_eq!(s.v[0], 44);
    assert_eq!(s.v[15], 1);
}

#[test]
fn add_clears_carry_without_overflow() {
    let mut vm = boot(&[0x60, 10, 0x61, 20, 0x80, 0x14]);
    run(&mut vm, 3);
    let s = vm.snapshot();
    assert_eq!(s.v[0], 30);
    assert_eq!(s.v[15], 0);
}

#[test]
fn sub_sets_no_borrow_flag() {
    // V0 = 10, V1 = 5, V0 -= V1: 5, no borrow.
    let mut vm = boot(&[0x60, 10, 0x61, 5, 0x80, 0x15]);
    run(&mut vm, 3);
    let s = vm.snapshot();
    assert_eq!(s.v[0], 5);
    assert_eq!(s.v[15], 1);
}

#[test]
fn sub_wraps_and_clears_flag_on_borrow() {
    // V0 = 5, V1 = 10, V0 -= V1: wraps to 251, borrow.
    let mut vm = boot(&[0x60, 5, 0x61, 10, 0x80, 0x15]);
    run(&mut vm, 3);
    let s = vm.snapshot();
    assert_eq!(s.v[0], 251);
    assert_eq!(s.v[15], 0);
}

#[test]
fn subfrom_uses_reversed_operands() {
    // V0 = 5, V1 = 10, V0 = V1 - V0: 5, no borrow.
    let mut vm = boot(&[0x60, 5, 0x61, 10, 0x80, 0x17]);
    run(&mut vm, 3);
    let s = vm.snapshot();
    assert_eq!(s.v[0], 5);
    assert_eq!(s.v[15], 1);
}

#[test]
fn subfrom_wraps_on_borrow() {
    // V0 = 10, V1 = 5, V0 = V1 - V0: wraps to 251, borrow.
    let mut vm = boot(&[0x60, 10, 0x61, 5, 0x80, 0x17]);
    run(&mut vm, 3);
    let s = vm.snapshot();
    assert_eq!(s.v[0], 251);
    assert_eq!(s.v[15], 0);
}

#[test]
fn add_imm_wraps_and_keeps_vf() {
    // Force VF to 1 with a carrying add, then check 7XNN leaves it alone.
    let mut vm = boot(&[
        0x61, 255, 0x62, 255, 0x81, 0x24, // V1 += V2: VF = 1
        0x60, 250, 0x70, 10, // V0 = 250, V0 += 10: wraps to 4
    ]);
    run(&mut vm, 5);
    let s = vm.snapshot();
    assert_eq!(s.v[0], 4);
    assert_eq!(s.v[15], 1);
}

#[test]
fn mov_or_and_xor_exact_values() {
    let mut vm = boot(&[
        0x60, 0b1100, 0x61, 0b1010, 0x82, 0x00, // V2 = V0
        0x83, 0x00, 0x83, 0x11, // V3 = V0 | V1
        0x84, 0x00, 0x84, 0x12, // V4 = V0 & V1
        0x85, 0x00, 0x85, 0x13, // V5 = V0 ^ V1
    ]);
    run(&mut vm, 9);
    let s = vm.snapshot();
    assert_eq!(s.v[2], 0b1100);
    assert_eq!(s.v[3], 0b1110);
    assert_eq!(s.v[4], 0b1000);
    assert_eq!(s.v[5], 0b0110);
}

#[test]
fn shifts_default_read_vx() {
    // V0 = 0b1001_0001: right shift gives 0x48 with VF = 1;
    // then V1 = 0b1001_0001: left shift gives 0x22 with VF = 1.
    let mut vm = boot(&[0x60, 0x91, 0x80, 0x16, 0x61, 0x91, 0x81, 0x1E]);
    run(&mut vm, 2);
    let s = vm.snapshot();
    assert_eq!(s.v[0], 0x48);
    assert_eq!(s.v[15], 1);
    run(&mut vm, 2);
    let s = vm.snapshot();
    assert_eq!(s.v[1], 0x22);
    assert_eq!(s.v[15], 1);
}

#[test]
fn shifts_quirk_reads_vy() {
    let mut vm = VM::new();
    vm.set_quirks(Quirks { shift_reads_vy: true, jump_reads_vx: false, add_index_carry: false });
    vm.load_program(&[0x61, 0x04, 0x80, 0x16]).expect("load failed");
    run(&mut vm, 2);
    let s = vm.snapshot();
    assert_eq!(s.v[0], 0x02);
    assert_eq!(s.v[15], 0);
}

#[test]
fn cls_clears_framebuffer_and_sets_redraw() {
    // Point I at the font for 0, draw it, then clear.
    let mut vm = boot(&[0xA0, 0x50, 0xD0, 0x05, 0x00, 0xE0]);
    run(&mut vm, 2);
    assert!(vm.get_display().iter().any(|&p| p == 1));
    vm.clear_redraw();
    run(&mut vm, 1);
    assert!(vm.get_display().iter().all(|&p| p == 0));
    assert!(vm.get_redraw());
}

#[test]
fn wait_key_blocks_until_key_then_reports_lowest() {
    let mut vm = boot(&[0xF0, 0x0A]);
    run(&mut vm, 1);
    assert_eq!(vm.snapshot().pc, 0x200);
    run(&mut vm, 3);
    assert_eq!(vm.snapshot().pc, 0x200);
    vm.set_key(9, true);
    vm.set_key(3, true);
    run(&mut vm, 1);
    let s = vm.snapshot();
    assert_eq!(s.v[0], 3);
    assert_eq!(s.pc, 0x202);
}

#[test]
fn store_load_round_trips_registers() {
    let mut vm = boot(&[
        0x60, 0xAA, 0x61, 0xBB, 0x62, 0xCC, // V0..V2
        0xA3, 0x00, // I = 0x300
        0xF2, 0x55, // store V0..V2
        0x60, 0x00, 0x61, 0x00, 0x62, 0x00, // wipe them
        0xF2, 0x65, // load V0..V2 back
    ]);
    run(&mut vm, 9);
    let s = vm.snapshot();
    assert_eq!(s.v[0], 0xAA);
    assert_eq!(s.v[1], 0xBB);
    assert_eq!(s.v[2], 0xCC);
    assert_eq!(s.ir, 0x300);
}

#[test]
fn bcd_of_255_writes_2_5_5() {
    let mut vm = boot(&[
        0x60, 255, // V0 = 255
        0xA3, 0x00, // I = 0x300
        0xF0, 0x33, // BCD of V0 at I
        0xF2, 0x65, // read the three digits back into V0..V2
    ]);
    run(&mut vm, 4);
    let s = vm.snapshot();
    assert_eq!(s.v[0], 2);
    assert_eq!(s.v[1], 5);
    assert_eq!(s.v[2], 5);
}

#[test]
fn ret_on_empty_stack_reports_underflow() {
    let mut vm = boot(&[0x00, 0xEE]);
    assert_eq!(vm.emulate_cycle(), Err(Chip8Error::StackUnderflow));
    assert_eq!(vm.snapshot().pc, 0x200);
}

#[test]
fn call_and_ret_round_trip() {
    // Call a subroutine at 0x204 that returns immediately.
    let mut vm = boot(&[0x22, 0x04, 0x00, 0x00, 0x00, 0xEE]);
    run(&mut vm, 1);
    assert_eq!(vm.snapshot().pc, 0x204);
    run(&mut vm, 1);
    assert_eq!(vm.snapshot().pc, 0x202);
}

#[test]
fn seventeenth_nested_call_overflows() {
    // Seventeen chained calls, each to the next instruction.
    let mut program: Vec<u8> = Vec::new();
    for k in 0..17u16 {
        let target = 0x202 + 2 * k;
        program.push(0x20 | (target >> 8) as u8);
        program.push((target & 0xFF) as u8);
    }
    let mut vm = boot(&program);
    run(&mut vm, 16);
    assert_eq!(vm.emulate_cycle(), Err(Chip8Error::StackOverflow));
}

#[test]
fn oversized_rom_is_rejected_before_any_cycle() {
    let mut vm = VM::new();
    let too_big = vec![0u8; 4096 - 0x200 + 1];
    assert_eq!(vm.load_program(&too_big), Err(Chip8Error::RomTooLarge));
    let just_fits = vec![0u8; 4096 - 0x200];
    assert_eq!(vm.load_program(&just_fits), Ok(()));
}

#[test]
fn timers_tick_to_zero_and_gate_sound() {
    let mut vm = boot(&[0x60, 2, 0xF0, 0x15, 0xF0, 0x18]);
    run(&mut vm, 3);
    assert!(vm.decrement_timers());
    let s = vm.snapshot();
    assert_eq!(s.delay_t, 1);
    assert_eq!(s.sound_t, 1);
    assert!(vm.decrement_timers());
    assert!(!vm.decrement_timers());
    assert!(!vm.decrement_timers());
    let s = vm.snapshot();
    assert_eq!(s.delay_t, 0);
    assert_eq!(s.sound_t, 0);
}

#[test]
fn read_delay_into_register() {
    let mut vm = boot(&[0x60, 7, 0xF0, 0x15, 0xF1, 0x07]);
    run(&mut vm, 3);
    assert_eq!(vm.snapshot().v[1], 7);
}

#[test]
fn end_to_end_draws_digit_zero() {
    let mut vm = boot(&[0x60, 0x00, 0x61, 0x00, 0xA0, 0x50, 0xD0, 0x15]);
    run(&mut vm, 4);
    let s = vm.snapshot();
    assert_eq!(s.v[15], 0);
    assert!(vm.get_redraw());
    let glyph = [0xF0u8, 0x90, 0x90, 0x90, 0xF0];
    let fb = vm.get_display();
    for row in 0..5 {
        for col in 0..8 {
            let expected = (glyph[row] >> (7 - col)) & 1;
            assert_eq!(fb[64 * row + col], expected);
        }
    }
}

#[test]
fn unmapped_encodings_are_illegal() {
    let mut vm = boot(&[0x00, 0x00]);
    assert_eq!(vm.emulate_cycle(), Err(Chip8Error::IllegalInstruction));
    let mut vm = boot(&[0x5A, 0xB1]);
    assert_eq!(vm.emulate_cycle(), Err(Chip8Error::IllegalInstruction));
    let mut vm = boot(&[0x80, 0x18]);
    assert_eq!(vm.emulate_cycle(), Err(Chip8Error::IllegalInstruction));
    let mut vm = boot(&[0xE0, 0x00]);
    assert_eq!(vm.emulate_cycle(), Err(Chip8Error::IllegalInstruction));
    let mut vm = boot(&[0xF0, 0x99]);
    assert_eq!(vm.emulate_cycle(), Err(Chip8Error::IllegalInstruction));
}

#[test]
fn jump_sets_pc() {
    let mut vm = boot(&[0x12, 0x34]);
    run(&mut vm, 1);
    assert_eq!(vm.snapshot().pc, 0x234);
}

#[test]
fn jump_offset_default_adds_v0() {
    let mut vm = boot(&[0x60, 0x10, 0xB3, 0x00]);
    run(&mut vm, 2);
    assert_eq!(vm.snapshot().pc, 0x310);
}

#[test]
fn jump_offset_quirk_adds_vx() {
    let mut vm = VM::new();
    vm.set_quirks(Quirks { shift_reads_vy: false, jump_reads_vx: true, add_index_carry: false });
    // V0 = 0x10 but V3 = 2: B3NN must use V3 under the quirk.
    vm.load_program(&[0x60, 0x10, 0x63, 0x02, 0xB3, 0x00]).expect("load failed");
    run(&mut vm, 3);
    assert_eq!(vm.snapshot().pc, 0x302);
}

#[test]
fn skip_families_branch_exactly() {
    // 3XNN taken, 4XNN not taken, 5XY0 taken, 9XY0 not taken.
    let mut vm = boot(&[0x60, 5, 0x30, 5]);
    run(&mut vm, 2);
    assert_eq!(vm.snapshot().pc, 0x206);
    let mut vm = boot(&[0x60, 5, 0x40, 5]);
    run(&mut vm, 2);
    assert_eq!(vm.snapshot().pc, 0x204);
    let mut vm = boot(&[0x60, 5, 0x61, 5, 0x50, 0x10]);
    run(&mut vm, 3);
    assert_eq!(vm.snapshot().pc, 0x208);
    let mut vm = boot(&[0x60, 5, 0x61, 5, 0x90, 0x10]);
    run(&mut vm, 3);
    assert_eq!(vm.snapshot().pc, 0x206);
}

#[test]
fn set_index_and_add_index() {
    let mut vm = boot(&[0xA1, 0x23, 0x60, 5, 0xF0, 0x1E]);
    run(&mut vm, 3);
    let s = vm.snapshot();
    assert_eq!(s.ir, 0x128);
    assert_eq!(s.v[15], 0);
}

#[test]
fn add_index_carry_quirk_sets_vf() {
    let mut vm = VM::new();
    vm.set_quirks(Quirks { shift_reads_vy: false, jump_reads_vx: false, add_index_carry: true });
    vm.load_program(&[0xAF, 0xFF, 0x60, 1, 0xF0, 0x1E]).expect("load failed");
    run(&mut vm, 3);
    let s = vm.snapshot();
    assert_eq!(s.ir, 0x1000);
    assert_eq!(s.v[15], 1);
}

#[test]
fn font_addr_of_digit_seven() {
    let mut vm = boot(&[0x60, 7, 0xF0, 0x29]);
    run(&mut vm, 2);
    assert_eq!(vm.snapshot().ir, 0x50 + 5 * 7);
}

#[test]
fn key_skips_follow_keypad_state() {
    let mut vm = boot(&[0x60, 4, 0xE0, 0x9E]);
    vm.set_key(4, true);
    run(&mut vm, 2);
    assert_eq!(vm.snapshot().pc, 0x206);

    let mut vm = boot(&[0x60, 4, 0xE0, 0x9E]);
    run(&mut vm, 2);
    assert_eq!(vm.snapshot().pc, 0x204);

    let mut vm = boot(&[0x60, 4, 0xE0, 0xA1]);
    run(&mut vm, 2);
    assert_eq!(vm.snapshot().pc, 0x206);
}

#[test]
fn rand_masks_with_nn() {
    let mut vm = boot(&[0xC0, 0x0F, 0xC1, 0x00]);
    run(&mut vm, 2);
    let s = vm.snapshot();
    assert_eq!(s.v[0] & 0xF0, 0);
    assert_eq!(s.v[1], 0);
}

#[test]
fn draw_beyond_memory_reports_out_of_bounds() {
    let mut vm = boot(&[0xAF, 0xFF, 0xD0, 0x05]);
    run(&mut vm, 1);
    assert_eq!(vm.emulate_cycle(), Err(Chip8Error::MemoryOutOfBounds));
}

#[test]
fn store_beyond_memory_reports_out_of_bounds() {
    let mut vm = boot(&[0xAF, 0xFF, 0xF1, 0x55]);
    run(&mut vm, 1);
    assert_eq!(vm.emulate_cycle(), Err(Chip8Error::MemoryOutOfBounds));
}

#[test]
fn bcd_beyond_memory_reports_out_of_bounds() {
    let mut vm = boot(&[0xAF, 0xFE, 0xF0, 0x33]);
    run(&mut vm, 1);
    assert_eq!(vm.emulate_cycle(), Err(Chip8Error::MemoryOutOfBounds));
}

#[test]
fn fetch_at_top_of_memory_reports_out_of_bounds() {
    let mut vm = boot(&[0x1F, 0xFF]);
    run(&mut vm, 1);
    assert_eq!(vm.snapshot().pc, 0xFFF);
    assert_eq!(vm.emulate_cycle(), Err(Chip8Error::MemoryOutOfBounds));
}

#[test]
fn register_keypress_presses_one_key() {
    let mut vm = boot(&[0xF0, 0x0A]);
    vm.register_keypress(None);
    run(&mut vm, 1);
    assert_eq!(vm.snapshot().pc, 0x200);
    vm.register_keypress(Some(0xC));
    run(&mut vm, 1);
    let s = vm.snapshot();
    assert_eq!(s.v[0], 0xC);
    assert_eq!(s.pc, 0x202);
}

#[test]
fn set_keys_overwrites_whole_mask() {
    let mut vm = boot(&[0xF0, 0x0A]);
    vm.set_key(2, true);
    vm.set_keys(1 << 11);
    run(&mut vm, 1);
    assert_eq!(vm.snapshot().v[0], 11);
}
