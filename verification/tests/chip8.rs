use chip8::Chip8Error;
use chip8::Emu;

fn boot(program: &[u8]) -> Emu {
    let mut m = Emu::new();
    m.load(program).unwrap();
    m
}

#[test]
fn push_pop_round_trip_all_depths() {
    let mut m = Emu::new();
    for depth in 0..16u16 {
        assert_eq!(m.get_sp(), depth);
        m.push(0x200 + depth).unwrap();
        assert_eq!(m.get_sp(), depth + 1);
    }
    for depth in (0..16u16).rev() {
        let v = m.pop().unwrap();
        assert_eq!(v, 0x200 + depth);
        assert_eq!(m.get_sp(), depth);
    }
}

#[test]
fn stack_overflow_and_underflow_reported() {
    let mut m = Emu::new();
    for _ in 0..16 {
        m.push(0x300).unwrap();
    }
    assert_eq!(m.push(0x300), Err(Chip8Error::StackOverflow));
    assert_eq!(m.get_sp(), 16);
    let mut m2 = Emu::new();
    assert_eq!(m2.pop(), Err(Chip8Error::StackUnderflow));
}

#[test]
fn call_and_return_through_the_stack() {
    // jump over a pad, call a subroutine, return from it
    let mut m = boot(&[0x22, 0x04, 0x00, 0x00, 0x00, 0xEE]);
    m.tick().unwrap(); // 2204: call 0x204
    assert_eq!(m.get_pc(), 0x204);
    assert_eq!(m.get_sp(), 1);
    m.tick().unwrap(); // 00EE: return
    assert_eq!(m.get_pc(), 0x202);
    assert_eq!(m.get_sp(), 0);
}

#[test]
fn clear_screen_blanks_every_cell() {
    // draw one font row at (0,0), then clear
    let mut m = boot(&[0xA0, 0x00, 0xD0, 0x11, 0x00, 0xE0]);
    m.tick().unwrap();
    m.tick().unwrap();
    assert!(m.get_display().iter().any(|p| *p));
    m.tick().unwrap();
    assert!(m.get_display().iter().all(|p| !*p));
}

#[test]
fn add_immediate_wraps_and_leaves_flag_untouched() {
    // VF = 5, V1 = 0xFF, V1 += 0x02
    let mut m = boot(&[0x6F, 0x05, 0x61, 0xFF, 0x71, 0x02]);
    m.tick().unwrap();
    m.tick().unwrap();
    m.tick().unwrap();
    assert_eq!(m.get_v(1), 0x01);
    assert_eq!(m.get_v(15), 0x05);
}

#[test]
fn add_registers_sets_carry_flag() {
    // V0 = 0xFF, V1 = 0x01, V0 += V1
    let mut m = boot(&[0x60, 0xFF, 0x61, 0x01, 0x80, 0x14]);
    m.tick().unwrap();
    m.tick().unwrap();
    m.tick().unwrap();
    assert_eq!(m.get_v(0), 0x00);
    assert_eq!(m.get_v(15), 1);
}

#[test]
fn subtract_registers_reports_borrow() {
    // V0 = 0x01, V1 = 0x02, V0 -= V1
    let mut m = boot(&[0x60, 0x01, 0x61, 0x02, 0x80, 0x15]);
    m.tick().unwrap();
    m.tick().unwrap();
    m.tick().unwrap();
    assert_eq!(m.get_v(0), 0xFF);
    assert_eq!(m.get_v(15), 0);
}

#[test]
fn reverse_subtract_reports_no_borrow() {
    // V0 = 0x01, V1 = 0x03, V0 = V1 - V0
    let mut m = boot(&[0x60, 0x01, 0x61, 0x03, 0x80, 0x17]);
    m.tick().unwrap();
    m.tick().unwrap();
    m.tick().unwrap();
    assert_eq!(m.get_v(0), 0x02);
    assert_eq!(m.get_v(15), 1);
}

#[test]
fn shifts_report_the_bit_shifted_out() {
    let mut m = boot(&[0x60, 0x85, 0x80, 0x06]);
    m.tick().unwrap();
    m.tick().unwrap();
    assert_eq!(m.get_v(0), 0x42);
    assert_eq!(m.get_v(15), 1);
    let mut m2 = boot(&[0x60, 0x85, 0x80, 0x0E]);
    m2.tick().unwrap();
    m2.tick().unwrap();
    assert_eq!(m2.get_v(0), 0x0A);
    assert_eq!(m2.get_v(15), 1);
}

#[test]
fn bitwise_ops() {
    // V0 = 0xCC, V1 = 0xAA: OR, then rebuild and AND, then XOR
    let mut m = boot(&[0x60, 0xCC, 0x61, 0xAA, 0x80, 0x11]);
    m.tick().unwrap();
    m.tick().unwrap();
    m.tick().unwrap();
    assert_eq!(m.get_v(0), 0xEE);
    let mut m2 = boot(&[0x60, 0xCC, 0x61, 0xAA, 0x80, 0x12]);
    m2.tick().unwrap();
    m2.tick().unwrap();
    m2.tick().unwrap();
    assert_eq!(m2.get_v(0), 0x88);
    let mut m3 = boot(&[0x60, 0xCC, 0x61, 0xAA, 0x80, 0x13]);
    m3.tick().unwrap();
    m3.tick().unwrap();
    m3.tick().unwrap();
    assert_eq!(m3.get_v(0), 0x66);
}

#[test]
fn draw_twice_restores_the_framebuffer_and_reports_collision() {
    let mut m = boot(&[0xA0, 0x00, 0xD0, 0x11, 0xD0, 0x11]);
    m.tick().unwrap(); // I = 0: the glyph for 0 begins with 0xF0
    m.tick().unwrap(); // first draw
    assert_eq!(m.get_v(15), 0);
    let after_first: Vec<bool> = m.get_display().clone();
    assert!(after_first[0] && after_first[1] && after_first[2] && after_first[3]);
    assert!(!after_first[4]);
    m.tick().unwrap(); // second draw of the same sprite
    assert_eq!(m.get_v(15), 1);
    assert!(m.get_display().iter().all(|p| !*p));
}

#[test]
fn draw_wraps_around_the_right_edge() {
    // V0 = 62, V1 = 0, draw one row of 0xF0 at (62, 0)
    let mut m = boot(&[0x60, 0x3E, 0x61, 0x00, 0xA0, 0x00, 0xD0, 0x11]);
    m.tick().unwrap();
    m.tick().unwrap();
    m.tick().unwrap();
    m.tick().unwrap();
    let d = m.get_display();
    assert!(d[62] && d[63] && d[0] && d[1]);
    assert!(!d[2] && !d[61]);
}

#[test]
fn draw_of_height_zero_draws_nothing() {
    let mut m = boot(&[0xA0, 0x00, 0xD0, 0x10]);
    m.tick().unwrap();
    m.tick().unwrap();
    assert!(m.get_display().iter().all(|p| !*p));
    assert_eq!(m.get_v(15), 0);
}

#[test]
fn skip_if_equal_advances_by_4_when_taken_else_2() {
    // V0 = 5; 3005 taken; 3006 not taken
    let mut m = boot(&[0x60, 0x05, 0x30, 0x05, 0x00, 0x00, 0x30, 0x06]);
    m.tick().unwrap();
    assert_eq!(m.get_pc(), 0x202);
    m.tick().unwrap(); // 3005: condition holds
    assert_eq!(m.get_pc(), 0x206);
    m.tick().unwrap(); // 3006 at 0x206: condition fails
    assert_eq!(m.get_pc(), 0x208);
}

#[test]
fn skip_register_forms() {
    // V0 = 5, V1 = 5: 5010 taken; then 9010 (at 0x206) not taken
    let mut m = boot(&[0x60, 0x05, 0x61, 0x05, 0x50, 0x10, 0x00, 0x00, 0x90, 0x10]);
    m.tick().unwrap();
    m.tick().unwrap();
    m.tick().unwrap(); // 5010 taken
    assert_eq!(m.get_pc(), 0x208);
    m.tick().unwrap(); // 9010 with V0 == V1: not taken
    assert_eq!(m.get_pc(), 0x20A);
    // not-equal immediate: 4005 not taken with V0 = 5
    let mut m2 = boot(&[0x60, 0x05, 0x40, 0x05]);
    m2.tick().unwrap();
    m2.tick().unwrap();
    assert_eq!(m2.get_pc(), 0x204);
}

#[test]
fn skip_on_key_state() {
    // V0 = 7: E09E skips when key 7 pressed; EJA1 skips when released
    let mut m = boot(&[0x60, 0x07, 0xE0, 0x9E]);
    m.key_press(7, true).unwrap();
    m.tick().unwrap();
    m.tick().unwrap();
    assert_eq!(m.get_pc(), 0x206);
    let mut m2 = boot(&[0x60, 0x07, 0xE0, 0xA1]);
    m2.tick().unwrap();
    m2.tick().unwrap(); // key 7 released: skip
    assert_eq!(m2.get_pc(), 0x206);
}

#[test]
fn bcd_decomposition_of_234() {
    // V0 = 234, I = 0x300, F033
    let mut m = boot(&[0x60, 0xEA, 0xA3, 0x00, 0xF0, 0x33]);
    m.tick().unwrap();
    m.tick().unwrap();
    m.tick().unwrap();
    assert_eq!(m.get_ram(0x300), 2);
    assert_eq!(m.get_ram(0x301), 3);
    assert_eq!(m.get_ram(0x302), 4);
}

#[test]
fn wait_for_key_busy_polls_then_takes_lowest_key() {
    let mut m = boot(&[0xF0, 0x0A]);
    for _ in 0..5 {
        m.tick().unwrap();
        assert_eq!(m.get_pc(), 0x200);
    }
    m.key_press(9, true).unwrap();
    m.key_press(4, true).unwrap();
    m.tick().unwrap();
    assert_eq!(m.get_v(0), 4);
    assert_eq!(m.get_pc(), 0x202);
}

#[test]
fn load_rejects_an_oversized_payload_and_keeps_memory() {
    let mut m = boot(&[0x12, 0x34]);
    let big = vec![0xAAu8; 3585];
    assert_eq!(m.load(&big), Err(Chip8Error::CapacityExceeded));
    assert_eq!(m.get_ram(0x200), 0x12);
    assert_eq!(m.get_ram(0x201), 0x34);
    let exact = vec![0xBBu8; 3584];
    assert_eq!(m.load(&exact), Ok(()));
    assert_eq!(m.get_ram(0x200), 0xBB);
    assert_eq!(m.get_ram(0xFFF), 0xBB);
    assert_eq!(m.get_ram(0x1FF), 0); // the byte before the start address
}

#[test]
fn load_never_touches_the_font_region() {
    let mut m = Emu::new();
    let before: Vec<u8> = (0..80).map(|a| m.get_ram(a)).collect();
    m.load(&vec![0xCCu8; 3584]).unwrap();
    let after: Vec<u8> = (0..80).map(|a| m.get_ram(a)).collect();
    assert_eq!(before, after);
}

#[test]
fn reset_matches_a_fresh_machine() {
    let mut m = boot(&[0x60, 0x2A, 0xA3, 0x00, 0xF0, 0x55, 0x6F, 0x09, 0xF0, 0x18]);
    for _ in 0..5 {
        m.tick().unwrap();
    }
    m.key_press(3, true).unwrap();
    m.reset();
    let fresh = Emu::new();
    assert_eq!(m.get_pc(), fresh.get_pc());
    assert_eq!(m.get_i(), fresh.get_i());
    assert_eq!(m.get_sp(), fresh.get_sp());
    assert_eq!(m.get_delay_timer(), fresh.get_delay_timer());
    assert_eq!(m.get_sound_timer(), fresh.get_sound_timer());
    for x in 0..16 {
        assert_eq!(m.get_v(x), fresh.get_v(x));
        assert_eq!(m.get_key(x), fresh.get_key(x));
    }
    for a in 0..4096 {
        assert_eq!(m.get_ram(a), fresh.get_ram(a));
    }
    assert_eq!(m.get_display(), fresh.get_display());
}

#[test]
fn unimplemented_opcode_reports_opcode_and_fetch_pc() {
    let mut m = boot(&[0xFF, 0xFF]);
    assert_eq!(
        m.tick(),
        Err(Chip8Error::UnimplementedOpcode { opcode: 0xFFFF, pc: 0x200 })
    );
}

#[test]
fn fetch_past_the_end_of_memory_is_reported() {
    // jump to 0xFFF: the second instruction byte would lie at 0x1000
    let mut m = boot(&[0x1F, 0xFF]);
    m.tick().unwrap();
    assert_eq!(m.get_pc(), 0xFFF);
    assert_eq!(
        m.tick(),
        Err(Chip8Error::MemoryAccessViolation { address: 0x1000 })
    );
}

#[test]
fn bcd_past_the_end_of_memory_is_reported() {
    // I = 0xFFF: the tens and ones bytes would lie past memory
    let mut m = boot(&[0xAF, 0xFF, 0xF0, 0x33]);
    m.tick().unwrap();
    assert_eq!(
        m.tick(),
        Err(Chip8Error::MemoryAccessViolation { address: 0x1001 })
    );
}

#[test]
fn call_depth_past_16_overflows_the_stack() {
    // a subroutine that calls itself
    let mut m = boot(&[0x22, 0x00]);
    for _ in 0..16 {
        m.tick().unwrap();
    }
    assert_eq!(m.tick(), Err(Chip8Error::StackOverflow));
}

#[test]
fn return_on_an_empty_stack_underflows() {
    let mut m = boot(&[0x00, 0xEE]);
    assert_eq!(m.tick(), Err(Chip8Error::StackUnderflow));
}

#[test]
fn key_press_rejects_an_out_of_range_index() {
    let mut m = Emu::new();
    assert_eq!(m.key_press(16, true), Err(Chip8Error::InvalidKeyIndex));
    assert_eq!(m.key_press(15, true), Ok(()));
    assert!(m.get_key(15));
    m.key_press(15, false).unwrap();
    assert!(!m.get_key(15));
}

#[test]
fn timers_decrement_and_signal_tone_stop() {
    // V0 = 2 into the delay timer; V1 = 1 into the sound timer
    let mut m = boot(&[0x60, 0x02, 0xF0, 0x15, 0x61, 0x01, 0xF1, 0x18]);
    for _ in 0..4 {
        m.tick().unwrap();
    }
    assert_eq!(m.get_delay_timer(), 2);
    assert_eq!(m.get_sound_timer(), 1);
    let stop = m.tick_timers();
    assert!(stop);
    assert_eq!(m.get_delay_timer(), 1);
    assert_eq!(m.get_sound_timer(), 0);
    let stop2 = m.tick_timers();
    assert!(!stop2);
    assert_eq!(m.get_delay_timer(), 0);
    assert_eq!(m.get_sound_timer(), 0);
    assert!(!m.tick_timers());
}

#[test]
fn random_instruction_masks_the_injected_byte() {
    let mut m = boot(&[0xC0, 0x0F]);
    m.tick_with_random(0xAB).unwrap();
    assert_eq!(m.get_v(0), 0x0B);
    // through the process random source the mask still pins a zero mask
    let mut m2 = boot(&[0xC1, 0x00]);
    m2.tick().unwrap();
    assert_eq!(m2.get_v(1), 0x00);
}

#[test]
fn jumps_and_index_register() {
    // 1NNN, then at the target BNNN with V0 = 2
    let mut m = boot(&[0x13, 0x00]);
    m.tick().unwrap();
    assert_eq!(m.get_pc(), 0x300);
    let mut m2 = boot(&[0x60, 0x02, 0xB2, 0x08]);
    m2.tick().unwrap();
    m2.tick().unwrap();
    assert_eq!(m2.get_pc(), 0x20A);
    let mut m3 = boot(&[0xA1, 0x23, 0x60, 0x05, 0xF0, 0x1E]);
    m3.tick().unwrap();
    assert_eq!(m3.get_i(), 0x123);
    m3.tick().unwrap();
    m3.tick().unwrap();
    assert_eq!(m3.get_i(), 0x128);
}

#[test]
fn font_address_uses_the_low_nibble() {
    let mut m = boot(&[0x63, 0xFA, 0xF3, 0x29]);
    m.tick().unwrap();
    m.tick().unwrap();
    assert_eq!(m.get_i(), 50); // glyph 0xA at 10 * 5
    // the glyph bytes are in memory at power-on
    assert_eq!(m.get_ram(50), 0xF0);
}

#[test]
fn block_store_and_load_round_trip() {
    let mut m = boot(&[
        0x60, 0x11, 0x61, 0x22, 0x62, 0x33, // V0..V2
        0xA3, 0x00, 0xF2, 0x55, // store V0..=V2 at 0x300
        0x60, 0x00, 0x61, 0x00, 0x62, 0x00, // zero them
        0xF2, 0x65, // load V0..=V2 back
    ]);
    for _ in 0..5 {
        m.tick().unwrap();
    }
    assert_eq!(m.get_ram(0x300), 0x11);
    assert_eq!(m.get_ram(0x301), 0x22);
    assert_eq!(m.get_ram(0x302), 0x33);
    assert_eq!(m.get_ram(0x303), 0);
    for _ in 0..4 {
        m.tick().unwrap();
    }
    assert_eq!(m.get_v(0), 0x11);
    assert_eq!(m.get_v(1), 0x22);
    assert_eq!(m.get_v(2), 0x33);
    assert_eq!(m.get_v(3), 0);
}

#[test]
fn block_store_past_the_end_of_memory_is_reported() {
    let mut m = boot(&[0xAF, 0xFE, 0xF2, 0x55]);
    m.tick().unwrap();
    assert_eq!(
        m.tick(),
        Err(Chip8Error::MemoryAccessViolation { address: 0x1000 })
    );
}

#[test]
fn register_copy_and_delay_timer_read() {
    let mut m = boot(&[0x60, 0x07, 0x81, 0x00, 0xF0, 0x15, 0xF2, 0x07]);
    m.tick().unwrap();
    m.tick().unwrap();
    assert_eq!(m.get_v(1), 0x07);
    m.tick().unwrap(); // delay timer = 7
    m.tick().unwrap(); // V2 = delay timer
    assert_eq!(m.get_v(2), 0x07);
}

#[test]
fn nop_consumes_a_step_without_state_change() {
    let mut m = boot(&[0x00, 0x00]);
    m.tick().unwrap();
    assert_eq!(m.get_pc(), 0x202);
    assert!(m.get_display().iter().all(|p| !*p));
    assert_eq!(m.get_sp(), 0);
}
