use chip8_vm::chip8::{Chip8, LoadError, SoundEvent, VmError};
use chip8_vm::opcode::OpCode;

#[test]
fn new_machine_layout() {
    let c = Chip8::new();
    assert_eq!(c.pc(), 0x200);
    assert_eq!(c.index_reg(), 0);
    assert_eq!(c.delay_timer(), 0);
    assert_eq!(c.sound_timer(), 0);
    assert_eq!(c.stack_depth(), 0);
    assert_eq!(c.speed_tenths(), 10);
    assert!(!c.is_sound_playing());
    assert_eq!(c.display.len(), 64 * 32);
    assert_eq!(c.keys.len(), 16);
    for x in 0..16 {
        assert_eq!(c.reg(x), 0);
    }
}

#[test]
fn load_installs_font_and_image() {
    let mut c = Chip8::new();
    let image = vec![0x12u8, 0x34, 0x56];
    assert!(c.load(&image).is_ok());
    // First and last font bytes, and the gap above the font.
    assert_eq!(c.memory_at(0), 0xF0);
    assert_eq!(c.memory_at(79), 0x80);
    assert_eq!(c.memory_at(80), 0x00);
    assert_eq!(c.memory_at(0x1FF), 0x00);
    assert_eq!(c.memory_at(0x200), 0x12);
    assert_eq!(c.memory_at(0x201), 0x34);
    assert_eq!(c.memory_at(0x202), 0x56);
    assert_eq!(c.memory_at(0x203), 0x00);
    assert_eq!(c.memory_at(4095), 0x00);
}

#[test]
fn load_rejects_oversized_image() {
    let mut c = Chip8::new();
    let too_big = vec![0u8; 3585];
    assert_eq!(c.load(&too_big), Err(LoadError::TooLarge));
    let just_fits = vec![0u8; 3584];
    assert!(c.load(&just_fits).is_ok());
}

#[test]
fn clear_display_zeroes_everything() {
    let mut c = Chip8::new();
    c.load(&vec![0x00u8, 0xE0]).unwrap();
    // Light some cells by hand, then run CLS.
    c.display[0] = 0xFF;
    c.display[100] = 0xFF;
    c.display[2047] = 0xFF;
    assert!(c.tick().is_ok());
    for j in 0..(64 * 32) {
        assert_eq!(c.display[j], 0, "cell {} not cleared", j);
    }
    assert_eq!(c.pc(), 0x202);
}

#[test]
fn add_immediate_wraps_without_flag() {
    let mut c = Chip8::new();
    c.load(&vec![]).unwrap();
    assert!(c.execute(OpCode::LdVxNn(1, 200), 0).is_ok());
    assert!(c.execute(OpCode::AddVxNn(1, 100), 0).is_ok());
    assert_eq!(c.reg(1), 44); // 300 mod 256
    assert_eq!(c.reg(15), 0);
    assert!(c.execute(OpCode::AddVxNn(1, 10), 0).is_ok());
    assert_eq!(c.reg(1), 54);
    assert_eq!(c.reg(15), 0);
}

#[test]
fn add_register_sets_carry_flag() {
    let mut c = Chip8::new();
    assert!(c.execute(OpCode::LdVxNn(1, 200), 0).is_ok());
    assert!(c.execute(OpCode::LdVxNn(2, 100), 0).is_ok());
    assert!(c.execute(OpCode::AddVxVy(1, 2), 0).is_ok());
    assert_eq!(c.reg(1), 44);
    assert_eq!(c.reg(15), 1);
    assert!(c.execute(OpCode::LdVxNn(3, 10), 0).is_ok());
    assert!(c.execute(OpCode::LdVxNn(4, 20), 0).is_ok());
    assert!(c.execute(OpCode::AddVxVy(3, 4), 0).is_ok());
    assert_eq!(c.reg(3), 30);
    assert_eq!(c.reg(15), 0);
}

#[test]
fn sub_sets_borrow_flag() {
    let mut c = Chip8::new();
    // Borrow: 5 - 9 wraps and VF records the borrow with 1.
    assert!(c.execute(OpCode::LdVxNn(1, 5), 0).is_ok());
    assert!(c.execute(OpCode::LdVxNn(2, 9), 0).is_ok());
    assert!(c.execute(OpCode::SubVxVy(1, 2), 0).is_ok());
    assert_eq!(c.reg(1), 252);
    assert_eq!(c.reg(15), 1);
    // No borrow: 9 - 5.
    assert!(c.execute(OpCode::LdVxNn(1, 9), 0).is_ok());
    assert!(c.execute(OpCode::LdVxNn(2, 5), 0).is_ok());
    assert!(c.execute(OpCode::SubVxVy(1, 2), 0).is_ok());
    assert_eq!(c.reg(1), 4);
    assert_eq!(c.reg(15), 0);
}

#[test]
fn subn_sets_borrow_flag_reversed() {
    let mut c = Chip8::new();
    // Vy - Vx with Vy < Vx: borrow, VF := 1.
    assert!(c.execute(OpCode::LdVxNn(1, 9), 0).is_ok());
    assert!(c.execute(OpCode::LdVxNn(2, 5), 0).is_ok());
    assert!(c.execute(OpCode::SubnVxVy(1, 2), 0).is_ok());
    assert_eq!(c.reg(1), 252);
    assert_eq!(c.reg(15), 1);
    // Vy - Vx with Vy > Vx: no borrow.
    assert!(c.execute(OpCode::LdVxNn(1, 5), 0).is_ok());
    assert!(c.execute(OpCode::LdVxNn(2, 9), 0).is_ok());
    assert!(c.execute(OpCode::SubnVxVy(1, 2), 0).is_ok());
    assert_eq!(c.reg(1), 4);
    assert_eq!(c.reg(15), 0);
}

#[test]
fn shifts_use_vy_and_record_bit() {
    let mut c = Chip8::new();
    assert!(c.execute(OpCode::LdVxNn(2, 0b1010_0101), 0).is_ok());
    assert!(c.execute(OpCode::ShrVxVy(1, 2), 0).is_ok());
    assert_eq!(c.reg(1), 0b0101_0010);
    assert_eq!(c.reg(15), 1);
    assert!(c.execute(OpCode::ShlVxVy(3, 2), 0).is_ok());
    assert_eq!(c.reg(3), 0b0100_1010);
    assert_eq!(c.reg(15), 1);
}

#[test]
fn random_masks_with_immediate() {
    let mut c = Chip8::new();
    c.load(&vec![0xC1u8, 0x0F]).unwrap(); // RND V1, 0x0F
    assert!(c.tick().is_ok());
    assert_eq!(c.reg(1) & 0xF0, 0, "mask must clear the high nibble");
}

#[test]
fn draw_clips_at_right_edge() {
    let mut c = Chip8::new();
    // One sprite row of 0xFF stored at 0x200.
    c.load(&vec![0xFFu8]).unwrap();
    assert!(c.execute(OpCode::LdINn(0x200), 0).is_ok());
    assert!(c.execute(OpCode::LdVxNn(0, 60), 0).is_ok());
    assert!(c.execute(OpCode::LdVxNn(1, 0), 0).is_ok());
    assert!(c.execute(OpCode::DrawVxVyN(0, 1, 1), 0).is_ok());
    // Only columns 60..63 of row 0 are drawn; the sprite clips at 64.
    for col in 0..64 {
        let expect = if col >= 60 { 0xFF } else { 0x00 };
        assert_eq!(c.display[col], expect, "column {}", col);
    }
    for j in 64..(64 * 32) {
        assert_eq!(c.display[j], 0);
    }
    // Nothing was erased, so no collision.
    assert_eq!(c.reg(15), 0);
}

#[test]
fn draw_xor_erases_and_sets_collision() {
    let mut c = Chip8::new();
    c.load(&vec![0xFFu8]).unwrap();
    assert!(c.execute(OpCode::LdINn(0x200), 0).is_ok());
    assert!(c.execute(OpCode::LdVxNn(0, 4), 0).is_ok());
    assert!(c.execute(OpCode::LdVxNn(1, 2), 0).is_ok());
    assert!(c.execute(OpCode::DrawVxVyN(0, 1, 1), 0).is_ok());
    assert_eq!(c.reg(15), 0);
    assert_eq!(c.display[2 * 64 + 4], 0xFF);
    // Drawing the same sprite again erases it and reports collision.
    assert!(c.execute(OpCode::DrawVxVyN(0, 1, 1), 0).is_ok());
    assert_eq!(c.reg(15), 1);
    for j in 0..(64 * 32) {
        assert_eq!(c.display[j], 0);
    }
}

#[test]
fn draw_clips_at_bottom_edge() {
    let mut c = Chip8::new();
    c.load(&vec![0xFFu8, 0xFF]).unwrap(); // two sprite rows
    assert!(c.execute(OpCode::LdINn(0x200), 0).is_ok());
    assert!(c.execute(OpCode::LdVxNn(0, 0), 0).is_ok());
    assert!(c.execute(OpCode::LdVxNn(1, 31), 0).is_ok());
    assert!(c.execute(OpCode::DrawVxVyN(0, 1, 2), 0).is_ok());
    // Only the first row lands inside the display; the second clips.
    for col in 0..8 {
        assert_eq!(c.display[31 * 64 + col], 0xFF);
    }
    for j in 0..(31 * 64) {
        assert_eq!(c.display[j], 0, "cell {} must stay off", j);
    }
    assert_eq!(c.reg(15), 0);
}

#[test]
fn draw_wraps_origin_modulo() {
    let mut c = Chip8::new();
    c.load(&vec![0x80u8]).unwrap(); // single pixel sprite row
    assert!(c.execute(OpCode::LdINn(0x200), 0).is_ok());
    assert!(c.execute(OpCode::LdVxNn(0, 68), 0).is_ok()); // 68 mod 64 == 4
    assert!(c.execute(OpCode::LdVxNn(1, 33), 0).is_ok()); // 33 mod 32 == 1
    assert!(c.execute(OpCode::DrawVxVyN(0, 1, 1), 0).is_ok());
    assert_eq!(c.display[1 * 64 + 4], 0xFF);
}

#[test]
fn bcd_stores_decimal_digits() {
    let mut c = Chip8::new();
    c.load(&vec![]).unwrap();
    assert!(c.execute(OpCode::LdVxNn(3, 157), 0).is_ok());
    assert!(c.execute(OpCode::LdINn(0x250), 0).is_ok());
    assert!(c.execute(OpCode::LdBVx(3), 0).is_ok());
    assert_eq!(c.memory_at(0x250), 1);
    assert_eq!(c.memory_at(0x251), 5);
    assert_eq!(c.memory_at(0x252), 7);
}

#[test]
fn store_and_load_registers_block() {
    let mut c = Chip8::new();
    c.load(&vec![]).unwrap();
    for x in 0..4u8 {
        assert!(c.execute(OpCode::LdVxNn(x, 10 + x), 0).is_ok());
    }
    assert!(c.execute(OpCode::LdINn(0x300), 0).is_ok());
    assert!(c.execute(OpCode::LdIVx(3), 0).is_ok());
    for x in 0..4usize {
        assert_eq!(c.memory_at(0x300 + x), 10 + x as u8);
    }
    // Clear the registers, then load them back.
    for x in 0..4u8 {
        assert!(c.execute(OpCode::LdVxNn(x, 0), 0).is_ok());
    }
    assert!(c.execute(OpCode::LdVxI(3), 0).is_ok());
    for x in 0..4u8 {
        assert_eq!(c.reg(x), 10 + x);
    }
}

#[test]
fn font_glyph_address() {
    let mut c = Chip8::new();
    assert!(c.execute(OpCode::LdVxNn(0, 0xA), 0).is_ok());
    assert!(c.execute(OpCode::LdFVx(0), 0).is_ok());
    assert_eq!(c.index_reg(), 0xA * 5);
}

#[test]
fn call_and_return() {
    let mut c = Chip8::new();
    // 0x200: CALL 0x208; 0x208: RET.
    c.load(&vec![0x22u8, 0x08, 0, 0, 0, 0, 0, 0, 0x00, 0xEE]).unwrap();
    assert!(c.tick().is_ok());
    assert_eq!(c.pc(), 0x208);
    assert_eq!(c.stack_depth(), 1);
    assert_eq!(c.stack_at(0), 0x202);
    assert!(c.tick().is_ok());
    assert_eq!(c.pc(), 0x202);
    assert_eq!(c.stack_depth(), 0);
}

#[test]
fn skips_and_jumps() {
    let mut c = Chip8::new();
    c.load(&vec![]).unwrap();
    assert!(c.execute(OpCode::LdVxNn(1, 7), 0).is_ok());
    let pc = c.pc();
    assert!(c.execute(OpCode::SeVxNn(1, 7), 0).is_ok());
    assert_eq!(c.pc(), pc + 2);
    assert!(c.execute(OpCode::SeVxNn(1, 8), 0).is_ok());
    assert_eq!(c.pc(), pc + 2);
    assert!(c.execute(OpCode::SneVxNn(1, 8), 0).is_ok());
    assert_eq!(c.pc(), pc + 4);
    assert!(c.execute(OpCode::LdVxNn(0, 4), 0).is_ok());
    assert!(c.execute(OpCode::JmpV0Nnn(0x300), 0).is_ok());
    assert_eq!(c.pc(), 0x304);
    assert!(c.execute(OpCode::Jmp(0x400), 0).is_ok());
    assert_eq!(c.pc(), 0x400);
}

#[test]
fn key_wait_blocks_until_press() {
    let mut c = Chip8::new();
    c.load(&vec![0xF2u8, 0x0A]).unwrap(); // LD V2, K
    for _ in 0..3 {
        assert!(c.tick().is_ok());
        assert_eq!(c.pc(), 0x200, "program counter must not move without a key");
    }
    c.keys[7] = true;
    c.keys[3] = true;
    assert!(c.tick().is_ok());
    assert_eq!(c.pc(), 0x202);
    assert_eq!(c.reg(2), 3, "the lowest-indexed pressed key wins");
}

#[test]
fn key_skip_instructions() {
    let mut c = Chip8::new();
    c.load(&vec![]).unwrap();
    assert!(c.execute(OpCode::LdVxNn(0, 5), 0).is_ok());
    let pc = c.pc();
    assert!(c.execute(OpCode::SkpVx(0), 0).is_ok());
    assert_eq!(c.pc(), pc, "key 5 is up: no skip");
    assert!(c.execute(OpCode::SknpVx(0), 0).is_ok());
    assert_eq!(c.pc(), pc + 2, "key 5 is up: skip");
    c.keys[5] = true;
    assert!(c.execute(OpCode::SkpVx(0), 0).is_ok());
    assert_eq!(c.pc(), pc + 4, "key 5 is down: skip");
}

#[test]
fn timers_and_sound_edges() {
    let mut c = Chip8::new();
    // A jump-to-self program so instruction ticks always succeed.
    c.load(&vec![0x12u8, 0x00]).unwrap();
    assert!(c.execute(OpCode::LdVxNn(0, 2), 0).is_ok());
    assert!(c.execute(OpCode::LdStVx(0), 0).is_ok());
    assert!(c.execute(OpCode::LdDtVx(0), 0).is_ok());
    assert_eq!(c.sound_timer(), 2);
    assert_eq!(c.delay_timer(), 2);
    // Both deadlines are equal, so the first unit is an instruction;
    // the sound edge fires on it.
    assert!(c.execute(OpCode::Jmp(0x200), 0).is_ok());
    let ev = c.step_debug().unwrap();
    assert_eq!(ev, Some(SoundEvent::Start));
    assert!(c.is_sound_playing());
    // Now the timer deadline lags the instruction deadline, so the
    // next unit decrements the timers.
    assert_eq!(c.step_debug().unwrap(), None);
    assert_eq!(c.sound_timer(), 1);
    assert_eq!(c.delay_timer(), 1);
    // Instructions run until the timer deadline lags again; the
    // second timer tick brings the sound timer to zero and stops the
    // sound.
    let mut stopped = false;
    for _ in 0..20 {
        if c.step_debug().unwrap() == Some(SoundEvent::Stop) {
            stopped = true;
            break;
        }
    }
    assert!(stopped, "the sound must stop within a timer period");
    assert_eq!(c.sound_timer(), 0);
    assert_eq!(c.delay_timer(), 0);
    assert!(!c.is_sound_playing());
}

#[test]
fn unknown_opcode_is_fatal() {
    let mut c = Chip8::new();
    c.load(&vec![0xFFu8, 0xFF]).unwrap();
    assert_eq!(
        c.tick(),
        Err(VmError::UnknownOpcode { opcode: 0xFFFF, addr: 0x200 })
    );
    assert_eq!(c.pc(), 0x200, "a fatal error leaves the machine unchanged");
}

#[test]
fn stack_underflow_is_fatal() {
    let mut c = Chip8::new();
    c.load(&vec![0x00u8, 0xEE]).unwrap();
    assert_eq!(c.tick(), Err(VmError::StackUnderflow { addr: 0x200 }));
}

#[test]
fn program_counter_out_of_range_is_fatal() {
    let mut c = Chip8::new();
    c.load(&vec![0x1Fu8, 0xFF]).unwrap(); // JMP 0xFFF
    assert!(c.tick().is_ok());
    assert_eq!(c.pc(), 0xFFF);
    assert_eq!(
        c.tick(),
        Err(VmError::ProgramCounterOutOfRange { addr: 0xFFF })
    );
}

#[test]
fn memory_out_of_range_is_fatal() {
    let mut c = Chip8::new();
    c.load(&vec![]).unwrap();
    assert!(c.execute(OpCode::LdINn(0xFFF), 0).is_ok());
    assert!(c.execute(OpCode::LdVxNn(0, 9), 0).is_ok());
    assert_eq!(
        c.execute(OpCode::LdBVx(0), 0),
        Err(VmError::MemoryOutOfRange { addr: c.pc() - 2 })
    );
    assert_eq!(c.memory_at(0xFFF), 0, "the failed store must not write");
}

#[test]
fn key_out_of_range_is_fatal() {
    let mut c = Chip8::new();
    c.load(&vec![]).unwrap();
    assert!(c.execute(OpCode::LdVxNn(0, 200), 0).is_ok());
    assert_eq!(
        c.execute(OpCode::SkpVx(0), 0),
        Err(VmError::KeyOutOfRange { key: 200, addr: c.pc() - 2 })
    );
}

#[test]
fn add_to_index_wraps_16_bits() {
    let mut c = Chip8::new();
    assert!(c.execute(OpCode::LdINn(0xFFF), 0).is_ok());
    assert!(c.execute(OpCode::LdVxNn(0, 0xFF), 0).is_ok());
    assert!(c.execute(OpCode::AddIVx(0), 0).is_ok());
    assert_eq!(c.index_reg(), 0xFFF + 0xFF);
    assert_eq!(c.reg(15), 0, "no overflow flag for the index register");
}

#[test]
fn speed_controls_clamp() {
    let mut c = Chip8::new();
    c.speed_up();
    assert_eq!(c.speed_tenths(), 11);
    c.speed_reset();
    assert_eq!(c.speed_tenths(), 10);
    for _ in 0..20 {
        c.speed_down();
    }
    assert_eq!(c.speed_tenths(), 1, "the speed stays positive");
}

#[test]
fn doubling_speed_doubles_instruction_count() {
    let interval = 1_000_000u64; // one second of wall clock
    let mut slow = Chip8::new();
    slow.load(&vec![0x12u8, 0x00]).unwrap(); // jump to self
    let n1 = slow.step_with_time(interval).unwrap();
    let mut fast = Chip8::new();
    fast.load(&vec![0x12u8, 0x00]).unwrap();
    for _ in 0..10 {
        fast.speed_up(); // 1.0 -> 2.0
    }
    assert_eq!(fast.speed_tenths(), 20);
    let n2 = fast.step_with_time(interval).unwrap();
    assert!(n1 > 0);
    assert!(
        n2 >= 2 * n1 - 2 && n2 <= 2 * n1 + 2,
        "twice the speed must run twice the instructions up to scheduling granularity: {} vs {}",
        n1,
        n2
    );
}

#[test]
fn catch_up_reaches_the_deadline() {
    let mut c = Chip8::new();
    c.load(&vec![0x12u8, 0x00]).unwrap();
    let n = c.step_with_time(10_000).unwrap();
    assert!(n > 0);
    assert!(c.next_tick_us() >= 10_000 || c.next_timers_tick_us() >= 10_000);
    // A second poll at the same time owes nothing more.
    assert_eq!(c.step_with_time(10_000).unwrap(), 0);
}

#[test]
fn compare_reports_changed_fields() {
    let mut a = Chip8::new();
    let b = a.clone();
    assert!(Chip8::compare(&a, &b).is_empty());
    assert!(a.execute(OpCode::LdVxNn(3, 9), 0).is_ok());
    let diff = Chip8::compare(&b, &a);
    assert_eq!(diff.len(), 1);
    assert_eq!(
        diff[0],
        chip8_vm::chip8::DiffEntry::Register { index: 3, from: 0, to: 9 }
    );
}

#[test]
fn clone_is_byte_for_byte() {
    let mut c = Chip8::new();
    c.load(&vec![0xA2u8, 0x50]).unwrap();
    assert!(c.tick().is_ok());
    c.keys[4] = true;
    let d = c.clone();
    assert!(Chip8::compare(&c, &d).is_empty());
    assert_eq!(d.pc(), c.pc());
    assert_eq!(d.index_reg(), 0x250);
}
