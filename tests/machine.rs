use pich8::input::InputState;
use pich8::machine::{ExecutionFault, Machine, Quirks, CYCLES_PER_FRAME, MAX_ROM_SIZE, PROGRAM_START};
use pich8::snapshot::DecodeError;

fn boot(rom: &[u8]) -> Machine {
    let mut m = Machine::new();
    assert_eq!(m.load_rom(rom), Ok(()));
    m
}

fn run(m: &mut Machine, steps: usize) {
    let keys = InputState::new();
    for _ in 0..steps {
        assert_eq!(m.tick(&keys, 0), Ok(()));
    }
}

#[test]
fn new_machine_starts_at_entry_point() {
    let m = Machine::new();
    assert_eq!(m.pc(), PROGRAM_START);
    assert_eq!(m.index(), 0);
    assert_eq!(m.stack_depth(), 0);
    assert_eq!(m.memory_at(0), 0xF0);
    assert_eq!(m.memory_at(79), 0x80);
    assert_eq!(m.memory_at(80), 0);
    for x in 0..16 {
        assert_eq!(m.register(x), 0);
    }
    assert!(m.display_buffer().iter().all(|r| *r == 0));
    assert_eq!(m.display_buffer().len(), 32);
}

#[test]
fn load_rom_places_image_at_entry_point() {
    let m = boot(&[0xAB, 0xCD]);
    assert_eq!(m.memory_at(0x200), 0xAB);
    assert_eq!(m.memory_at(0x201), 0xCD);
    assert_eq!(m.memory_at(0x202), 0);
}

#[test]
fn load_rom_of_largest_size_fits() {
    let rom = vec![0x11u8; MAX_ROM_SIZE];
    let m = boot(&rom);
    assert_eq!(m.memory_at(4095), 0x11);
}

#[test]
fn load_rom_too_large_is_refused_and_changes_nothing() {
    let mut m = boot(&[0x60, 0x05]);
    run(&mut m, 1);
    let before = m.serialize();
    let rom = vec![0u8; MAX_ROM_SIZE + 1];
    assert_eq!(m.load_rom(&rom), Err(DecodeError::RomTooLarge));
    assert_eq!(m.serialize(), before);
}

#[test]
fn set_register_then_jump_to_self() {
    let mut m = boot(&[0x60, 0x05, 0x12, 0x02]);
    run(&mut m, 1);
    assert_eq!(m.register(0), 5);
    assert_eq!(m.pc(), 0x202);
    run(&mut m, 25);
    assert_eq!(m.register(0), 5);
    assert_eq!(m.pc(), 0x202);
}

#[test]
fn add_with_carry_wraps_and_sets_flag() {
    let mut m = boot(&[0x60, 0xFF, 0x61, 0x02, 0x80, 0x14]);
    run(&mut m, 3);
    assert_eq!(m.register(0), 1);
    assert_eq!(m.register(15), 1);
}

#[test]
fn add_without_carry_clears_flag() {
    let mut m = boot(&[0x6F, 0x01, 0x60, 0x10, 0x61, 0x20, 0x80, 0x14]);
    run(&mut m, 4);
    assert_eq!(m.register(0), 0x30);
    assert_eq!(m.register(15), 0);
}

#[test]
fn sub_with_borrow_wraps_and_clears_flag() {
    let mut m = boot(&[0x60, 0x05, 0x61, 0x07, 0x80, 0x15]);
    run(&mut m, 3);
    assert_eq!(m.register(0), 0xFE);
    assert_eq!(m.register(15), 0);
}

#[test]
fn sub_without_borrow_sets_flag() {
    let mut m = boot(&[0x60, 0x07, 0x61, 0x05, 0x80, 0x15]);
    run(&mut m, 3);
    assert_eq!(m.register(0), 2);
    assert_eq!(m.register(15), 1);
}

#[test]
fn reverse_sub_uses_second_register_first() {
    let mut m = boot(&[0x60, 0x07, 0x61, 0x05, 0x80, 0x17]);
    run(&mut m, 3);
    assert_eq!(m.register(0), 0xFE);
    assert_eq!(m.register(15), 0);
}

#[test]
fn shifts_work_in_place_and_keep_the_lost_bit() {
    let mut m = boot(&[0x60, 0x81, 0x61, 0x00, 0x80, 0x16, 0x62, 0x81, 0x82, 0x1E]);
    run(&mut m, 3);
    assert_eq!(m.register(0), 0x40);
    assert_eq!(m.register(15), 1);
    run(&mut m, 2);
    assert_eq!(m.register(2), 0x02);
    assert_eq!(m.register(15), 1);
}

#[test]
fn logic_operations() {
    let mut m = boot(&[
        0x60, 0x0C, 0x61, 0x0A, 0x62, 0x0C, 0x63, 0x0C, 0x80, 0x11, 0x82, 0x12, 0x83, 0x13, 0x84, 0x10,
    ]);
    run(&mut m, 8);
    assert_eq!(m.register(0), 0x0E);
    assert_eq!(m.register(2), 0x08);
    assert_eq!(m.register(3), 0x06);
    assert_eq!(m.register(4), 0x0A);
}

#[test]
fn add_immediate_wraps_without_flag() {
    let mut m = boot(&[0x60, 0xFE, 0x70, 0x05]);
    run(&mut m, 2);
    assert_eq!(m.register(0), 3);
    assert_eq!(m.register(15), 0);
}

#[test]
fn conditional_skips() {
    // 3XNN taken, 4XNN not taken, 5XY0 taken, 9XY0 not taken
    let mut m = boot(&[0x60, 0x05, 0x30, 0x05, 0x00, 0x00, 0x40, 0x05, 0x61, 0x05, 0x50, 0x10, 0x00, 0x00, 0x90, 0x10]);
    run(&mut m, 2);
    assert_eq!(m.pc(), 0x206);
    run(&mut m, 1);
    assert_eq!(m.pc(), 0x208);
    run(&mut m, 2);
    assert_eq!(m.pc(), 0x20E);
    run(&mut m, 1);
    assert_eq!(m.pc(), 0x210);
}

#[test]
fn call_and_return() {
    let mut m = boot(&[0x22, 0x06, 0x00, 0x00, 0x00, 0x00, 0x00, 0xEE]);
    run(&mut m, 1);
    assert_eq!(m.pc(), 0x206);
    assert_eq!(m.stack_depth(), 1);
    assert_eq!(m.stack_entry(0), 0x202);
    run(&mut m, 1);
    assert_eq!(m.pc(), 0x202);
    assert_eq!(m.stack_depth(), 0);
}

#[test]
fn return_on_empty_stack_underflows() {
    let mut m = boot(&[0x00, 0xEE]);
    let before = m.serialize();
    assert_eq!(m.tick(&InputState::new(), 0), Err(ExecutionFault::StackUnderflow));
    assert_eq!(m.serialize(), before);
}

#[test]
fn call_beyond_limit_overflows() {
    let mut m = boot(&[0x22, 0x00]);
    run(&mut m, 16);
    assert_eq!(m.stack_depth(), 16);
    assert_eq!(m.tick(&InputState::new(), 0), Err(ExecutionFault::StackOverflow));
    assert_eq!(m.stack_depth(), 16);
}

#[test]
fn unknown_opcodes_fault() {
    for op in [[0x01u8, 0x23], [0x50, 0x11], [0x80, 0x08], [0x90, 0x01], [0xE0, 0x00], [0xF0, 0xFF]] {
        let mut m = boot(&op);
        let code = (op[0] as u16) << 8 | op[1] as u16;
        assert_eq!(m.tick(&InputState::new(), 0), Err(ExecutionFault::UnknownOpcode(code)));
        assert_eq!(m.pc(), 0x200);
    }
}

#[test]
fn fetch_past_memory_end_faults() {
    let mut m = boot(&[0x1F, 0xFF]);
    run(&mut m, 1);
    assert_eq!(m.pc(), 0xFFF);
    assert_eq!(m.tick(&InputState::new(), 0), Err(ExecutionFault::PcOutOfBounds(0xFFF)));
}

#[test]
fn jump_with_offset_past_memory_faults() {
    let mut m = boot(&[0x60, 0xFF, 0xBF, 0xFF]);
    run(&mut m, 1);
    assert_eq!(m.tick(&InputState::new(), 0), Err(ExecutionFault::PcOutOfBounds(0x10FE)));
    assert_eq!(m.pc(), 0x202);
    assert_eq!(m.register(0), 0xFF);
}

fn boot_with_tail(tail: &[u8]) -> Machine {
    let mut rom = vec![0u8; MAX_ROM_SIZE];
    rom[0] = 0x10 | ((0x1000 - tail.len()) >> 8) as u8;
    rom[1] = ((0x1000 - tail.len()) & 0xFF) as u8;
    let start = MAX_ROM_SIZE - tail.len();
    rom[start..].copy_from_slice(tail);
    let mut m = boot(&rom);
    run(&mut m, 1);
    m
}

#[test]
fn step_at_last_word_faults_and_changes_nothing() {
    let mut m = boot_with_tail(&[0x60, 0x07]);
    assert_eq!(m.pc(), 0xFFE);
    let before = m.serialize();
    assert_eq!(m.tick(&InputState::new(), 0), Err(ExecutionFault::PcOutOfBounds(0x1000)));
    assert_eq!(m.serialize(), before);
    assert_eq!(m.register(0), 0);
}

#[test]
fn skip_past_memory_faults() {
    let mut m = boot_with_tail(&[0x30, 0x00, 0x00, 0x00]);
    assert_eq!(m.pc(), 0xFFC);
    assert_eq!(m.tick(&InputState::new(), 0), Err(ExecutionFault::PcOutOfBounds(0x1000)));
    assert_eq!(m.pc(), 0xFFC);
}

#[test]
fn call_with_return_address_past_memory_faults() {
    let mut m = boot_with_tail(&[0x22, 0x00]);
    assert_eq!(m.tick(&InputState::new(), 0), Err(ExecutionFault::PcOutOfBounds(0x1000)));
    assert_eq!(m.stack_depth(), 0);
    assert_eq!(m.pc(), 0xFFE);
}

#[test]
fn decimal_store_past_memory_end_faults() {
    let mut m = boot(&[0xAF, 0xFF, 0xF0, 0x33]);
    run(&mut m, 1);
    assert_eq!(m.tick(&InputState::new(), 0), Err(ExecutionFault::MemoryOutOfBounds(0xFFF)));
}

#[test]
fn decimal_store_writes_three_digits() {
    let mut m = boot(&[0x60, 0x7B, 0xA3, 0x00, 0xF0, 0x33]);
    run(&mut m, 3);
    assert_eq!(m.memory_at(0x300), 1);
    assert_eq!(m.memory_at(0x301), 2);
    assert_eq!(m.memory_at(0x302), 3);
    assert_eq!(m.index(), 0x300);
}

#[test]
fn store_and_load_registers() {
    let mut m = boot(&[0x60, 0x0A, 0x61, 0x0B, 0x62, 0x0C, 0xA3, 0x00, 0xF2, 0x55, 0x60, 0x00, 0x61, 0x00, 0x62, 0x00, 0xF1, 0x65]);
    run(&mut m, 5);
    assert_eq!(m.memory_at(0x300), 0x0A);
    assert_eq!(m.memory_at(0x302), 0x0C);
    assert_eq!(m.memory_at(0x303), 0);
    assert_eq!(m.index(), 0x300);
    run(&mut m, 4);
    assert_eq!(m.register(0), 0x0A);
    assert_eq!(m.register(1), 0x0B);
    assert_eq!(m.register(2), 0);
}

#[test]
fn index_operations() {
    let mut m = boot(&[0xAF, 0xFF, 0x60, 0x03, 0xF0, 0x1E, 0x61, 0x1A, 0xF1, 0x29]);
    run(&mut m, 3);
    assert_eq!(m.index(), 0x1002);
    run(&mut m, 2);
    assert_eq!(m.index(), 50);
}

#[test]
fn random_byte_is_masked() {
    let mut m = boot(&[0xC0, 0x0F]);
    assert_eq!(m.tick(&InputState::new(), 0xAB), Ok(()));
    assert_eq!(m.register(0), 0x0B);
}

#[test]
fn draw_on_blank_then_redraw_collides() {
    let mut m = boot(&[0x60, 0x00, 0xF0, 0x29, 0xD0, 0x05, 0xD0, 0x05]);
    run(&mut m, 3);
    assert_eq!(m.register(15), 0);
    assert_eq!(m.display_buffer()[0], 0xF0u64 << 56);
    assert_eq!(m.display_buffer()[1], 0x90u64 << 56);
    assert_eq!(m.display_buffer()[5], 0);
    run(&mut m, 1);
    assert_eq!(m.register(15), 1);
    assert!(m.display_buffer().iter().all(|r| *r == 0));
}

#[test]
fn draw_wraps_at_edges() {
    // digit 0 at x = 62, y = 30
    let mut m = boot(&[0x60, 0x00, 0xF0, 0x29, 0x61, 0x3E, 0x62, 0x1E, 0xD1, 0x25]);
    run(&mut m, 5);
    let d = m.display_buffer();
    assert_eq!(d[30], 0xC000_0000_0000_0003);
    assert_eq!(d[31], 0x4000_0000_0000_0002);
    assert_eq!(d[0], 0x4000_0000_0000_0002);
    assert_eq!(d[1], 0x4000_0000_0000_0002);
    assert_eq!(d[2], 0xC000_0000_0000_0003);
    assert_eq!(d[3], 0);
    assert_eq!(m.register(15), 0);
}

#[test]
fn draw_past_memory_end_faults() {
    let mut m = boot(&[0xAF, 0xFE, 0xD0, 0x03]);
    run(&mut m, 1);
    assert_eq!(m.tick(&InputState::new(), 0), Err(ExecutionFault::MemoryOutOfBounds(0xFFE)));
}

#[test]
fn clear_screen() {
    let mut m = boot(&[0xD0, 0x05, 0x00, 0xE0]);
    run(&mut m, 1);
    assert_ne!(m.display_buffer()[0], 0);
    run(&mut m, 1);
    assert!(m.display_buffer().iter().all(|r| *r == 0));
    assert_eq!(m.pc(), 0x204);
}

#[test]
fn key_skips_follow_input() {
    let mut keys = InputState::new();
    keys.set(7, true);
    let mut m = boot(&[0x60, 0x07, 0xE0, 0x9E, 0x00, 0x00, 0xE0, 0xA1]);
    m.tick(&keys, 0).unwrap();
    m.tick(&keys, 0).unwrap();
    assert_eq!(m.pc(), 0x206);
    m.tick(&keys, 0).unwrap();
    assert_eq!(m.pc(), 0x208);
}

#[test]
fn wait_for_key_holds_until_pressed() {
    let mut m = boot(&[0xF3, 0x0A]);
    let none = InputState::new();
    m.tick(&none, 0).unwrap();
    m.tick(&none, 0).unwrap();
    assert_eq!(m.pc(), 0x200);
    let mut keys = InputState::new();
    keys.set(9, true);
    keys.set(5, true);
    m.tick(&keys, 0).unwrap();
    assert_eq!(m.register(3), 5);
    assert_eq!(m.pc(), 0x202);
}

#[test]
fn timers_decay_to_zero_and_stay() {
    let mut m = boot(&[0x60, 0x03, 0xF0, 0x15, 0xF0, 0x18, 0xF1, 0x07]);
    run(&mut m, 4);
    assert_eq!(m.delay_timer(), 3);
    assert_eq!(m.register(1), 3);
    assert!(m.sound_active());
    for expected in [2u8, 1, 0, 0, 0] {
        assert!(m.sound_active());
        m.update_timers();
        assert_eq!(m.delay_timer(), expected);
        assert_eq!(m.sound_timer(), expected);
        if expected == 0 {
            assert!(!m.sound_active());
            break;
        }
    }
    m.update_timers();
    assert_eq!(m.sound_timer(), 0);
    assert!(!m.sound_active());
}

#[test]
fn run_frame_steps_then_ticks_timers() {
    let mut m = boot(&[0x60, 0x05, 0xF0, 0x15, 0x70, 0x01, 0x12, 0x06]);
    let randoms = [0u8; CYCLES_PER_FRAME];
    assert_eq!(m.run_frame(&InputState::new(), &randoms), Ok(()));
    assert_eq!(m.register(0), 6);
    assert_eq!(m.delay_timer(), 4);
    assert_eq!(m.pc(), 0x206);
}

#[test]
fn run_frame_stops_at_fault_before_timers() {
    let mut m = boot(&[0x60, 0x05, 0xF0, 0x15, 0x00, 0xEE]);
    let randoms = [0u8; CYCLES_PER_FRAME];
    assert_eq!(m.run_frame(&InputState::new(), &randoms), Err(ExecutionFault::StackUnderflow));
    assert_eq!(m.delay_timer(), 5);
    assert_eq!(m.pc(), 0x204);
}

#[test]
fn shift_switch_reads_second_register() {
    let q = Quirks { shift_reads_vy: true, store_advances_index: false };
    let mut m = Machine::with_quirks(q);
    m.load_rom(&[0x60, 0x03, 0x61, 0x81, 0x80, 0x16, 0x62, 0x00, 0x82, 0x1E]).unwrap();
    assert_eq!(m.quirks(), q);
    run(&mut m, 3);
    assert_eq!(m.register(0), 0x40);
    assert_eq!(m.register(1), 0x81);
    assert_eq!(m.register(15), 1);
    run(&mut m, 2);
    assert_eq!(m.register(2), 0x02);
    assert_eq!(m.register(15), 1);
}

#[test]
fn store_switch_advances_index() {
    let mut m = Machine::new();
    m.set_quirks(Quirks { shift_reads_vy: false, store_advances_index: true });
    m.load_rom(&[0x60, 0x0A, 0x61, 0x0B, 0xA3, 0x00, 0xF1, 0x55, 0xF0, 0x65]).unwrap();
    run(&mut m, 4);
    assert_eq!(m.index(), 0x302);
    assert_eq!(m.memory_at(0x301), 0x0B);
    run(&mut m, 1);
    assert_eq!(m.index(), 0x303);
    assert_eq!(m.register(0), 0);
}

#[test]
fn default_switches_are_off_and_survive_loading() {
    let m = Machine::new();
    assert_eq!(m.quirks(), Quirks { shift_reads_vy: false, store_advances_index: false });
    let q = Quirks { shift_reads_vy: true, store_advances_index: true };
    let mut m = Machine::with_quirks(q);
    m.load_rom(&[0x00, 0xE0]).unwrap();
    assert_eq!(m.quirks(), q);
}
