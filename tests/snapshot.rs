use pich8::input::InputState;
use pich8::machine::{Machine, Quirks};
use pich8::snapshot::{DecodeError, DEPTH_AT, PC_AT, SNAPSHOT_SIZE, SNAPSHOT_VERSION, QUIRKS_AT, STACK_AT};

// Draws the digit in register 0 at a moving position, forever.
const PROGRAM: [u8; 16] = [
    0x60, 0x03, 0x61, 0x00, 0x22, 0x08, 0x12, 0x04, 0xF0, 0x29, 0xD1, 0x15, 0x71, 0x03, 0x00, 0xEE,
];

fn started() -> Machine {
    let mut m = Machine::new();
    m.load_rom(&PROGRAM).unwrap();
    m
}

fn run(m: &mut Machine, steps: usize) -> Vec<Vec<u64>> {
    let keys = InputState::new();
    let mut frames = Vec::new();
    for _ in 0..steps {
        m.tick(&keys, 0x5A).unwrap();
        frames.push(m.display_buffer().to_vec());
    }
    frames
}

#[test]
fn snapshot_has_fixed_size_and_version() {
    let s = started().serialize();
    assert_eq!(s.len(), SNAPSHOT_SIZE);
    assert_eq!(s[0], SNAPSHOT_VERSION);
    assert_eq!(s[1], 0xF0);
    assert_eq!(s[4115], 0x02);
    assert_eq!(s[4116], 0x00);
}

#[test]
fn snapshot_round_trips_mid_execution() {
    let mut m = started();
    run(&mut m, 5);
    m.update_timers();
    assert_eq!(m.stack_depth(), 1);
    let bytes = m.serialize();
    let r = Machine::from_state(&bytes).unwrap();
    assert_eq!(r.serialize(), bytes);
    assert_eq!(r.pc(), m.pc());
    assert_eq!(r.index(), m.index());
    assert_eq!(r.stack_depth(), 1);
    assert_eq!(r.stack_entry(0), m.stack_entry(0));
    assert_eq!(r.display_buffer(), m.display_buffer());
    for x in 0..16 {
        assert_eq!(r.register(x), m.register(x));
    }
}

#[test]
fn restored_snapshot_resumes_identically() {
    let mut m = started();
    run(&mut m, 9);
    let mut restored = Machine::from_state(&m.serialize()).unwrap();
    let a = run(&mut m, 40);
    let b = run(&mut restored, 40);
    assert_eq!(a, b);
    assert!(a.iter().any(|f| f.iter().any(|r| *r != 0)));
}

#[test]
fn truncated_snapshot_is_refused() {
    let s = started().serialize();
    assert_eq!(Machine::from_state(&s[..SNAPSHOT_SIZE - 1]).err(), Some(DecodeError::Truncated));
    assert_eq!(Machine::from_state(&[]).err(), Some(DecodeError::Truncated));
}

#[test]
fn oversized_snapshot_is_refused() {
    let mut s = started().serialize();
    s.push(0);
    assert_eq!(Machine::from_state(&s).err(), Some(DecodeError::TrailingBytes));
}

#[test]
fn snapshot_of_other_version_is_refused() {
    let mut s = started().serialize();
    s[0] = 7;
    assert_eq!(Machine::from_state(&s).err(), Some(DecodeError::VersionMismatch(7)));
}

#[test]
fn snapshot_with_deep_stack_is_refused() {
    let mut s = started().serialize();
    s[DEPTH_AT] = 17;
    assert_eq!(Machine::from_state(&s).err(), Some(DecodeError::StackTooDeep(17)));
    s[DEPTH_AT] = 16;
    assert_eq!(Machine::from_state(&s).unwrap().stack_depth(), 16);
}

#[test]
fn snapshot_with_program_counter_outside_memory_is_refused() {
    let mut s = started().serialize();
    s[PC_AT] = 0x10;
    s[PC_AT + 1] = 0x00;
    assert_eq!(Machine::from_state(&s).err(), Some(DecodeError::PcOutOfRange(0x1000)));
    s[PC_AT] = 0x0F;
    s[PC_AT + 1] = 0xFF;
    assert_eq!(Machine::from_state(&s).unwrap().pc(), 0xFFF);
}

#[test]
fn snapshot_with_return_address_outside_memory_is_refused() {
    let mut s = started().serialize();
    s[DEPTH_AT] = 2;
    s[STACK_AT] = 0x02;
    s[STACK_AT + 2] = 0x10;
    assert_eq!(Machine::from_state(&s).err(), Some(DecodeError::ReturnAddressOutOfRange));
    s[DEPTH_AT] = 1;
    let m = Machine::from_state(&s).unwrap();
    assert_eq!(m.stack_entry(0), 0x200);
}

#[test]
fn snapshot_keeps_switches() {
    let q = Quirks { shift_reads_vy: true, store_advances_index: false };
    let mut m = Machine::with_quirks(q);
    m.load_rom(&PROGRAM).unwrap();
    let s = m.serialize();
    assert_eq!(s[QUIRKS_AT], 1);
    assert_eq!(Machine::from_state(&s).unwrap().quirks(), q);
}

#[test]
fn snapshot_with_unknown_switches_is_refused() {
    let mut s = started().serialize();
    s[QUIRKS_AT] = 4;
    assert_eq!(Machine::from_state(&s).err(), Some(DecodeError::UnknownQuirks(4)));
    s[QUIRKS_AT] = 3;
    let q = Machine::from_state(&s).unwrap().quirks();
    assert!(q.shift_reads_vy && q.store_advances_index);
}
