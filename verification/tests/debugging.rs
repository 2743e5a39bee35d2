use chip8_vm::chip8::Chip8;
use chip8_vm::debugger::{update, DebugKey, Debugger};
use chip8_vm::mesh::quad_indices;

/// A small program: count up in V0, then jump back.
fn program() -> Vec<u8> {
    vec![
        0x60, 0x00, // 0x200: LD V0, 0
        0x70, 0x01, // 0x202: ADD V0, 1
        0x12, 0x02, // 0x204: JMP 0x202
    ]
}

fn step_once(dbg: &mut Debugger, chip: &mut Chip8, now: u64) {
    dbg.key_down_event(DebugKey::Step);
    let r = update(dbg, chip, now);
    assert!(r.error.is_none());
    assert!(r.diff.is_some(), "a step must report a diff");
    dbg.key_up_event(DebugKey::Step);
}

fn undo_once(dbg: &mut Debugger, chip: &mut Chip8, now: u64) {
    dbg.key_down_event(DebugKey::Undo);
    let r = update(dbg, chip, now);
    assert!(r.error.is_none());
    dbg.key_up_event(DebugKey::Undo);
}

#[test]
fn n_undos_restore_the_pre_step_state() {
    let mut chip = Chip8::new();
    chip.load(&program()).unwrap();
    let mut dbg = Debugger::new();
    let before = chip.clone();
    let n = 6;
    for _ in 0..n {
        step_once(&mut dbg, &mut chip, 0);
    }
    assert!(
        !Chip8::compare(&before, &chip).is_empty(),
        "the steps must actually change the machine"
    );
    for _ in 0..n {
        undo_once(&mut dbg, &mut chip, 0);
    }
    assert!(
        Chip8::compare(&before, &chip).is_empty(),
        "undoing every step must restore the exact pre-step state"
    );
    assert_eq!(chip.pc(), before.pc());
    assert_eq!(chip.stack_depth(), before.stack_depth());
}

#[test]
fn undo_on_empty_history_is_a_noop() {
    let mut chip = Chip8::new();
    chip.load(&program()).unwrap();
    let mut dbg = Debugger::new();
    let before = chip.clone();
    undo_once(&mut dbg, &mut chip, 0);
    assert!(Chip8::compare(&before, &chip).is_empty());
}

#[test]
fn step_reports_the_changed_fields() {
    let mut chip = Chip8::new();
    chip.load(&program()).unwrap();
    let mut dbg = Debugger::new();
    dbg.key_down_event(DebugKey::Step);
    let r = update(&mut dbg, &mut chip, 0);
    let diff = r.diff.expect("step must report a diff");
    // The first unit executes LD V0, 0 at 0x200: with V0 already 0,
    // only the program counter and the instruction deadline change.
    assert!(diff
        .iter()
        .any(|d| matches!(d, chip8_vm::chip8::DiffEntry::ProgramCounter { from: 0x200, to: 0x202 })));
}

#[test]
fn terminate_is_reported_and_nothing_runs() {
    let mut chip = Chip8::new();
    chip.load(&program()).unwrap();
    let mut dbg = Debugger::new();
    let before = chip.clone();
    dbg.key_down_event(DebugKey::Terminate);
    let r = update(&mut dbg, &mut chip, 1_000_000);
    assert!(r.terminate);
    assert!(Chip8::compare(&before, &chip).is_empty());
}

#[test]
fn speed_keys_adjust_the_multiplier() {
    let mut chip = Chip8::new();
    chip.load(&program()).unwrap();
    let mut dbg = Debugger::new();
    dbg.key_down_event(DebugKey::Faster);
    update(&mut dbg, &mut chip, 0);
    assert_eq!(chip.speed_tenths(), 11);
    dbg.key_up_event(DebugKey::Faster);
    dbg.key_down_event(DebugKey::Slower);
    update(&mut dbg, &mut chip, 0);
    assert_eq!(chip.speed_tenths(), 10);
    dbg.key_up_event(DebugKey::Slower);
    dbg.key_down_event(DebugKey::Faster);
    update(&mut dbg, &mut chip, 0);
    dbg.key_up_event(DebugKey::Faster);
    dbg.key_down_event(DebugKey::Normal);
    update(&mut dbg, &mut chip, 0);
    assert_eq!(chip.speed_tenths(), 10);
}

#[test]
fn toggling_play_runs_and_resets_deadlines() {
    let mut chip = Chip8::new();
    chip.load(&program()).unwrap();
    let mut dbg = Debugger::new();
    // Enter play at a late clock: the deadlines move to now, so the
    // first playing frame owes nothing.
    dbg.key_down_event(DebugKey::TogglePlay);
    let r = update(&mut dbg, &mut chip, 5_000_000);
    dbg.key_up_event(DebugKey::TogglePlay);
    assert_eq!(r.instructions, 0, "resuming must not replay the pause");
    assert_eq!(chip.next_tick_us(), 5_000_000);
    assert_eq!(chip.next_timers_tick_us(), 5_000_000);
    // A later frame catches up to the clock.
    let r2 = update(&mut dbg, &mut chip, 5_100_000);
    assert!(r2.instructions > 0);
}

#[test]
fn consume_key_fires_once_per_press() {
    let mut dbg = Debugger::new();
    dbg.key_down_event(DebugKey::Faster);
    assert!(dbg.is_key_down(DebugKey::Faster));
    assert!(dbg.consume_key(DebugKey::Faster));
    assert!(!dbg.consume_key(DebugKey::Faster), "an edge fires only once");
    assert!(dbg.is_key_down(DebugKey::Faster), "the key is still held");
    dbg.key_up_event(DebugKey::Faster);
    assert!(!dbg.is_key_down(DebugKey::Faster));
}

#[test]
fn held_rewind_pops_each_frame() {
    let mut chip = Chip8::new();
    chip.load(&program()).unwrap();
    let mut dbg = Debugger::new();
    let s0 = chip.clone();
    step_once(&mut dbg, &mut chip, 0);
    let s1 = chip.clone();
    step_once(&mut dbg, &mut chip, 0);
    // Hold the rewind key: each frame pops one snapshot.
    dbg.key_down_event(DebugKey::PlayBackward);
    // The held key also leaves a pending edge for the undo command on
    // a different key, so only the hold applies here.
    update(&mut dbg, &mut chip, 0);
    assert!(Chip8::compare(&s1, &chip).is_empty());
    update(&mut dbg, &mut chip, 0);
    assert!(Chip8::compare(&s0, &chip).is_empty());
}

#[test]
fn quad_indices_tile_the_pattern() {
    let idx = quad_indices(2);
    assert_eq!(idx, vec![0, 1, 2, 0, 2, 3, 4, 5, 6, 4, 6, 7]);
    assert_eq!(quad_indices(0), Vec::<u16>::new());
}
