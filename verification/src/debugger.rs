//! The time-travel debugger: snapshot capture, undo, play/pause and
//! speed control around the machine.
//!
//! The host maps its physical keys to [`DebugKey`] commands and feeds
//! edges through `key_down_event` / `key_up_event`; once per frame it
//! calls [`update`], which consumes the pending commands, advances or
//! rewinds the machine, and reports what the host should do: stop the
//! process, print a diff, start or stop sound.

use vstd::prelude::*;

use crate::chip8::{
    spec_catch_up, spec_compare, spec_reset_deadlines, spec_speed_down, spec_speed_reset,
    spec_speed_up, spec_step_debug, Chip8, Chip8View, DiffEntry, SoundEvent, VmError,
};

verus! {

/// One debugger command, as the host's key map names them.
#[derive(Clone, Copy, Debug, PartialEq, Eq, Structural)]
pub enum DebugKey {
    /// Toggle between playing and paused.
    TogglePlay,
    /// Held: rewind one snapshot per frame.
    PlayBackward,
    /// Execute exactly one scheduling unit.
    Step,
    /// Pop the latest snapshot and restore it.
    Undo,
    /// Raise the speed multiplier.
    Faster,
    /// Lower the speed multiplier.
    Slower,
    /// Reset the speed multiplier.
    Normal,
    /// End the process.
    Terminate,
}

/// The position of each command in the debugger's key-state vectors.
pub open spec fn spec_key_index(k: DebugKey) -> int {
    match k {
        DebugKey::TogglePlay => 0,
        DebugKey::PlayBackward => 1,
        DebugKey::Step => 2,
        DebugKey::Undo => 3,
        DebugKey::Faster => 4,
        DebugKey::Slower => 5,
        DebugKey::Normal => 6,
        DebugKey::Terminate => 7,
    }
}

fn key_index(k: DebugKey) -> (i: usize)
    ensures
        i as int == spec_key_index(k),
        i < 8,
{
    match k {
        DebugKey::TogglePlay => 0,
        DebugKey::PlayBackward => 1,
        DebugKey::Step => 2,
        DebugKey::Undo => 3,
        DebugKey::Faster => 4,
        DebugKey::Slower => 5,
        DebugKey::Normal => 6,
        DebugKey::Terminate => 7,
    }
}

/// The mathematical model of the debugger.
#[verifier::ext_equal]
pub ghost struct DebuggerView {
    pub is_enabled: bool,
    pub is_playing: bool,
    pub keyboard: Seq<bool>,
    pub consumable_keys: Seq<bool>,
    pub states: Seq<Chip8View>,
}

impl DebuggerView {
    /// Shape invariants: one flag per command, and every snapshot a
    /// well-formed machine.
    pub open spec fn wf(self) -> bool {
        &&& self.keyboard.len() == 8
        &&& self.consumable_keys.len() == 8
        &&& forall|k: int| 0 <= k < self.states.len() ==> (#[trigger] self.states[k]).wf()
    }
}

/// The debugger as it starts: enabled, paused, no keys pending, no
/// history.
pub open spec fn spec_debugger_initial() -> DebuggerView {
    DebuggerView {
        is_enabled: true,
        is_playing: false,
        keyboard: Seq::new(8, |j: int| false),
        consumable_keys: Seq::new(8, |j: int| false),
        states: Seq::empty(),
    }
}

/// The debugger: wraps a [`Chip8`] with an undo history and pending
/// key state. `is_enabled` is public as the host flips it to bypass
/// the debugger entirely.
pub struct Debugger {
    /// When false, `update` only runs the machine at full speed.
    pub is_enabled: bool,
    is_playing: bool,
    keyboard: Vec<bool>,
    consumable_keys: Vec<bool>,
    states: Vec<Chip8>,
}

impl View for Debugger {
    type V = DebuggerView;

    closed spec fn view(&self) -> DebuggerView {
        DebuggerView {
            is_enabled: self.is_enabled,
            is_playing: self.is_playing,
            keyboard: self.keyboard@,
            consumable_keys: self.consumable_keys@,
            states: self.states@.map_values(|c: Chip8| c@),
        }
    }
}

impl Debugger {
    /// A fresh debugger.
    pub fn new() -> (d: Debugger)
        ensures
            d@ == spec_debugger_initial(),
            d@.wf(),
    {
        let mut keyboard: Vec<bool> = Vec::new();
        let mut consumable_keys: Vec<bool> = Vec::new();
        let mut j: usize = 0;
        while j < 8
            invariant
                j <= 8,
                keyboard@.len() == j,
                consumable_keys@.len() == j,
                forall|k: int| 0 <= k < j ==> keyboard@[k] == false,
                forall|k: int| 0 <= k < j ==> consumable_keys@[k] == false,
            decreases 8 - j,
        {
            keyboard.push(false);
            consumable_keys.push(false);
            j += 1;
        }
        let d = Debugger {
            is_enabled: true,
            is_playing: false,
            keyboard,
            consumable_keys,
            states: Vec::new(),
        };
        proof {
            assert(d@.keyboard =~= spec_debugger_initial().keyboard);
            assert(d@.consumable_keys =~= spec_debugger_initial().consumable_keys);
            assert(d@.states =~= spec_debugger_initial().states);
            assert(d@ =~= spec_debugger_initial());
        }
        d
    }

    /// Record that the host saw the command's key go down: the key is
    /// now held and has one pending edge.
    pub fn key_down_event(&mut self, k: DebugKey)
        requires
            old(self)@.wf(),
        ensures
            final(self)@ == (DebuggerView {
                keyboard: old(self)@.keyboard.update(spec_key_index(k), true),
                consumable_keys: old(self)@.consumable_keys.update(spec_key_index(k), true),
                ..old(self)@
            }),
            final(self)@.wf(),
    {
        let i = key_index(k);
        self.keyboard[i] = true;
        self.consumable_keys[i] = true;
    }

    /// Record that the host saw the command's key go up.
    pub fn key_up_event(&mut self, k: DebugKey)
        requires
            old(self)@.wf(),
        ensures
            final(self)@ == (DebuggerView {
                keyboard: old(self)@.keyboard.update(spec_key_index(k), false),
                consumable_keys: old(self)@.consumable_keys.update(spec_key_index(k), false),
                ..old(self)@
            }),
            final(self)@.wf(),
    {
        let i = key_index(k);
        self.keyboard[i] = false;
        self.consumable_keys[i] = false;
    }

    /// Whether the command's key is currently held.
    pub fn is_key_down(&self, k: DebugKey) -> (r: bool)
        requires
            self@.wf(),
        ensures
            r == self@.keyboard[spec_key_index(k)],
    {
        self.keyboard[key_index(k)]
    }

    /// Take the command's pending edge, clearing it: true at most
    /// once per key press.
    pub fn consume_key(&mut self, k: DebugKey) -> (r: bool)
        requires
            old(self)@.wf(),
        ensures
            r == old(self)@.consumable_keys[spec_key_index(k)],
            final(self)@ == (DebuggerView {
                consumable_keys: old(self)@.consumable_keys.update(spec_key_index(k), false),
                ..old(self)@
            }),
            final(self)@.wf(),
    {
        let i = key_index(k);
        let r = self.consumable_keys[i];
        self.consumable_keys[i] = false;
        r
    }
}

/// What the host must do after a frame: end the process, print a
/// step diff, forward a sound edge, report a fatal error. The
/// `instructions` field counts the instructions a catch-up run
/// executed this frame.
pub struct FrameReport {
    pub terminate: bool,
    pub diff: Option<Vec<DiffEntry>>,
    pub sound: Option<SoundEvent>,
    pub error: Option<VmError>,
    pub instructions: u64,
}

/// The mathematical model of a frame report.
#[verifier::ext_equal]
pub ghost struct FrameReportView {
    pub terminate: bool,
    pub diff: Option<Seq<DiffEntry>>,
    pub sound: Option<SoundEvent>,
    pub error: Option<VmError>,
    pub instructions: u64,
}

impl View for FrameReport {
    type V = FrameReportView;

    open spec fn view(&self) -> FrameReportView {
        FrameReportView {
            terminate: self.terminate,
            diff: match self.diff {
                Some(d) => Some(d@),
                None => None,
            },
            sound: self.sound,
            error: self.error,
            instructions: self.instructions,
        }
    }
}

/// A report that asks the host for nothing.
pub open spec fn spec_quiet_report() -> FrameReportView {
    FrameReportView { terminate: false, diff: None, sound: None, error: None, instructions: 0 }
}

/// Taking a command's pending edge: the cleared debugger and whether
/// the edge was set.
pub open spec fn spec_consume(d: DebuggerView, k: DebugKey) -> (DebuggerView, bool) {
    (
        DebuggerView {
            consumable_keys: d.consumable_keys.update(spec_key_index(k), false),
            ..d
        },
        d.consumable_keys[spec_key_index(k)],
    )
}

/// One undo: pop the most recent snapshot, if any, and replace the
/// machine with it wholesale. With an empty history this is a no-op.
pub open spec fn spec_undo_pop(d: DebuggerView, m: Chip8View) -> (DebuggerView, Chip8View) {
    if d.states.len() > 0 {
        (DebuggerView { states: d.states.drop_last(), ..d }, d.states.last())
    } else {
        (d, m)
    }
}

/// The rewind phase of a paused frame: one undo while the rewind key
/// is held, then one more if an undo edge is pending.
pub open spec fn spec_backward_and_undo(d: DebuggerView, m: Chip8View) -> (
    DebuggerView,
    Chip8View,
) {
    let held = d.keyboard[spec_key_index(DebugKey::PlayBackward)];
    let (d1, m1) = if held {
        spec_undo_pop(d, m)
    } else {
        (d, m)
    };
    let (d2, undo) = spec_consume(d1, DebugKey::Undo);
    if undo {
        spec_undo_pop(d2, m1)
    } else {
        (d2, m1)
    }
}

/// One frame of the debugger, as a function of the pending commands,
/// the clock and the random bytes the machine may draw.
///
/// Disabled: the machine just catches up with the clock. Enabled: a
/// pending terminate ends the frame at once; speed commands adjust
/// the multiplier; a toggle flips play/pause and, on entering play,
/// moves both deadlines to `now` so resuming never replays the
/// pause. Playing pushes a snapshot and catches up; paused, a step
/// edge pushes a snapshot, runs one scheduling unit and reports the
/// diff, and the rewind keys pop snapshots back into the machine.
#[verifier::opaque]
pub open spec fn spec_update(d0: DebuggerView, m0: Chip8View, now: u64, rs: Seq<u8>) -> (
    DebuggerView,
    Chip8View,
    FrameReportView,
) {
    if !d0.is_enabled {
        let (mf, cnt, err) = spec_catch_up(m0, now, rs);
        (
            d0,
            mf,
            FrameReportView {
                error: err,
                instructions: if err is None {
                    cnt as u64
                } else {
                    0
                },
                ..spec_quiet_report()
            },
        )
    } else {
        let (d1, terminate) = spec_consume(d0, DebugKey::Terminate);
        if terminate {
            (d1, m0, FrameReportView { terminate: true, ..spec_quiet_report() })
        } else {
            let (d2, faster) = spec_consume(d1, DebugKey::Faster);
            let m1 = if faster {
                spec_speed_up(m0)
            } else {
                m0
            };
            let (d3, slower) = spec_consume(d2, DebugKey::Slower);
            let m2 = if slower {
                spec_speed_down(m1)
            } else {
                m1
            };
            let (d4, normal) = spec_consume(d3, DebugKey::Normal);
            let m3 = if normal {
                spec_speed_reset(m2)
            } else {
                m2
            };
            let (d5, toggled) = spec_consume(d4, DebugKey::TogglePlay);
            let d6 = if toggled {
                DebuggerView { is_playing: !d5.is_playing, ..d5 }
            } else {
                d5
            };
            let m4 = if toggled && d6.is_playing {
                spec_reset_deadlines(m3, now)
            } else {
                m3
            };
            if d6.is_playing {
                let d7 = DebuggerView { states: d6.states.push(m4), ..d6 };
                let (mf, cnt, err) = spec_catch_up(m4, now, rs);
                (
                    d7,
                    mf,
                    FrameReportView {
                        error: err,
                        instructions: if err is None {
                            cnt as u64
                        } else {
                            0
                        },
                        ..spec_quiet_report()
                    },
                )
            } else {
                let (d7, step) = spec_consume(d6, DebugKey::Step);
                if step {
                    let d8 = DebuggerView { states: d7.states.push(m4), ..d7 };
                    match spec_step_debug(m4, rs.first()) {
                        Ok((m5, ev)) => {
                            let (d9, m6) = spec_backward_and_undo(d8, m5);
                            (
                                d9,
                                m6,
                                FrameReportView {
                                    diff: Some(spec_compare(m4, m5)),
                                    sound: ev,
                                    ..spec_quiet_report()
                                },
                            )
                        },
                        Err(e) => (
                            d8,
                            m4,
                            FrameReportView { error: Some(e), ..spec_quiet_report() },
                        ),
                    }
                } else {
                    let (d8, m5) = spec_backward_and_undo(d7, m4);
                    (d8, m5, spec_quiet_report())
                }
            }
        }
    }
}

/// [`spec_undo_pop`] as executable code.
fn undo_pop_exec(debugger: &mut Debugger, chip: &mut Chip8)
    requires
        old(debugger)@.wf(),
        old(chip)@.wf(),
    ensures
        final(debugger)@.wf(),
        final(chip)@.wf(),
        (final(debugger)@, final(chip)@) == spec_undo_pop(old(debugger)@, old(chip)@),
{
    match debugger.states.pop() {
        Some(prev) => {
            proof {
                assert(debugger@.states =~= old(debugger)@.states.drop_last());
                assert(prev@ == old(debugger)@.states.last());
                assert(debugger@ =~= (DebuggerView {
                    states: old(debugger)@.states.drop_last(),
                    ..old(debugger)@
                }));
            }
            *chip = prev;
        },
        None => {
            proof {
                assert(debugger@.states =~= old(debugger)@.states);
                assert(debugger@ =~= old(debugger)@);
            }
        },
    }
}

/// The rewind phase; see [`spec_backward_and_undo`].
fn backward_and_undo_exec(debugger: &mut Debugger, chip: &mut Chip8)
    requires
        old(debugger)@.wf(),
        old(chip)@.wf(),
    ensures
        final(debugger)@.wf(),
        final(chip)@.wf(),
        (final(debugger)@, final(chip)@) == spec_backward_and_undo(old(debugger)@, old(chip)@),
{
    if debugger.is_key_down(DebugKey::PlayBackward) {
        undo_pop_exec(debugger, chip);
    }
    if debugger.consume_key(DebugKey::Undo) {
        undo_pop_exec(debugger, chip);
    }
}

/// One frame of the debugger; see [`spec_update`]. The host performs
/// what the report asks: exits on `terminate`, prints the diff,
/// forwards the sound edge, and surfaces the error.
pub fn update(debugger: &mut Debugger, chip: &mut Chip8, now_us: u64) -> (r: FrameReport)
    requires
        old(debugger)@.wf(),
        old(chip)@.wf(),
    ensures
        final(debugger)@.wf(),
        final(chip)@.wf(),
        exists|rs: Seq<u8>|
            #[trigger] spec_update(old(debugger)@, old(chip)@, now_us, rs) == (
                final(debugger)@,
                final(chip)@,
                r@,
            ),
{
    proof {
        reveal(spec_update);
    }
    if !debugger.is_enabled {
        let (error, instructions) = match chip.step_with_time(now_us) {
            Ok(count) => (None, count),
            Err(e) => (Some(e), 0),
        };
        let r = FrameReport { terminate: false, diff: None, sound: None, error, instructions };
        proof {
            if error is None {
                let rs = choose|rs: Seq<u8>|
                    spec_catch_up(old(chip)@, now_us, rs) == (
                        chip@,
                        instructions as nat,
                        None::<VmError>,
                    );
                assert(spec_update(old(debugger)@, old(chip)@, now_us, rs) == (
                    debugger@,
                    chip@,
                    r@,
                ));
            } else {
                let rs = choose|rs: Seq<u8>|
                    (#[trigger] spec_catch_up(old(chip)@, now_us, rs)).0 == chip@
                        && spec_catch_up(old(chip)@, now_us, rs).2 == error;
                assert(spec_update(old(debugger)@, old(chip)@, now_us, rs) == (
                    debugger@,
                    chip@,
                    r@,
                ));
            }
        }
        return r;
    }
    if debugger.consume_key(DebugKey::Terminate) {
        let r = FrameReport {
            terminate: true,
            diff: None,
            sound: None,
            error: None,
            instructions: 0,
        };
        proof {
            assert(spec_update(old(debugger)@, old(chip)@, now_us, Seq::<u8>::empty()) == (
                debugger@,
                chip@,
                r@,
            ));
        }
        return r;
    }
    if debugger.consume_key(DebugKey::Faster) {
        chip.speed_up();
    }
    if debugger.consume_key(DebugKey::Slower) {
        chip.speed_down();
    }
    if debugger.consume_key(DebugKey::Normal) {
        chip.speed_reset();
    }
    if debugger.consume_key(DebugKey::TogglePlay) {
        debugger.is_playing = !debugger.is_playing;
        if debugger.is_playing {
            // Fresh deadlines, so resuming does not replay the pause.
            chip.reset_deadlines(now_us);
        }
    }
    let ghost d6 = debugger@;
    let ghost m4 = chip@;
    if debugger.is_playing {
        debugger.states.push(chip.clone());
        proof {
            assert(debugger@.states =~= d6.states.push(m4));
            assert(debugger@ =~= (DebuggerView { states: d6.states.push(m4), ..d6 }));
        }
        let (error, instructions) = match chip.step_with_time(now_us) {
            Ok(count) => (None, count),
            Err(e) => (Some(e), 0),
        };
        let r = FrameReport { terminate: false, diff: None, sound: None, error, instructions };
        proof {
            if error is None {
                let rs = choose|rs: Seq<u8>|
                    spec_catch_up(m4, now_us, rs) == (chip@, instructions as nat, None::<VmError>);
                assert(spec_update(old(debugger)@, old(chip)@, now_us, rs) == (
                    debugger@,
                    chip@,
                    r@,
                ));
            } else {
                let rs = choose|rs: Seq<u8>|
                    (#[trigger] spec_catch_up(m4, now_us, rs)).0 == chip@ && spec_catch_up(
                        m4,
                        now_us,
                        rs,
                    ).2 == error;
                assert(spec_update(old(debugger)@, old(chip)@, now_us, rs) == (
                    debugger@,
                    chip@,
                    r@,
                ));
            }
        }
        return r;
    }
    if debugger.consume_key(DebugKey::Step) {
        debugger.states.push(chip.clone());
        proof {
            assert(debugger@.states =~= d6.states.push(m4));
            assert(debugger@ =~= (DebuggerView {
                states: d6.states.push(m4),
                ..DebuggerView {
                    consumable_keys: d6.consumable_keys.update(
                        spec_key_index(DebugKey::Step),
                        false,
                    ),
                    ..d6
                }
            }));
        }
        let sound = match chip.step_debug() {
            Err(e) => {
                let r = FrameReport {
                    terminate: false,
                    diff: None,
                    sound: None,
                    error: Some(e),
                    instructions: 0,
                };
                proof {
                    let rnd = choose|rnd: u8|
                        spec_step_debug(m4, rnd) == Err::<
                            (Chip8View, Option<SoundEvent>),
                            VmError,
                        >(e);
                    let rs = seq![rnd];
                    assert(rs.first() == rnd);
                    assert(spec_update(old(debugger)@, old(chip)@, now_us, rs) == (
                        debugger@,
                        chip@,
                        r@,
                    ));
                }
                return r;
            },
            Ok(ev) => ev,
        };
        let ghost m5 = chip@;
        let ghost rnd = choose|rnd: u8|
            spec_step_debug(m4, rnd) == Ok::<(Chip8View, Option<SoundEvent>), VmError>(
                (m5, sound),
            );
        let last = debugger.states.len() - 1;
        let diff = Chip8::compare(&debugger.states[last], chip);
        proof {
            assert(debugger@.states.last() == m4);
            assert(diff@ == spec_compare(m4, m5));
        }
        backward_and_undo_exec(debugger, chip);
        let r = FrameReport {
            terminate: false,
            diff: Some(diff),
            sound,
            error: None,
            instructions: 0,
        };
        proof {
            let rs = seq![rnd];
            assert(rs.first() == rnd);
            assert(spec_update(old(debugger)@, old(chip)@, now_us, rs) == (
                debugger@,
                chip@,
                r@,
            ));
        }
        return r;
    }
    backward_and_undo_exec(debugger, chip);
    let r = FrameReport { terminate: false, diff: None, sound: None, error: None, instructions: 0 };
    proof {
        assert(spec_update(old(debugger)@, old(chip)@, now_us, Seq::<u8>::empty()) == (
            debugger@,
            chip@,
            r@,
        ));
    }
    r
}

} // verus!
