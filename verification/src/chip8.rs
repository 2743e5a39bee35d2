//! The CHIP-8 machine: memory, registers, timers, display and the
//! fetch-decode-execute step.
//!
//! All state lives in plain values so that every transition is a pure
//! function of the machine and its inputs. Wall-clock scheduling is
//! driven by an injected microsecond timestamp; the only outside input
//! is the random byte drawn for the `RndVxNn` instruction.

use vstd::arithmetic::div_mod::{
    lemma_fundamental_div_mod, lemma_fundamental_div_mod_converse, lemma_mod_bound,
};
use vstd::prelude::*;

use crate::opcode::{spec_decode, OpCode};

verus! {

/// The instruction-set variant the machine runs. Only the classic
/// CHIP-8 behaviour is implemented; the enum records the choice so
/// that snapshots and diffs carry it.
#[derive(Clone, Copy, Debug, PartialEq, Eq, Structural)]
pub enum Modes {
    Chip8,
}

/// A fatal condition met while executing one instruction. `addr` is
/// the address the offending instruction was fetched from, except for
/// `ProgramCounterOutOfRange`, where it is the bad program counter
/// itself. The machine is left unchanged when one of these is
/// returned.
#[derive(Clone, Copy, Debug, PartialEq, Eq, Structural)]
pub enum VmError {
    /// The fetched word matches no known encoding.
    UnknownOpcode { opcode: u16, addr: usize },
    /// A return was executed with an empty call stack.
    StackUnderflow { addr: usize },
    /// A memory-block instruction would touch bytes beyond 4096.
    MemoryOutOfRange { addr: usize },
    /// The program counter does not leave room to fetch a word.
    ProgramCounterOutOfRange { addr: usize },
    /// A key-conditional instruction named a key index of 16 or more.
    KeyOutOfRange { key: u8, addr: usize },
}

/// A program image does not fit between 0x200 and the end of memory.
#[derive(Clone, Copy, Debug, PartialEq, Eq, Structural)]
pub enum LoadError {
    TooLarge,
}

/// An edge-triggered request to the host's audio collaborator.
#[derive(Clone, Copy, Debug, PartialEq, Eq, Structural)]
pub enum SoundEvent {
    Start,
    Stop,
}

/// The mathematical model of the machine: every field of [`Chip8`] as
/// a sequence or scalar.
#[verifier::ext_equal]
pub ghost struct Chip8View {
    pub memory: Seq<u8>,
    pub display: Seq<u8>,
    pub v: Seq<u8>,
    pub pc: usize,
    pub st: u8,
    pub dt: u8,
    pub i: u16,
    pub stack: Seq<usize>,
    pub mode: Modes,
    pub keys: Seq<bool>,
    pub speed_tenths: u32,
    pub next_tick_us: u64,
    pub next_timers_tick_us: u64,
    pub sound_playing: bool,
}

impl Chip8View {
    /// Shape invariants: fixed sizes, display cells only 0 or 0xFF,
    /// a positive speed, and return addresses inside memory.
    pub open spec fn wf(self) -> bool {
        &&& self.memory.len() == 4096
        &&& self.display.len() == 2048
        &&& self.v.len() == 16
        &&& self.keys.len() == 16
        &&& forall|j: int| 0 <= j < 2048 ==> self.display[j] == 0 || self.display[j] == 0xFF
        &&& self.speed_tenths >= 1
        &&& forall|k: int| 0 <= k < self.stack.len() ==> self.stack[k] <= 4096
    }
}

/// The machine state as it first boots: zeroed memory and display,
/// the program counter at 0x200, unit speed, both deadlines at zero.
pub open spec fn spec_initial() -> Chip8View {
    Chip8View {
        memory: Seq::new(4096, |j: int| 0u8),
        display: Seq::new(2048, |j: int| 0u8),
        v: Seq::new(16, |j: int| 0u8),
        pc: 0x200,
        st: 0,
        dt: 0,
        i: 0,
        stack: Seq::empty(),
        mode: Modes::Chip8,
        keys: Seq::new(16, |j: int| false),
        speed_tenths: 10,
        next_tick_us: 0,
        next_timers_tick_us: 0,
        sound_playing: false,
    }
}

/// The built-in font: sixteen hexadecimal glyphs of five bytes each,
/// installed at the bottom of memory.
pub open spec fn font_table() -> Seq<u8> {
    seq![
        0xF0u8, 0x90, 0x90, 0x90, 0xF0, // 0
        0x20, 0x60, 0x20, 0x20, 0x70, // 1
        0xF0, 0x10, 0xF0, 0x80, 0xF0, // 2
        0xF0, 0x10, 0xF0, 0x10, 0xF0, // 3
        0x90, 0x90, 0xF0, 0x10, 0x10, // 4
        0xF0, 0x80, 0xF0, 0x10, 0xF0, // 5
        0xF0, 0x80, 0xF0, 0x90, 0xF0, // 6
        0xF0, 0x10, 0x20, 0x40, 0x40, // 7
        0xF0, 0x90, 0xF0, 0x90, 0xF0, // 8
        0xF0, 0x90, 0xF0, 0x10, 0xF0, // 9
        0xF0, 0x90, 0xF0, 0x90, 0x90, // A
        0xE0, 0x90, 0xE0, 0x90, 0xE0, // B
        0xF0, 0x80, 0x80, 0x80, 0xF0, // C
        0xE0, 0x90, 0x90, 0x90, 0xE0, // D
        0xF0, 0x80, 0xF0, 0x80, 0xF0, // E
        0xF0, 0x80, 0xF0, 0x80, 0x80, // F
    ]
}

/// Memory as `load` leaves it: the font at the bottom, the image at
/// 0x200, zeroes everywhere else.
pub open spec fn spec_loaded_memory(image: Seq<u8>) -> Seq<u8> {
    Seq::new(
        4096,
        |j: int|
            if 0 <= j < 80 {
                font_table()[j]
            } else if 0x200 <= j < 0x200 + image.len() {
                image[j - 0x200]
            } else {
                0u8
            },
    )
}

/// The font sequence as an executable vector.
fn font_vec() -> (f: Vec<u8>)
    ensures
        f@ == font_table(),
{
    let mut f: Vec<u8> = Vec::new();
    f.push(0xF0);
    f.push(0x90);
    f.push(0x90);
    f.push(0x90);
    f.push(0xF0);
    f.push(0x20);
    f.push(0x60);
    f.push(0x20);
    f.push(0x20);
    f.push(0x70);
    f.push(0xF0);
    f.push(0x10);
    f.push(0xF0);
    f.push(0x80);
    f.push(0xF0);
    f.push(0xF0);
    f.push(0x10);
    f.push(0xF0);
    f.push(0x10);
    f.push(0xF0);
    f.push(0x90);
    f.push(0x90);
    f.push(0xF0);
    f.push(0x10);
    f.push(0x10);
    f.push(0xF0);
    f.push(0x80);
    f.push(0xF0);
    f.push(0x10);
    f.push(0xF0);
    f.push(0xF0);
    f.push(0x80);
    f.push(0xF0);
    f.push(0x90);
    f.push(0xF0);
    f.push(0xF0);
    f.push(0x10);
    f.push(0x20);
    f.push(0x40);
    f.push(0x40);
    f.push(0xF0);
    f.push(0x90);
    f.push(0xF0);
    f.push(0x90);
    f.push(0xF0);
    f.push(0xF0);
    f.push(0x90);
    f.push(0xF0);
    f.push(0x10);
    f.push(0xF0);
    f.push(0xF0);
    f.push(0x90);
    f.push(0xF0);
    f.push(0x90);
    f.push(0x90);
    f.push(0xE0);
    f.push(0x90);
    f.push(0xE0);
    f.push(0x90);
    f.push(0xE0);
    f.push(0xF0);
    f.push(0x80);
    f.push(0x80);
    f.push(0x80);
    f.push(0xF0);
    f.push(0xE0);
    f.push(0x90);
    f.push(0x90);
    f.push(0x90);
    f.push(0xE0);
    f.push(0xF0);
    f.push(0x80);
    f.push(0xF0);
    f.push(0x80);
    f.push(0xF0);
    f.push(0xF0);
    f.push(0x80);
    f.push(0xF0);
    f.push(0x80);
    f.push(0x80);
    proof {
        assert(f@ =~= font_table());
    }
    f
}

/// A vector of `n` zero bytes.
fn zero_bytes(n: usize) -> (v: Vec<u8>)
    ensures
        v@ == Seq::new(n as nat, |j: int| 0u8),
{
    let mut v: Vec<u8> = Vec::new();
    let mut j: usize = 0;
    while j < n
        invariant
            j <= n,
            v@.len() == j,
            forall|k: int| 0 <= k < j ==> v@[k] == 0u8,
        decreases n - j,
    {
        v.push(0);
        j += 1;
    }
    proof {
        assert(v@ =~= Seq::new(n as nat, |j: int| 0u8));
    }
    v
}

/// The machine with its speed multiplier a tenth higher, saturating.
pub open spec fn spec_speed_up(m: Chip8View) -> Chip8View {
    Chip8View {
        speed_tenths: if m.speed_tenths < u32::MAX {
            (m.speed_tenths + 1) as u32
        } else {
            m.speed_tenths
        },
        ..m
    }
}

/// The machine with its speed multiplier a tenth lower, clamped to
/// stay positive.
pub open spec fn spec_speed_down(m: Chip8View) -> Chip8View {
    Chip8View {
        speed_tenths: if m.speed_tenths > 1 {
            (m.speed_tenths - 1) as u32
        } else {
            m.speed_tenths
        },
        ..m
    }
}

/// The machine with its speed multiplier back at 1.0.
pub open spec fn spec_speed_reset(m: Chip8View) -> Chip8View {
    Chip8View { speed_tenths: 10u32, ..m }
}

/// The machine with both scheduling deadlines moved to `now`.
pub open spec fn spec_reset_deadlines(m: Chip8View, now: u64) -> Chip8View {
    Chip8View { next_tick_us: now, next_timers_tick_us: now, ..m }
}

/// The CHIP-8 machine. The display and the key state are public, as
/// the host's renderer reads the former and its input layer writes
/// the latter; everything else changes only through the step methods.
pub struct Chip8 {
    memory: Vec<u8>,
    /// The 64x32 frame buffer, row-major; cells are 0 or 0xFF.
    pub display: Vec<u8>,
    v: Vec<u8>,
    pc: usize,
    st: u8,
    dt: u8,
    i: u16,
    stack: Vec<usize>,
    mode: Modes,
    /// One flag per hexadecimal key, written by the host input layer.
    pub keys: Vec<bool>,
    speed_tenths: u32,
    next_tick_us: u64,
    next_timers_tick_us: u64,
    sound_playing: bool,
}

impl View for Chip8 {
    type V = Chip8View;

    closed spec fn view(&self) -> Chip8View {
        Chip8View {
            memory: self.memory@,
            display: self.display@,
            v: self.v@,
            pc: self.pc,
            st: self.st,
            dt: self.dt,
            i: self.i,
            stack: self.stack@,
            mode: self.mode,
            keys: self.keys@,
            speed_tenths: self.speed_tenths,
            next_tick_us: self.next_tick_us,
            next_timers_tick_us: self.next_timers_tick_us,
            sound_playing: self.sound_playing,
        }
    }
}

impl Chip8 {
    /// A freshly booted machine.
    pub fn new() -> (c: Chip8)
        ensures
            c@ == spec_initial(),
            c@.wf(),
    {
        let mut keys: Vec<bool> = Vec::new();
        let mut j: usize = 0;
        while j < 16
            invariant
                j <= 16,
                keys@.len() == j,
                forall|k: int| 0 <= k < j ==> keys@[k] == false,
            decreases 16 - j,
        {
            keys.push(false);
            j += 1;
        }
        let c = Chip8 {
            memory: zero_bytes(4096),
            display: zero_bytes(2048),
            v: zero_bytes(16),
            pc: 0x200,
            st: 0,
            dt: 0,
            i: 0,
            stack: Vec::new(),
            mode: Modes::Chip8,
            keys,
            speed_tenths: 10,
            next_tick_us: 0,
            next_timers_tick_us: 0,
            sound_playing: false,
        };
        proof {
            assert(c@.keys =~= spec_initial().keys);
            assert(c@.stack =~= spec_initial().stack);
            assert(c@ =~= spec_initial());
        }
        c
    }

    /// Install the font and copy a program image to 0x200, zeroing
    /// the rest of memory first. Registers, timers and display are
    /// untouched. An image longer than the 3584 bytes of program
    /// space is refused and the machine is left unchanged.
    pub fn load(&mut self, image: &Vec<u8>) -> (r: Result<(), LoadError>)
        requires
            old(self)@.wf(),
        ensures
            final(self)@.wf(),
            r is Ok <==> image@.len() <= 3584,
            r is Err ==> final(self)@ == old(self)@,
            r is Ok ==> final(self)@ == (Chip8View {
                memory: spec_loaded_memory(image@),
                ..old(self)@
            }),
    {
        if image.len() > 3584 {
            return Err(LoadError::TooLarge);
        }
        let font = font_vec();
        let mut j: usize = 0;
        while j < 4096
            invariant
                j <= 4096,
                self.memory@.len() == 4096,
                forall|k: int| 0 <= k < j ==> self.memory@[k] == 0u8,
                self@ == (Chip8View { memory: self.memory@, ..old(self)@ }),
            decreases 4096 - j,
        {
            self.memory[j] = 0;
            j += 1;
        }
        j = 0;
        while j < 80
            invariant
                j <= 80,
                font@ == font_table(),
                self.memory@.len() == 4096,
                forall|k: int| 0 <= k < j ==> self.memory@[k] == font_table()[k],
                forall|k: int| j <= k < 4096 ==> self.memory@[k] == 0u8,
                self@ == (Chip8View { memory: self.memory@, ..old(self)@ }),
            decreases 80 - j,
        {
            self.memory[j] = font[j];
            j += 1;
        }
        j = 0;
        while j < image.len()
            invariant
                j <= image@.len() <= 3584,
                self.memory@.len() == 4096,
                forall|k: int| 0 <= k < 80 ==> self.memory@[k] == font_table()[k],
                forall|k: int| 80 <= k < 0x200 ==> self.memory@[k] == 0u8,
                forall|k: int| 0x200 <= k < 0x200 + j ==> self.memory@[k] == image@[k - 0x200],
                forall|k: int| 0x200 + j <= k < 4096 ==> self.memory@[k] == 0u8,
                self@ == (Chip8View { memory: self.memory@, ..old(self)@ }),
            decreases image@.len() - j,
        {
            self.memory[0x200 + j] = image[j];
            j += 1;
        }
        proof {
            assert(self.memory@ =~= spec_loaded_memory(image@));
            assert(self@ =~= (Chip8View { memory: spec_loaded_memory(image@), ..old(self)@ }));
        }
        Ok(())
    }

    /// Raise the speed multiplier by a tenth, saturating.
    pub fn speed_up(&mut self)
        requires
            old(self)@.wf(),
        ensures
            final(self)@ == spec_speed_up(old(self)@),
            final(self)@.wf(),
    {
        if self.speed_tenths < u32::MAX {
            self.speed_tenths = self.speed_tenths + 1;
        }
    }

    /// Lower the speed multiplier by a tenth, clamped to stay
    /// positive.
    pub fn speed_down(&mut self)
        requires
            old(self)@.wf(),
        ensures
            final(self)@ == spec_speed_down(old(self)@),
            final(self)@.wf(),
    {
        if self.speed_tenths > 1 {
            self.speed_tenths = self.speed_tenths - 1;
        }
    }

    /// Reset the speed multiplier to 1.0.
    pub fn speed_reset(&mut self)
        requires
            old(self)@.wf(),
        ensures
            final(self)@ == spec_speed_reset(old(self)@),
            final(self)@.wf(),
    {
        self.speed_tenths = 10;
    }

    /// Move both scheduling deadlines to `now_us`, so that resuming
    /// play does not trigger a catch-up burst covering the pause.
    pub fn reset_deadlines(&mut self, now_us: u64)
        requires
            old(self)@.wf(),
        ensures
            final(self)@ == spec_reset_deadlines(old(self)@, now_us),
            final(self)@.wf(),
    {
        self.next_tick_us = now_us;
        self.next_timers_tick_us = now_us;
    }
}

/// Whether the sprite row byte `line` has its pixel `k` set, counting
/// from the most significant bit.
pub open spec fn sprite_pixel(line: u8, k: int) -> bool
    recommends
        0 <= k < 8,
{
    (0x80u8 >> (k as u8)) & line != 0
}

/// Whether drawing an `n`-row sprite from `mem[i..]` at origin
/// `(x, y)` toggles the display cell `loc`. Clipping at the right and
/// bottom edges is implicit in `loc`'s row and column ranges.
pub open spec fn draw_hits(mem: Seq<u8>, i: int, x: int, y: int, n: int, loc: int) -> bool
    recommends
        0 <= loc < 2048,
{
    let px = loc % 64;
    let py = loc / 64;
    &&& y <= py < y + n
    &&& x <= px < x + 8
    &&& sprite_pixel(mem[i + (py - y)], px - x)
}

/// The display after the XOR-blit of a sprite.
pub open spec fn spec_draw_display(d: Seq<u8>, mem: Seq<u8>, i: int, x: int, y: int, n: int) -> Seq<
    u8,
> {
    Seq::new(
        2048,
        |loc: int|
            if draw_hits(mem, i, x, y, n, loc) {
                d[loc] ^ 0xFF
            } else {
                d[loc]
            },
    )
}

/// Whether the blit turns any lit cell off, which sets VF.
pub open spec fn spec_draw_collision(d: Seq<u8>, mem: Seq<u8>, i: int, x: int, y: int, n: int) -> bool {
    exists|loc: int| 0 <= loc < 2048 && draw_hits(mem, i, x, y, n, loc) && d[loc] == 0xFF
}

/// `k` is the lowest-indexed pressed key.
pub open spec fn is_lowest_pressed(keys: Seq<bool>, k: int) -> bool {
    &&& 0 <= k < 16
    &&& keys[k]
    &&& forall|j: int| 0 <= j < k ==> !keys[j]
}

/// The lowest-indexed pressed key; meaningful only when some key is
/// pressed.
pub open spec fn lowest_pressed(keys: Seq<bool>) -> int {
    choose|k: int| is_lowest_pressed(keys, k)
}

/// What executing one decoded instruction does to the machine.
///
/// `m.pc` has already been advanced past the instruction, so `m.pc - 2`
/// is the address of the instruction itself; opcodes never see the
/// pre-increment value. `rnd` is the byte drawn for `RndVxNn` and is
/// ignored by every other variant. Fatal conditions leave the machine
/// unchanged and name the offending address.
#[verifier::opaque]
pub open spec fn spec_execute(m: Chip8View, op: OpCode, rnd: u8) -> Result<Chip8View, VmError>
    recommends
        m.wf(),
        op.wf(),
        2 <= m.pc <= 4096,
{
    let addr = (m.pc - 2) as usize;
    match op {
        OpCode::Unkn(w) => Err(VmError::UnknownOpcode { opcode: w, addr }),
        OpCode::Cls => Ok(Chip8View { display: Seq::new(2048, |j: int| 0u8), ..m }),
        OpCode::Ret => if m.stack.len() == 0 {
            Err(VmError::StackUnderflow { addr })
        } else {
            Ok(Chip8View { pc: m.stack.last(), stack: m.stack.drop_last(), ..m })
        },
        OpCode::Jmp(nnn) => Ok(Chip8View { pc: nnn as usize, ..m }),
        OpCode::Call(nnn) => Ok(
            Chip8View { stack: m.stack.push(m.pc), pc: nnn as usize, ..m },
        ),
        OpCode::SeVxNn(x, nn) => Ok(
            Chip8View {
                pc: if m.v[x as int] == nn {
                    (m.pc + 2) as usize
                } else {
                    m.pc
                },
                ..m
            },
        ),
        OpCode::SneVxNn(x, nn) => Ok(
            Chip8View {
                pc: if m.v[x as int] != nn {
                    (m.pc + 2) as usize
                } else {
                    m.pc
                },
                ..m
            },
        ),
        OpCode::SeVxVy(x, y) => Ok(
            Chip8View {
                pc: if m.v[x as int] == m.v[y as int] {
                    (m.pc + 2) as usize
                } else {
                    m.pc
                },
                ..m
            },
        ),
        OpCode::LdVxNn(x, nn) => Ok(Chip8View { v: m.v.update(x as int, nn), ..m }),
        OpCode::AddVxNn(x, nn) => Ok(
            Chip8View { v: m.v.update(x as int, ((m.v[x as int] + nn) % 256) as u8), ..m },
        ),
        OpCode::LdVxVy(x, y) => Ok(Chip8View { v: m.v.update(x as int, m.v[y as int]), ..m }),
        OpCode::OrVxVy(x, y) => Ok(
            Chip8View { v: m.v.update(x as int, m.v[x as int] | m.v[y as int]), ..m },
        ),
        OpCode::AndVxVy(x, y) => Ok(
            Chip8View { v: m.v.update(x as int, m.v[x as int] & m.v[y as int]), ..m },
        ),
        OpCode::XorVxVy(x, y) => Ok(
            Chip8View { v: m.v.update(x as int, m.v[x as int] ^ m.v[y as int]), ..m },
        ),
        OpCode::AddVxVy(x, y) => {
            let sum = m.v[x as int] + m.v[y as int];
            Ok(
                Chip8View {
                    v: m.v.update(x as int, (sum % 256) as u8).update(
                        15,
                        if sum > 255 {
                            1u8
                        } else {
                            0u8
                        },
                    ),
                    ..m
                },
            )
        },
        OpCode::SubVxVy(x, y) => {
            let a = m.v[x as int];
            let b = m.v[y as int];
            let difference = if a >= b {
                (a - b) as u8
            } else {
                (a + 256 - b) as u8
            };
            Ok(
                Chip8View {
                    v: m.v.update(x as int, difference).update(
                        15,
                        if a < b {
                            1u8
                        } else {
                            0u8
                        },
                    ),
                    ..m
                },
            )
        },
        OpCode::SubnVxVy(x, y) => {
            let a = m.v[y as int];
            let b = m.v[x as int];
            let difference = if a >= b {
                (a - b) as u8
            } else {
                (a + 256 - b) as u8
            };
            Ok(
                Chip8View {
                    v: m.v.update(x as int, difference).update(
                        15,
                        if a < b {
                            1u8
                        } else {
                            0u8
                        },
                    ),
                    ..m
                },
            )
        },
        OpCode::ShrVxVy(x, y) => {
            // Classic mode: VX takes VY before the shift.
            let v1 = m.v.update(x as int, m.v[y as int]);
            let v2 = v1.update(15, v1[x as int] & 1);
            let v3 = v2.update(x as int, v2[x as int] / 2);
            Ok(Chip8View { v: v3, ..m })
        },
        OpCode::ShlVxVy(x, y) => {
            let v1 = m.v.update(x as int, m.v[y as int]);
            let v2 = v1.update(15, v1[x as int] / 128);
            let v3 = v2.update(x as int, ((v2[x as int] * 2) % 256) as u8);
            Ok(Chip8View { v: v3, ..m })
        },
        OpCode::SneVxVy(x, y) => Ok(
            Chip8View {
                pc: if m.v[x as int] != m.v[y as int] {
                    (m.pc + 2) as usize
                } else {
                    m.pc
                },
                ..m
            },
        ),
        OpCode::LdINn(nnn) => Ok(Chip8View { i: nnn, ..m }),
        OpCode::JmpV0Nnn(nnn) => Ok(Chip8View { pc: (nnn + m.v[0]) as usize, ..m }),
        OpCode::RndVxNn(x, nn) => Ok(Chip8View { v: m.v.update(x as int, rnd & nn), ..m }),
        OpCode::DrawVxVyN(x, y, n) => spec_execute_draw(m, x, y, n),
        OpCode::SkpVx(x) => {
            let key = m.v[x as int];
            if key >= 16 {
                Err(VmError::KeyOutOfRange { key, addr })
            } else {
                Ok(
                    Chip8View {
                        pc: if m.keys[key as int] {
                            (m.pc + 2) as usize
                        } else {
                            m.pc
                        },
                        ..m
                    },
                )
            }
        },
        OpCode::SknpVx(x) => {
            let key = m.v[x as int];
            if key >= 16 {
                Err(VmError::KeyOutOfRange { key, addr })
            } else {
                Ok(
                    Chip8View {
                        pc: if !m.keys[key as int] {
                            (m.pc + 2) as usize
                        } else {
                            m.pc
                        },
                        ..m
                    },
                )
            }
        },
        OpCode::LdVxDt(x) => Ok(Chip8View { v: m.v.update(x as int, m.dt), ..m }),
        OpCode::LdVxK(x) => if exists|k: int| 0 <= k < 16 && m.keys[k] {
            Ok(Chip8View { v: m.v.update(x as int, lowest_pressed(m.keys) as u8), ..m })
        } else {
            // Poll again: step back to re-fetch this instruction.
            Ok(Chip8View { pc: (m.pc - 2) as usize, ..m })
        },
        OpCode::LdDtVx(x) => Ok(Chip8View { dt: m.v[x as int], ..m }),
        OpCode::LdStVx(x) => Ok(Chip8View { st: m.v[x as int], ..m }),
        OpCode::AddIVx(x) => Ok(
            Chip8View { i: ((m.i + m.v[x as int]) % 0x10000) as u16, ..m },
        ),
        OpCode::LdFVx(x) => Ok(Chip8View { i: (m.v[x as int] * 5) as u16, ..m }),
        OpCode::LdBVx(x) => if m.i as int + 3 > 4096 {
            Err(VmError::MemoryOutOfRange { addr })
        } else {
            let value = m.v[x as int];
            Ok(
                Chip8View {
                    memory: m.memory.update(m.i as int, (value / 100) as u8).update(
                        m.i as int + 1,
                        ((value / 10) % 10) as u8,
                    ).update(m.i as int + 2, (value % 10) as u8),
                    ..m
                },
            )
        },
        OpCode::LdIVx(x) => if m.i as int + x as int + 1 > 4096 {
            Err(VmError::MemoryOutOfRange { addr })
        } else {
            Ok(
                Chip8View {
                    memory: Seq::new(
                        4096,
                        |j: int|
                            if m.i as int <= j <= m.i as int + x as int {
                                m.v[j - m.i as int]
                            } else {
                                m.memory[j]
                            },
                    ),
                    ..m
                },
            )
        },
        OpCode::LdVxI(x) => if m.i as int + x as int + 1 > 4096 {
            Err(VmError::MemoryOutOfRange { addr })
        } else {
            Ok(
                Chip8View {
                    v: Seq::new(
                        16,
                        |k: int|
                            if 0 <= k <= x as int {
                                m.memory[m.i as int + k]
                            } else {
                                m.v[k]
                            },
                    ),
                    ..m
                },
            )
        },
    }
}

/// The draw instruction: XOR-blit an `n`-row, 8-wide sprite from
/// `mem[I..]` at `(VX mod 64, VY mod 32)`, clipping at the right and
/// bottom edges; VF reports whether any lit cell was turned off.
/// VF is cleared before the origin registers are read.
#[verifier::opaque]
pub open spec fn spec_execute_draw(m: Chip8View, vx: u8, vy: u8, n: u8) -> Result<
    Chip8View,
    VmError,
> {
    let v0 = m.v.update(15, 0u8);
    let x = v0[vx as int] as int % 64;
    let y = v0[vy as int] as int % 32;
    let rows = if n as int <= 32 - y {
        n as int
    } else {
        32 - y
    };
    if rows > 0 && m.i as int + rows > 4096 {
        Err(VmError::MemoryOutOfRange { addr: (m.pc - 2) as usize })
    } else {
        Ok(
            Chip8View {
                display: spec_draw_display(m.display, m.memory, m.i as int, x, y, n as int),
                v: v0.update(
                    15,
                    if spec_draw_collision(m.display, m.memory, m.i as int, x, y, n as int) {
                        1u8
                    } else {
                        0u8
                    },
                ),
                ..m
            },
        )
    }
}

impl Chip8 {
    /// Execute one already-fetched, already-decoded instruction.
    ///
    /// The program counter must already have been advanced past the
    /// instruction word. `rnd` supplies the random byte for
    /// `RndVxNn`; every other variant ignores it. A fatal condition
    /// is returned as an error and leaves the machine unchanged.
    pub fn execute(&mut self, op: OpCode, rnd: u8) -> (r: Result<(), VmError>)
        requires
            old(self)@.wf(),
            op.wf(),
            2 <= old(self)@.pc <= 4096,
        ensures
            final(self)@.wf(),
            (match r {
                Ok(()) => spec_execute(old(self)@, op, rnd) == Ok::<Chip8View, VmError>(
                    final(self)@,
                ),
                Err(e) => spec_execute(old(self)@, op, rnd) == Err::<Chip8View, VmError>(e)
                    && final(self)@ == old(self)@,
            }),
    {
        proof {
            reveal(spec_execute);
        }
        let addr = self.pc - 2;
        match op {
            OpCode::Unkn(w) => Err(VmError::UnknownOpcode { opcode: w, addr }),
            OpCode::Cls => {
                let mut j: usize = 0;
                while j < 2048
                    invariant
                        j <= 2048,
                        self@.display.len() == 2048,
                        forall|k: int| 0 <= k < j ==> self@.display[k] == 0u8,
                        self@ == (Chip8View { display: self@.display, ..old(self)@ }),
                    decreases 2048 - j,
                {
                    self.display[j] = 0;
                    j += 1;
                }
                proof {
                    assert(self@.display =~= Seq::new(2048, |j: int| 0u8));
                    assert(self@ =~= (Chip8View {
                        display: Seq::new(2048, |j: int| 0u8),
                        ..old(self)@
                    }));
                }
                Ok(())
            },
            OpCode::Ret => {
                match self.stack.pop() {
                    Some(target) => {
                        self.pc = target;
                        proof {
                            assert(self@ =~= (Chip8View {
                                pc: old(self)@.stack.last(),
                                stack: old(self)@.stack.drop_last(),
                                ..old(self)@
                            }));
                        }
                        Ok(())
                    },
                    None => Err(VmError::StackUnderflow { addr }),
                }
            },
            OpCode::Jmp(nnn) => {
                self.pc = nnn as usize;
                proof {
                    assert(self@ =~= (Chip8View { pc: nnn as usize, ..old(self)@ }));
                }
                Ok(())
            },
            OpCode::Call(nnn) => {
                self.stack.push(self.pc);
                self.pc = nnn as usize;
                proof {
                    assert(self@ =~= (Chip8View {
                        stack: old(self)@.stack.push(old(self)@.pc),
                        pc: nnn as usize,
                        ..old(self)@
                    }));
                }
                Ok(())
            },
            OpCode::SeVxNn(x, nn) => {
                if self.v[x as usize] == nn {
                    self.pc = self.pc + 2;
                }
                Ok(())
            },
            OpCode::SneVxNn(x, nn) => {
                if self.v[x as usize] != nn {
                    self.pc = self.pc + 2;
                }
                Ok(())
            },
            OpCode::SeVxVy(x, y) => {
                if self.v[x as usize] == self.v[y as usize] {
                    self.pc = self.pc + 2;
                }
                Ok(())
            },
            OpCode::LdVxNn(x, nn) => {
                self.v[x as usize] = nn;
                Ok(())
            },
            OpCode::AddVxNn(x, nn) => {
                let a = self.v[x as usize];
                self.v[x as usize] = ((a as u16 + nn as u16) % 256) as u8;
                Ok(())
            },
            OpCode::LdVxVy(x, y) => {
                self.v[x as usize] = self.v[y as usize];
                Ok(())
            },
            OpCode::OrVxVy(x, y) => {
                self.v[x as usize] = self.v[x as usize] | self.v[y as usize];
                Ok(())
            },
            OpCode::AndVxVy(x, y) => {
                self.v[x as usize] = self.v[x as usize] & self.v[y as usize];
                Ok(())
            },
            OpCode::XorVxVy(x, y) => {
                self.v[x as usize] = self.v[x as usize] ^ self.v[y as usize];
                Ok(())
            },
            OpCode::AddVxVy(x, y) => {
                let a = self.v[x as usize];
                let b = self.v[y as usize];
                let sum = a as u16 + b as u16;
                self.v[x as usize] = (sum % 256) as u8;
                self.v[15] = if sum > 255 {
                    1
                } else {
                    0
                };
                Ok(())
            },
            OpCode::SubVxVy(x, y) => {
                let a = self.v[x as usize];
                let b = self.v[y as usize];
                self.v[x as usize] = if a >= b {
                    a - b
                } else {
                    (a as u16 + 256 - b as u16) as u8
                };
                self.v[15] = if a < b {
                    1
                } else {
                    0
                };
                Ok(())
            },
            OpCode::SubnVxVy(x, y) => {
                let a = self.v[y as usize];
                let b = self.v[x as usize];
                self.v[x as usize] = if a >= b {
                    a - b
                } else {
                    (a as u16 + 256 - b as u16) as u8
                };
                self.v[15] = if a < b {
                    1
                } else {
                    0
                };
                Ok(())
            },
            OpCode::ShrVxVy(x, y) => {
                // Classic mode: VX takes VY before the shift.
                self.v[x as usize] = self.v[y as usize];
                let bit = self.v[x as usize] & 1;
                self.v[15] = bit;
                let cur = self.v[x as usize];
                self.v[x as usize] = cur / 2;
                Ok(())
            },
            OpCode::ShlVxVy(x, y) => {
                self.v[x as usize] = self.v[y as usize];
                let bit = self.v[x as usize] / 128;
                self.v[15] = bit;
                let cur = self.v[x as usize];
                self.v[x as usize] = ((cur as u16 * 2) % 256) as u8;
                Ok(())
            },
            OpCode::SneVxVy(x, y) => {
                if self.v[x as usize] != self.v[y as usize] {
                    self.pc = self.pc + 2;
                }
                Ok(())
            },
            OpCode::LdINn(nnn) => {
                self.i = nnn;
                Ok(())
            },
            OpCode::JmpV0Nnn(nnn) => {
                self.pc = nnn as usize + self.v[0] as usize;
                Ok(())
            },
            OpCode::RndVxNn(x, nn) => {
                self.v[x as usize] = rnd & nn;
                Ok(())
            },
            OpCode::DrawVxVyN(x, y, n) => self.exec_draw(x, y, n),
            OpCode::SkpVx(x) => {
                let key = self.v[x as usize];
                if key >= 16 {
                    return Err(VmError::KeyOutOfRange { key, addr });
                }
                if self.keys[key as usize] {
                    self.pc = self.pc + 2;
                }
                Ok(())
            },
            OpCode::SknpVx(x) => {
                let key = self.v[x as usize];
                if key >= 16 {
                    return Err(VmError::KeyOutOfRange { key, addr });
                }
                if !self.keys[key as usize] {
                    self.pc = self.pc + 2;
                }
                Ok(())
            },
            OpCode::LdVxDt(x) => {
                self.v[x as usize] = self.dt;
                Ok(())
            },
            OpCode::LdVxK(x) => {
                let mut k: usize = 0;
                let mut found: usize = 16;
                while k < 16
                    invariant
                        k <= 16,
                        self@ == old(self)@,
                        self@.keys.len() == 16,
                        found == 16 || (found < k && old(self)@.keys[found as int] && forall|
                            j: int,
                        |
                            0 <= j < found ==> !old(self)@.keys[j]),
                        found == 16 ==> forall|j: int| 0 <= j < k ==> !old(self)@.keys[j],
                    decreases 16 - k,
                {
                    if found == 16 && self.keys[k] {
                        found = k;
                    }
                    k += 1;
                }
                if found < 16 {
                    proof {
                        assert(is_lowest_pressed(old(self)@.keys, found as int));
                        assert(is_lowest_pressed(old(self)@.keys, lowest_pressed(old(self)@.keys)));
                    }
                    self.v[x as usize] = found as u8;
                } else {
                    proof {
                        assert(forall|j: int| 0 <= j < 16 ==> !old(self)@.keys[j]);
                    }
                    self.pc = self.pc - 2;
                }
                Ok(())
            },
            OpCode::LdDtVx(x) => {
                self.dt = self.v[x as usize];
                Ok(())
            },
            OpCode::LdStVx(x) => {
                self.st = self.v[x as usize];
                Ok(())
            },
            OpCode::AddIVx(x) => {
                let sum = self.i as u32 + self.v[x as usize] as u32;
                self.i = (sum % 0x10000) as u16;
                Ok(())
            },
            OpCode::LdFVx(x) => {
                self.i = self.v[x as usize] as u16 * 5;
                Ok(())
            },
            OpCode::LdBVx(x) => {
                if self.i as usize + 3 > 4096 {
                    return Err(VmError::MemoryOutOfRange { addr });
                }
                let base = self.i as usize;
                let value = self.v[x as usize];
                self.memory[base] = value / 100;
                self.memory[base + 1] = (value / 10) % 10;
                self.memory[base + 2] = value % 10;
                Ok(())
            },
            OpCode::LdIVx(x) => {
                let xi = x as usize;
                if self.i as usize + xi + 1 > 4096 {
                    return Err(VmError::MemoryOutOfRange { addr });
                }
                let base = self.i as usize;
                let mut dx: usize = 0;
                while dx < xi + 1
                    invariant
                        dx <= xi + 1,
                        xi < 16,
                        base == old(self)@.i,
                        base + xi + 1 <= 4096,
                        self@.memory.len() == 4096,
                        self@.v.len() == 16,
                        self@ == (Chip8View { memory: self@.memory, ..old(self)@ }),
                        forall|j: int|
                            0 <= j < 4096 && !(base <= j < base + dx) ==> self@.memory[j] == old(
                                self,
                            )@.memory[j],
                        forall|j: int|
                            base <= j < base + dx ==> self@.memory[j] == old(self)@.v[j - base],
                    decreases xi + 1 - dx,
                {
                    self.memory[base + dx] = self.v[dx];
                    dx += 1;
                }
                proof {
                    assert(self@.memory =~= Seq::new(
                        4096,
                        |j: int|
                            if old(self)@.i as int <= j <= old(self)@.i as int + x as int {
                                old(self)@.v[j - old(self)@.i as int]
                            } else {
                                old(self)@.memory[j]
                            },
                    ));
                }
                Ok(())
            },
            OpCode::LdVxI(x) => {
                let xi = x as usize;
                if self.i as usize + xi + 1 > 4096 {
                    return Err(VmError::MemoryOutOfRange { addr });
                }
                let base = self.i as usize;
                let mut dx: usize = 0;
                while dx < xi + 1
                    invariant
                        dx <= xi + 1,
                        xi < 16,
                        base == old(self)@.i,
                        base + xi + 1 <= 4096,
                        self@.v.len() == 16,
                        self@.memory.len() == 4096,
                        self@ == (Chip8View { v: self@.v, ..old(self)@ }),
                        forall|k: int| dx <= k < 16 ==> self@.v[k] == old(self)@.v[k],
                        forall|k: int| 0 <= k < dx ==> self@.v[k] == old(self)@.memory[base + k],
                    decreases xi + 1 - dx,
                {
                    self.v[dx] = self.memory[base + dx];
                    dx += 1;
                }
                proof {
                    assert(self@.v =~= Seq::new(
                        16,
                        |k: int|
                            if 0 <= k <= x as int {
                                old(self)@.memory[old(self)@.i as int + k]
                            } else {
                                old(self)@.v[k]
                            },
                    ));
                }
                Ok(())
            },
        }
    }
}

impl Chip8 {
    /// The XOR-blit behind the draw instruction; see
    /// [`spec_execute_draw`].
    fn exec_draw(&mut self, vx: u8, vy: u8, n: u8) -> (r: Result<(), VmError>)
        requires
            old(self)@.wf(),
            vx < 16,
            vy < 16,
            n < 16,
            2 <= old(self)@.pc <= 4096,
        ensures
            final(self)@.wf(),
            (match r {
                Ok(()) => spec_execute_draw(old(self)@, vx, vy, n) == Ok::<Chip8View, VmError>(
                    final(self)@,
                ),
                Err(e) => spec_execute_draw(old(self)@, vx, vy, n) == Err::<Chip8View, VmError>(e)
                    && final(self)@ == old(self)@,
            }),
    {
        broadcast use lemma_fundamental_div_mod, lemma_mod_bound;

        proof {
            reveal(spec_execute_draw);
        }
        let y_src = if vy == 15 {
            0
        } else {
            self.v[vy as usize]
        };
        let y = (y_src as usize) % 32;
        let rows = if (n as usize) <= 32 - y {
            n as usize
        } else {
            32 - y
        };
        if rows > 0 && self.i as usize + rows > 4096 {
            return Err(VmError::MemoryOutOfRange { addr: self.pc - 2 });
        }
        self.v[15] = 0;
        let x = (self.v[vx as usize] as usize) % 64;
        let ghost v0 = old(self)@.v.update(15, 0u8);
        let ghost d0 = old(self)@.display;
        let ghost memv = old(self)@.memory;
        let ghost ii = old(self)@.i as int;
        let ghost xi = x as int;
        let ghost yi = y as int;
        let ghost ni = n as int;
        proof {
            assert(self@.v == v0);
            assert(xi == v0[vx as int] as int % 64);
            assert(yi == v0[vy as int] as int % 32);
        }
        let base = self.i as usize;
        let mut collision = false;
        let mut dy: usize = 0;
        while dy < rows
            invariant
                dy <= rows,
                x < 64,
                y < 32,
                n < 16,
                xi == x as int,
                yi == y as int,
                ni == n as int,
                rows as int == (if ni <= 32 - yi {
                    ni
                } else {
                    32 - yi
                }),
                rows > 0 ==> base + rows <= 4096,
                base == ii,
                ii == old(self)@.i as int,
                d0 == old(self)@.display,
                memv == old(self)@.memory,
                d0.len() == 2048,
                memv.len() == 4096,
                forall|j: int| 0 <= j < 2048 ==> d0[j] == 0 || d0[j] == 0xFF,
                v0 == old(self)@.v.update(15, 0u8),
                self@.display.len() == 2048,
                self@ == (Chip8View { display: self@.display, v: v0, ..old(self)@ }),
                forall|loc: int|
                    0 <= loc < 2048 ==> #[trigger] self@.display[loc] == (if draw_hits(
                        memv,
                        ii,
                        xi,
                        yi,
                        ni,
                        loc,
                    ) && loc / 64 < yi + dy {
                        d0[loc] ^ 0xFF
                    } else {
                        d0[loc]
                    }),
                collision <==> (exists|loc: int|
                    0 <= loc < 2048 && #[trigger] draw_hits(memv, ii, xi, yi, ni, loc) && loc / 64
                        < yi + dy && d0[loc] == 0xFF),
            decreases rows - dy,
        {
            let line = self.memory[base + dy];
            let cols = if 8 <= 64 - x {
                8
            } else {
                64 - x
            };
            let mut dx: usize = 0;
            while dx < cols
                invariant
                    dx <= cols,
                    dy < rows,
                    x < 64,
                    y < 32,
                    n < 16,
                    xi == x as int,
                    yi == y as int,
                    ni == n as int,
                    cols as int == (if 8 <= 64 - xi {
                        8int
                    } else {
                        64 - xi
                    }),
                    rows as int == (if ni <= 32 - yi {
                        ni
                    } else {
                        32 - yi
                    }),
                    base + rows <= 4096,
                    base == ii,
                    ii == old(self)@.i as int,
                    d0 == old(self)@.display,
                    memv == old(self)@.memory,
                    d0.len() == 2048,
                    memv.len() == 4096,
                    forall|j: int| 0 <= j < 2048 ==> d0[j] == 0 || d0[j] == 0xFF,
                    v0 == old(self)@.v.update(15, 0u8),
                    line == memv[ii + dy],
                    self@.display.len() == 2048,
                    self@ == (Chip8View { display: self@.display, v: v0, ..old(self)@ }),
                    forall|loc: int|
                        0 <= loc < 2048 ==> #[trigger] self@.display[loc] == (if draw_hits(
                            memv,
                            ii,
                            xi,
                            yi,
                            ni,
                            loc,
                        ) && (loc / 64 < yi + dy || (loc / 64 == yi + dy && loc % 64 < xi
                            + dx)) {
                            d0[loc] ^ 0xFF
                        } else {
                            d0[loc]
                        }),
                    collision <==> (exists|loc: int|
                        0 <= loc < 2048 && #[trigger] draw_hits(memv, ii, xi, yi, ni, loc) && (loc
                            / 64 < yi + dy || (loc / 64 == yi + dy && loc % 64 < xi + dx)) && d0[loc]
                            == 0xFF),
                decreases cols - dx,
            {
                let loc = x + dx + (y + dy) * 64;
                proof {
                    lemma_fundamental_div_mod_converse(loc as int, 64, yi + dy, xi + dx);
                    assert forall|loc2: int|
                        0 <= loc2 < 2048 && #[trigger] draw_hits(memv, ii, xi, yi, ni, loc2) && loc2
                            / 64 == yi + dy && loc2 % 64 == xi + dx implies loc2 == loc as int by {
                        lemma_fundamental_div_mod(loc2, 64);
                    };
                }
                let bit_set = ((0x80u8 >> (dx as u8)) & line) != 0;
                let ghost pre_collision = collision;
                let ghost pre_display = self@.display;
                if bit_set {
                    let cur = self.display[loc];
                    if cur == 0xFF {
                        collision = true;
                    }
                    self.display[loc] = cur ^ 0xFF;
                }
                proof {
                    assert(sprite_pixel(line, dx as int) == bit_set);
                    assert(pre_display[loc as int] == d0[loc as int]);
                    if collision && !pre_collision {
                        assert(draw_hits(memv, ii, xi, yi, ni, loc as int));
                        assert(d0[loc as int] == 0xFF);
                        assert(exists|loc2: int|
                            0 <= loc2 < 2048 && #[trigger] draw_hits(memv, ii, xi, yi, ni, loc2)
                                && (loc2 / 64 < yi + dy || (loc2 / 64 == yi + dy && loc2 % 64 < xi
                                + dx + 1)) && d0[loc2] == 0xFF);
                    }
                    if !collision {
                        assert forall|loc2: int|
                            0 <= loc2 < 2048 && #[trigger] draw_hits(memv, ii, xi, yi, ni, loc2)
                                && (loc2 / 64 < yi + dy || (loc2 / 64 == yi + dy && loc2 % 64 < xi
                                + dx + 1)) implies d0[loc2] != 0xFF by {
                            if loc2 / 64 == yi + dy && loc2 % 64 == xi + dx {
                                assert(loc2 == loc as int);
                                assert(sprite_pixel(memv[ii + dy], loc2 % 64 - xi));
                            }
                        };
                    }
                }
                dx += 1;
            }
            dy += 1;
        }
        self.v[15] = if collision {
            1
        } else {
            0
        };
        proof {
            assert(0u8 ^ 0xFF == 0xFF && 0xFFu8 ^ 0xFF == 0) by (bit_vector);
            assert(self@.display =~= spec_draw_display(d0, memv, ii, xi, yi, ni));
            assert(collision == spec_draw_collision(d0, memv, ii, xi, yi, ni));
            assert(self@ =~= (Chip8View {
                display: spec_draw_display(d0, memv, ii, xi, yi, ni),
                v: v0.update(
                    15,
                    if spec_draw_collision(d0, memv, ii, xi, yi, ni) {
                        1u8
                    } else {
                        0u8
                    },
                ),
                ..old(self)@
            }));
        }
        Ok(())
    }
}

/// Relies on `rand::random::<u8>`: a byte drawn from the thread-local
/// generator. Nothing is promised of its value.
#[verifier::external_body]
fn random_byte() -> u8 {
    rand::random::<u8>()
}

/// Fetch, decode and execute the word at `m.pc`: advance the counter
/// by two, then apply [`spec_execute`]. Fails without changing the
/// machine when no full word fits below 4096.
#[verifier::opaque]
pub open spec fn spec_tick(m: Chip8View, rnd: u8) -> Result<Chip8View, VmError>
    recommends
        m.wf(),
{
    if m.pc > 4094 {
        Err(VmError::ProgramCounterOutOfRange { addr: m.pc })
    } else {
        let w = (m.memory[m.pc as int] * 256 + m.memory[m.pc as int + 1]) as u16;
        spec_execute(Chip8View { pc: (m.pc + 2) as usize, ..m }, spec_decode(w), rnd)
    }
}

/// The instruction period in microseconds: 700 Hz scaled by the speed
/// multiplier, floored at one microsecond.
pub open spec fn spec_instr_period_us(speed_tenths: u32) -> u64 {
    let q = 10_000_000 as int / (700 * speed_tenths as int);
    if q < 1 {
        1u64
    } else {
        q as u64
    }
}

/// The timer period in microseconds: 60 Hz scaled by the speed
/// multiplier, floored at one microsecond.
pub open spec fn spec_timer_period_us(speed_tenths: u32) -> u64 {
    let q = 10_000_000 as int / (60 * speed_tenths as int);
    if q < 1 {
        1u64
    } else {
        q as u64
    }
}

/// Addition on deadlines, pinned to the top of the range instead of
/// wrapping.
pub open spec fn sat_add_u64(a: u64, b: u64) -> u64 {
    if a + b <= u64::MAX {
        (a + b) as u64
    } else {
        u64::MAX
    }
}

/// The sound edge after a scheduling step: request a start when the
/// sound timer is running and nothing plays, a stop when it reached
/// zero while something does.
pub open spec fn spec_sound_edge(m: Chip8View) -> (Chip8View, Option<SoundEvent>) {
    if m.st > 0 && !m.sound_playing {
        (Chip8View { sound_playing: true, ..m }, Some(SoundEvent::Start))
    } else if m.st == 0 && m.sound_playing {
        (Chip8View { sound_playing: false, ..m }, Some(SoundEvent::Stop))
    } else {
        (m, None)
    }
}

/// One scheduling unit: whichever deadline is earlier decides whether
/// the timers decrement or one instruction runs; the served deadline
/// then moves forward by its period. On a tie the instruction runs.
/// The sound edge is reported either way.
#[verifier::opaque]
pub open spec fn spec_step_debug(m: Chip8View, rnd: u8) -> Result<
    (Chip8View, Option<SoundEvent>),
    VmError,
>
    recommends
        m.wf(),
{
    if m.next_timers_tick_us < m.next_tick_us {
        let m1 = Chip8View {
            st: if m.st > 0 {
                (m.st - 1) as u8
            } else {
                m.st
            },
            dt: if m.dt > 0 {
                (m.dt - 1) as u8
            } else {
                m.dt
            },
            next_timers_tick_us: sat_add_u64(
                m.next_timers_tick_us,
                spec_timer_period_us(m.speed_tenths),
            ),
            ..m
        };
        Ok(spec_sound_edge(m1))
    } else {
        match spec_tick(m, rnd) {
            Ok(m1) => {
                let m2 = Chip8View {
                    next_tick_us: sat_add_u64(
                        m1.next_tick_us,
                        spec_instr_period_us(m1.speed_tenths),
                    ),
                    ..m1
                };
                Ok(spec_sound_edge(m2))
            },
            Err(e) => Err(e),
        }
    }
}

/// Whether a poll at `now` still owes work: both deadlines lie in the
/// past.
pub open spec fn catch_up_due(m: Chip8View, now: u64) -> bool {
    now > m.next_tick_us && now > m.next_timers_tick_us
}

/// Catch-up scheduling: run scheduling units while both deadlines lie
/// behind `now`, drawing random bytes from `rs`. Returns the final
/// machine, how many of the units were instructions, and the fatal
/// error if one stopped the run. The sequence `rs` doubles as fuel:
/// a run that exhausts it stops where it stands.
pub open spec fn spec_catch_up(m: Chip8View, now: u64, rs: Seq<u8>) -> (Chip8View, nat, Option<
    VmError,
>)
    decreases rs.len(),
{
    if !catch_up_due(m, now) || rs.len() == 0 {
        (m, 0, None)
    } else {
        let instr: nat = if m.next_timers_tick_us < m.next_tick_us {
            0
        } else {
            1
        };
        match spec_step_debug(m, rs.first()) {
            Ok((m1, ev)) => {
                let (mf, cnt, err) = spec_catch_up(m1, now, rs.drop_first());
                (mf, (cnt + instr) as nat, err)
            },
            Err(e) => (m, 0, Some(e)),
        }
    }
}

/// Appending one random byte to a fuel-exhausted catch-up run extends
/// it by exactly one scheduling unit.
proof fn lemma_catch_up_extend(
    m0: Chip8View,
    now: u64,
    rs: Seq<u8>,
    m: Chip8View,
    cnt: nat,
    r: u8,
)
    requires
        spec_catch_up(m0, now, rs) == (m, cnt, None::<VmError>),
        catch_up_due(m, now),
    ensures
        (match spec_step_debug(m, r) {
            Ok((m1, ev)) => spec_catch_up(m0, now, rs.push(r)) == (
                m1,
                (cnt + (if m.next_timers_tick_us < m.next_tick_us {
                    0nat
                } else {
                    1nat
                })) as nat,
                None::<VmError>,
            ),
            Err(e) => spec_catch_up(m0, now, rs.push(r)) == (m, cnt, Some(e)),
        }),
    decreases rs.len(),
{
    if rs.len() == 0 {
        assert(m0 == m && cnt == 0);
        assert(rs.push(r).first() == r);
        assert(rs.push(r).drop_first() =~= Seq::<u8>::empty());
        match spec_step_debug(m0, r) {
            Ok((m1, ev)) => {
                assert(spec_catch_up(m1, now, Seq::<u8>::empty()) == (m1, 0nat, None::<VmError>));
            },
            Err(e) => {},
        }
    } else {
        assert(catch_up_due(m0, now));
        let instr0: nat = if m0.next_timers_tick_us < m0.next_tick_us {
            0
        } else {
            1
        };
        match spec_step_debug(m0, rs.first()) {
            Ok((m1, ev)) => {
                let (mf, cnt_rec, err) = spec_catch_up(m1, now, rs.drop_first());
                assert(mf == m && err is None && cnt == cnt_rec + instr0);
                lemma_catch_up_extend(m1, now, rs.drop_first(), m, cnt_rec, r);
                assert(rs.push(r).first() == rs.first());
                assert(rs.push(r).drop_first() =~= rs.drop_first().push(r));
            },
            Err(e) => {
                assert(spec_catch_up(m0, now, rs) == (m0, 0nat, Some(e)));
                assert(false);
            },
        }
    }
}

/// [`spec_instr_period_us`] as executable code.
fn instr_period_us(speed_tenths: u32) -> (p: u64)
    requires
        speed_tenths >= 1,
    ensures
        p == spec_instr_period_us(speed_tenths),
        p >= 1,
{
    let q = 10_000_000u64 / (700u64 * speed_tenths as u64);
    if q < 1 {
        1
    } else {
        q
    }
}

/// [`spec_timer_period_us`] as executable code.
fn timer_period_us(speed_tenths: u32) -> (p: u64)
    requires
        speed_tenths >= 1,
    ensures
        p == spec_timer_period_us(speed_tenths),
        p >= 1,
{
    let q = 10_000_000u64 / (60u64 * speed_tenths as u64);
    if q < 1 {
        1
    } else {
        q
    }
}

/// Unfolds one fetch: relates [`spec_tick`] to the [`spec_execute`]
/// call on the advanced machine.
proof fn lemma_tick_unfold(m0: Chip8View, m1: Chip8View, w: u16, rnd: u8)
    requires
        m0.memory.len() == 4096,
        m0.pc <= 4094,
        m1 == (Chip8View { pc: (m0.pc + 2) as usize, ..m0 }),
        w as int == m0.memory[m0.pc as int] * 256 + m0.memory[m0.pc as int + 1],
    ensures
        spec_tick(m0, rnd) == spec_execute(m1, spec_decode(w), rnd),
{
    reveal(spec_tick);
    assert((m0.memory[m0.pc as int] * 256 + m0.memory[m0.pc as int + 1]) as u16 == w);
}

/// Executing an instruction never touches the scheduling fields:
/// deadlines and speed change only through the scheduler itself.
proof fn lemma_tick_keeps_schedule(m: Chip8View, rnd: u8)
    ensures
        (match spec_tick(m, rnd) {
            Ok(m1) => m1.next_tick_us == m.next_tick_us && m1.next_timers_tick_us
                == m.next_timers_tick_us && m1.speed_tenths == m.speed_tenths,
            Err(_) => true,
        }),
{
    reveal(spec_tick);
    reveal(spec_execute);
    reveal(spec_execute_draw);
}

impl Chip8 {
    /// Fetch the word at the program counter, advance it by two, and
    /// execute. The random byte for `RndVxNn` is drawn inside, so the
    /// outcome is pinned only up to some byte.
    #[verifier::rlimit(100)]
    pub fn tick(&mut self) -> (r: Result<(), VmError>)
        requires
            old(self)@.wf(),
        ensures
            final(self)@.wf(),
            (match r {
                Ok(()) => exists|rnd: u8|
                    spec_tick(old(self)@, rnd) == Ok::<Chip8View, VmError>(final(self)@),
                Err(e) => final(self)@ == old(self)@ && exists|rnd: u8|
                    spec_tick(old(self)@, rnd) == Err::<Chip8View, VmError>(e),
            }),
    {
        if self.pc > 4094 {
            proof {
                reveal(spec_tick);
                assert(spec_tick(old(self)@, 0u8) == Err::<Chip8View, VmError>(
                    VmError::ProgramCounterOutOfRange { addr: old(self)@.pc },
                ));
            }
            return Err(VmError::ProgramCounterOutOfRange { addr: self.pc });
        }
        let ghost m1 = Chip8View { pc: (old(self)@.pc + 2) as usize, ..old(self)@ };
        let hi = self.memory[self.pc];
        let lo = self.memory[self.pc + 1];
        let w = (hi as u16) * 256 + (lo as u16);
        self.pc = self.pc + 2;
        let op = crate::opcode::decode(w);
        let rnd = random_byte();
        proof {
            crate::opcode::lemma_decode_wf(w);
            assert(self@ =~= m1);
            lemma_tick_unfold(old(self)@, m1, w, rnd);
        }
        let ghost mid = self@;
        let r = self.execute(op, rnd);
        if r.is_err() {
            self.pc = self.pc - 2;
            proof {
                assert(self@ =~= old(self)@);
            }
        }
        proof {
            if r is Ok {
                assert(spec_execute(mid, op, rnd) == Ok::<Chip8View, VmError>(self@));
                assert(spec_tick(old(self)@, rnd) == Ok::<Chip8View, VmError>(self@));
            } else {
                assert(spec_execute(mid, op, rnd) == Err::<Chip8View, VmError>(r->Err_0));
                assert(spec_tick(old(self)@, rnd) == Err::<Chip8View, VmError>(r->Err_0));
            }
        }
        r
    }

    /// One scheduling unit; see [`spec_step_debug`]. Returns the
    /// sound edge to hand to the audio collaborator, if any.
    pub fn step_debug(&mut self) -> (r: Result<Option<SoundEvent>, VmError>)
        requires
            old(self)@.wf(),
        ensures
            final(self)@.wf(),
            (match r {
                Ok(ev) => exists|rnd: u8|
                    spec_step_debug(old(self)@, rnd) == Ok::<
                        (Chip8View, Option<SoundEvent>),
                        VmError,
                    >((final(self)@, ev)),
                Err(e) => final(self)@ == old(self)@ && exists|rnd: u8|
                    spec_step_debug(old(self)@, rnd) == Err::<
                        (Chip8View, Option<SoundEvent>),
                        VmError,
                    >(e),
            }),
    {
        let ghost mut rnd_used: u8 = 0;
        if self.next_timers_tick_us < self.next_tick_us {
            if self.st > 0 {
                self.st = self.st - 1;
            }
            if self.dt > 0 {
                self.dt = self.dt - 1;
            }
            let p = timer_period_us(self.speed_tenths);
            self.next_timers_tick_us = if self.next_timers_tick_us <= u64::MAX - p {
                self.next_timers_tick_us + p
            } else {
                u64::MAX
            };
        } else {
            let ghost pre = self@;
            let r = self.tick();
            match r {
                Err(e) => {
                    proof {
                        reveal(spec_step_debug);
                        let rnd = choose|rnd: u8|
                            spec_tick(pre, rnd) == Err::<Chip8View, VmError>(e);
                        assert(spec_step_debug(pre, rnd) == Err::<
                            (Chip8View, Option<SoundEvent>),
                            VmError,
                        >(e));
                    }
                    return Err(e);
                },
                Ok(()) => {},
            }
            proof {
                rnd_used = choose|rnd: u8|
                    spec_tick(pre, rnd) == Ok::<Chip8View, VmError>(self@);
            }
            let p = instr_period_us(self.speed_tenths);
            self.next_tick_us = if self.next_tick_us <= u64::MAX - p {
                self.next_tick_us + p
            } else {
                u64::MAX
            };
        }
        let ev = if self.st > 0 && !self.sound_playing {
            self.sound_playing = true;
            Some(SoundEvent::Start)
        } else if self.st == 0 && self.sound_playing {
            self.sound_playing = false;
            Some(SoundEvent::Stop)
        } else {
            None
        };
        proof {
            reveal(spec_step_debug);
            assert(spec_step_debug(old(self)@, rnd_used) == Ok::<
                (Chip8View, Option<SoundEvent>),
                VmError,
            >((self@, ev)));
        }
        Ok(ev)
    }

    /// Catch-up scheduling: run scheduling units until both deadlines
    /// have caught up with `now_us`; see [`spec_catch_up`]. Returns
    /// how many instructions were executed. A fatal error stops the
    /// run where it stands.
    pub fn step_with_time(&mut self, now_us: u64) -> (r: Result<u64, VmError>)
        requires
            old(self)@.wf(),
        ensures
            final(self)@.wf(),
            (match r {
                Ok(count) => !catch_up_due(final(self)@, now_us) && exists|rs: Seq<u8>|
                    spec_catch_up(old(self)@, now_us, rs) == (
                        final(self)@,
                        count as nat,
                        None::<VmError>,
                    ),
                Err(e) => exists|rs: Seq<u8>|
                    (#[trigger] spec_catch_up(old(self)@, now_us, rs)).0 == final(self)@
                        && spec_catch_up(old(self)@, now_us, rs).2 == Some(e),
            }),
    {
        let mut count: u64 = 0;
        proof {
            assert(spec_catch_up(old(self)@, now_us, Seq::<u8>::empty()) == (
                old(self)@,
                0nat,
                None::<VmError>,
            ));
        }
        while now_us > self.next_tick_us && now_us > self.next_timers_tick_us
            invariant
                self@.wf(),
                old(self)@.next_tick_us <= self@.next_tick_us,
                count as int <= self@.next_tick_us - old(self)@.next_tick_us,
                exists|rs: Seq<u8>|
                    #[trigger] spec_catch_up(old(self)@, now_us, rs) == (
                        self@,
                        count as nat,
                        None::<VmError>,
                    ),
            decreases
                    (if self@.next_tick_us < now_us {
                        now_us - self@.next_tick_us
                    } else {
                        0
                    }) + (if self@.next_timers_tick_us < now_us {
                        now_us - self@.next_timers_tick_us
                    } else {
                        0
                    }),
        {
            let ghost pre = self@;
            let ghost pre_count = count;
            let ghost rs_pre = choose|rs: Seq<u8>|
                spec_catch_up(old(self)@, now_us, rs) == (pre, pre_count as nat, None::<VmError>);
            let instruction_due = self.next_timers_tick_us >= self.next_tick_us;
            let sound = match self.step_debug() {
                Err(e) => {
                    proof {
                        let rnd = choose|rnd: u8|
                            spec_step_debug(pre, rnd) == Err::<
                                (Chip8View, Option<SoundEvent>),
                                VmError,
                            >(e);
                        lemma_catch_up_extend(
                            old(self)@,
                            now_us,
                            rs_pre,
                            pre,
                            pre_count as nat,
                            rnd,
                        );
                    }
                    return Err(e);
                },
                Ok(ev) => ev,
            };
            if instruction_due {
                count = count + 1;
            }
            proof {
                reveal(spec_step_debug);
                let rnd = choose|rnd: u8|
                    spec_step_debug(pre, rnd) == Ok::<(Chip8View, Option<SoundEvent>), VmError>(
                        (self@, sound),
                    );
                lemma_tick_keeps_schedule(pre, rnd);
                lemma_catch_up_extend(old(self)@, now_us, rs_pre, pre, pre_count as nat, rnd);
            }
        }
        Ok(count)
    }
}

impl Clone for Chip8 {
    /// A deep, equal-valued copy. The debugger's snapshots rely on a
    /// clone carrying the entire machine state.
    fn clone(&self) -> (c: Self)
        ensures
            c@ == self@,
    {
        let c = Chip8 {
            memory: self.memory.clone(),
            display: self.display.clone(),
            v: self.v.clone(),
            pc: self.pc,
            st: self.st,
            dt: self.dt,
            i: self.i,
            stack: self.stack.clone(),
            mode: self.mode,
            keys: self.keys.clone(),
            speed_tenths: self.speed_tenths,
            next_tick_us: self.next_tick_us,
            next_timers_tick_us: self.next_timers_tick_us,
            sound_playing: self.sound_playing,
        };
        proof {
            assert(c.memory@ =~= self.memory@);
            assert(c.display@ =~= self.display@);
            assert(c.v@ =~= self.v@);
            assert(c.stack@ =~= self.stack@);
            assert(c.keys@ =~= self.keys@);
            assert(c@ =~= self@);
        }
        c
    }
}

/// One changed field between two machine states, as the debugger
/// reports it after a step.
#[derive(Clone, Copy, Debug, PartialEq, Eq, Structural)]
pub enum DiffEntry {
    MemoryByte { index: usize, from: u8, to: u8 },
    DisplayCell { index: usize, from: u8, to: u8 },
    Register { index: usize, from: u8, to: u8 },
    ProgramCounter { from: usize, to: usize },
    SoundTimer { from: u8, to: u8 },
    DelayTimer { from: u8, to: u8 },
    IndexRegister { from: u16, to: u16 },
    MachineMode { from: Modes, to: Modes },
    NextTick { from: u64, to: u64 },
    NextTimersTick { from: u64, to: u64 },
    SoundPlaying { from: bool, to: bool },
}

/// The entries for the first `k` positions of two byte sequences, in
/// index order, one entry per position where they differ.
pub open spec fn spec_byte_diffs(
    a: Seq<u8>,
    b: Seq<u8>,
    k: int,
    f: spec_fn(int, u8, u8) -> DiffEntry,
) -> Seq<DiffEntry>
    decreases k,
{
    if k <= 0 {
        Seq::empty()
    } else {
        spec_byte_diffs(a, b, k - 1, f) + (if a[k - 1] != b[k - 1] {
            seq![f(k - 1, a[k - 1], b[k - 1])]
        } else {
            Seq::empty()
        })
    }
}

/// The constructor for a memory diff entry.
pub open spec fn mem_diff_fn() -> spec_fn(int, u8, u8) -> DiffEntry {
    |k: int, x: u8, y: u8| DiffEntry::MemoryByte { index: k as usize, from: x, to: y }
}

/// The constructor for a display diff entry.
pub open spec fn display_diff_fn() -> spec_fn(int, u8, u8) -> DiffEntry {
    |k: int, x: u8, y: u8| DiffEntry::DisplayCell { index: k as usize, from: x, to: y }
}

/// The constructor for a register diff entry.
pub open spec fn reg_diff_fn() -> spec_fn(int, u8, u8) -> DiffEntry {
    |k: int, x: u8, y: u8| DiffEntry::Register { index: k as usize, from: x, to: y }
}

/// The human-readable difference between two machine states: every
/// changed memory byte, display cell and register in index order,
/// then each changed scalar field. The call stack and the key state
/// are not compared.
pub open spec fn spec_compare(a: Chip8View, b: Chip8View) -> Seq<DiffEntry> {
    spec_byte_diffs(a.memory, b.memory, 4096, mem_diff_fn()) + spec_byte_diffs(
        a.display,
        b.display,
        2048,
        display_diff_fn(),
    ) + spec_byte_diffs(a.v, b.v, 16, reg_diff_fn()) + spec_scalar_diffs(a, b)
}

/// The scalar-field part of [`spec_compare`].
pub open spec fn spec_scalar_diffs(a: Chip8View, b: Chip8View) -> Seq<DiffEntry> {
    (if a.pc != b.pc {
        seq![DiffEntry::ProgramCounter { from: a.pc, to: b.pc }]
    } else {
        Seq::empty()
    }) + (if a.st != b.st {
        seq![DiffEntry::SoundTimer { from: a.st, to: b.st }]
    } else {
        Seq::empty()
    }) + (if a.dt != b.dt {
        seq![DiffEntry::DelayTimer { from: a.dt, to: b.dt }]
    } else {
        Seq::empty()
    }) + (if a.i != b.i {
        seq![DiffEntry::IndexRegister { from: a.i, to: b.i }]
    } else {
        Seq::empty()
    }) + (if a.mode != b.mode {
        seq![DiffEntry::MachineMode { from: a.mode, to: b.mode }]
    } else {
        Seq::empty()
    }) + (if a.next_tick_us != b.next_tick_us {
        seq![DiffEntry::NextTick { from: a.next_tick_us, to: b.next_tick_us }]
    } else {
        Seq::empty()
    }) + (if a.next_timers_tick_us != b.next_timers_tick_us {
        seq![DiffEntry::NextTimersTick { from: a.next_timers_tick_us, to: b.next_timers_tick_us }]
    } else {
        Seq::empty()
    }) + (if a.sound_playing != b.sound_playing {
        seq![DiffEntry::SoundPlaying { from: a.sound_playing, to: b.sound_playing }]
    } else {
        Seq::empty()
    })
}

impl Chip8 {
    /// Report every difference between two machine states; see
    /// [`spec_compare`].
    #[verifier::rlimit(100)]
    pub fn compare(a: &Chip8, b: &Chip8) -> (d: Vec<DiffEntry>)
        requires
            a@.wf(),
            b@.wf(),
        ensures
            d@ == spec_compare(a@, b@),
    {
        let mut out: Vec<DiffEntry> = Vec::new();
        let mut j: usize = 0;
        while j < 4096
            invariant
                j <= 4096,
                a@.wf(),
                b@.wf(),
                out@ == spec_byte_diffs(a@.memory, b@.memory, j as int, mem_diff_fn()),
            decreases 4096 - j,
        {
            if a.memory[j] != b.memory[j] {
                out.push(
                    DiffEntry::MemoryByte { index: j, from: a.memory[j], to: b.memory[j] },
                );
            }
            proof {
                assert(out@ =~= spec_byte_diffs(
                    a@.memory,
                    b@.memory,
                    j as int + 1,
                    mem_diff_fn(),
                ));
            }
            j += 1;
        }
        let ghost part1 = spec_byte_diffs(a@.memory, b@.memory, 4096, mem_diff_fn());
        j = 0;
        while j < 2048
            invariant
                j <= 2048,
                a@.wf(),
                b@.wf(),
                part1 == spec_byte_diffs(a@.memory, b@.memory, 4096, mem_diff_fn()),
                out@ == part1 + spec_byte_diffs(
                    a@.display,
                    b@.display,
                    j as int,
                    display_diff_fn(),
                ),
            decreases 2048 - j,
        {
            if a.display[j] != b.display[j] {
                out.push(
                    DiffEntry::DisplayCell { index: j, from: a.display[j], to: b.display[j] },
                );
            }
            proof {
                assert(out@ =~= part1 + spec_byte_diffs(
                    a@.display,
                    b@.display,
                    j as int + 1,
                    display_diff_fn(),
                ));
            }
            j += 1;
        }
        let ghost part2 = part1 + spec_byte_diffs(a@.display, b@.display, 2048, display_diff_fn());
        j = 0;
        while j < 16
            invariant
                j <= 16,
                a@.wf(),
                b@.wf(),
                part2 == spec_byte_diffs(a@.memory, b@.memory, 4096, mem_diff_fn())
                    + spec_byte_diffs(a@.display, b@.display, 2048, display_diff_fn()),
                out@ == part2 + spec_byte_diffs(a@.v, b@.v, j as int, reg_diff_fn()),
            decreases 16 - j,
        {
            if a.v[j] != b.v[j] {
                out.push(DiffEntry::Register { index: j, from: a.v[j], to: b.v[j] });
            }
            proof {
                assert(out@ =~= part2 + spec_byte_diffs(a@.v, b@.v, j as int + 1, reg_diff_fn()));
            }
            j += 1;
        }
        let ghost part3 = part2 + spec_byte_diffs(a@.v, b@.v, 16, reg_diff_fn());
        let mut tail: Vec<DiffEntry> = Vec::new();
        if a.pc != b.pc {
            tail.push(DiffEntry::ProgramCounter { from: a.pc, to: b.pc });
        }
        if a.st != b.st {
            tail.push(DiffEntry::SoundTimer { from: a.st, to: b.st });
        }
        if a.dt != b.dt {
            tail.push(DiffEntry::DelayTimer { from: a.dt, to: b.dt });
        }
        if a.i != b.i {
            tail.push(DiffEntry::IndexRegister { from: a.i, to: b.i });
        }
        if !matches!(a.mode, Modes::Chip8) || !matches!(b.mode, Modes::Chip8) {
            tail.push(DiffEntry::MachineMode { from: a.mode, to: b.mode });
        }
        if a.next_tick_us != b.next_tick_us {
            tail.push(DiffEntry::NextTick { from: a.next_tick_us, to: b.next_tick_us });
        }
        if a.next_timers_tick_us != b.next_timers_tick_us {
            tail.push(
                DiffEntry::NextTimersTick {
                    from: a.next_timers_tick_us,
                    to: b.next_timers_tick_us,
                },
            );
        }
        if a.sound_playing != b.sound_playing {
            tail.push(DiffEntry::SoundPlaying { from: a.sound_playing, to: b.sound_playing });
        }
        proof {
            assert(tail@ =~= spec_scalar_diffs(a@, b@));
        }
        out.append(&mut tail);
        proof {
            assert(out@ == part3 + spec_scalar_diffs(a@, b@));
        }
        out
    }
}

impl Chip8 {
    /// The program counter.
    pub fn pc(&self) -> (r: usize)
        ensures
            r == self@.pc,
    {
        self.pc
    }

    /// General-purpose register `x`.
    pub fn reg(&self, x: u8) -> (r: u8)
        requires
            self@.wf(),
            x < 16,
        ensures
            r == self@.v[x as int],
    {
        self.v[x as usize]
    }

    /// The address register I.
    pub fn index_reg(&self) -> (r: u16)
        ensures
            r == self@.i,
    {
        self.i
    }

    /// One byte of memory.
    pub fn memory_at(&self, addr: usize) -> (r: u8)
        requires
            self@.wf(),
            addr < 4096,
        ensures
            r == self@.memory[addr as int],
    {
        self.memory[addr]
    }

    /// The delay timer.
    pub fn delay_timer(&self) -> (r: u8)
        ensures
            r == self@.dt,
    {
        self.dt
    }

    /// The sound timer.
    pub fn sound_timer(&self) -> (r: u8)
        ensures
            r == self@.st,
    {
        self.st
    }

    /// Whether the host was last told to play sound.
    pub fn is_sound_playing(&self) -> (r: bool)
        ensures
            r == self@.sound_playing,
    {
        self.sound_playing
    }

    /// The speed multiplier in tenths; 10 is normal speed.
    pub fn speed_tenths(&self) -> (r: u32)
        ensures
            r == self@.speed_tenths,
    {
        self.speed_tenths
    }

    /// The instruction-tick deadline, in clock microseconds.
    pub fn next_tick_us(&self) -> (r: u64)
        ensures
            r == self@.next_tick_us,
    {
        self.next_tick_us
    }

    /// The timer-tick deadline, in clock microseconds.
    pub fn next_timers_tick_us(&self) -> (r: u64)
        ensures
            r == self@.next_timers_tick_us,
    {
        self.next_timers_tick_us
    }

    /// How many return addresses the call stack holds.
    pub fn stack_depth(&self) -> (r: usize)
        ensures
            r == self@.stack.len(),
    {
        self.stack.len()
    }

    /// The return address at position `k` of the call stack.
    pub fn stack_at(&self, k: usize) -> (r: usize)
        requires
            k < self@.stack.len(),
        ensures
            r == self@.stack[k as int],
    {
        self.stack[k]
    }
}

} // verus!
