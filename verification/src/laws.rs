//! Laws of the machine and the debugger, stated once over the
//! transition specifications and proved for every state they admit.

use vstd::arithmetic::div_mod::{
    lemma_div_by_multiple, lemma_div_denominator, lemma_div_is_ordered,
};
use vstd::prelude::*;

use crate::chip8::{
    is_lowest_pressed, spec_byte_diffs, spec_compare, spec_execute, spec_instr_period_us,
    spec_scalar_diffs, spec_tick, spec_timer_period_us, Chip8View, DiffEntry, VmError,
};
use crate::opcode::{spec_decode, OpCode};

verus! {

/// Clearing the display yields a buffer of all zeroes, regardless of
/// what it held before; nothing else changes.
pub proof fn lemma_clear_display(m: Chip8View, rnd: u8)
    requires
        m.wf(),
        2 <= m.pc <= 4096,
    ensures
        ({
            let r = spec_execute(m, OpCode::Cls, rnd);
            &&& r is Ok
            &&& forall|j: int| 0 <= j < 2048 ==> r->Ok_0.display[j] == 0
            &&& r->Ok_0 == (Chip8View { display: r->Ok_0.display, ..m })
        }),
{
    reveal(spec_execute);
}

/// Add-immediate wraps modulo 256 and never touches the carry flag:
/// unless VF itself is the target register, it keeps its value.
pub proof fn lemma_add_immediate_wraps(m: Chip8View, x: u8, nn: u8, rnd: u8)
    requires
        m.wf(),
        x < 16,
        2 <= m.pc <= 4096,
    ensures
        ({
            let r = spec_execute(m, OpCode::AddVxNn(x, nn), rnd);
            &&& r is Ok
            &&& r->Ok_0.v[x as int] == ((m.v[x as int] + nn) % 256) as u8
            &&& (x != 15 ==> r->Ok_0.v[15] == m.v[15])
        }),
{
    reveal(spec_execute);
}

/// Register-register add sets VF to exactly 1 when the unsigned sum
/// exceeds 255, and to 0 otherwise; the target takes the wrapped sum.
pub proof fn lemma_add_register_carry(m: Chip8View, x: u8, y: u8, rnd: u8)
    requires
        m.wf(),
        x < 16,
        y < 16,
        2 <= m.pc <= 4096,
    ensures
        ({
            let r = spec_execute(m, OpCode::AddVxVy(x, y), rnd);
            let sum = m.v[x as int] + m.v[y as int];
            &&& r is Ok
            &&& r->Ok_0.v[15] == (if sum > 255 {
                1u8
            } else {
                0u8
            })
            &&& (x != 15 ==> r->Ok_0.v[x as int] == (sum % 256) as u8)
        }),
{
    reveal(spec_execute);
}

/// Subtraction's borrow flag, as this machine defines it: `Sub Vx,Vy`
/// sets VF to exactly 1 when Vx < Vy held before the operation (a
/// borrow occurred), else to 0; `Subn Vx,Vy` sets VF by the borrow of
/// Vy - Vx, that is, to 1 exactly when Vy < Vx.
pub proof fn lemma_sub_borrow_flag(m: Chip8View, x: u8, y: u8, rnd: u8)
    requires
        m.wf(),
        x < 16,
        y < 16,
        2 <= m.pc <= 4096,
    ensures
        ({
            let r = spec_execute(m, OpCode::SubVxVy(x, y), rnd);
            &&& r is Ok
            &&& r->Ok_0.v[15] == (if m.v[x as int] < m.v[y as int] {
                1u8
            } else {
                0u8
            })
        }),
        ({
            let r = spec_execute(m, OpCode::SubnVxVy(x, y), rnd);
            &&& r is Ok
            &&& r->Ok_0.v[15] == (if m.v[y as int] < m.v[x as int] {
                1u8
            } else {
                0u8
            })
        }),
{
    reveal(spec_execute);
}

/// The decimal digit store writes the hundreds, tens and units of VX
/// at I, I+1 and I+2, and nothing else in memory changes.
pub proof fn lemma_bcd_digits(m: Chip8View, x: u8, rnd: u8)
    requires
        m.wf(),
        x < 16,
        2 <= m.pc <= 4096,
        m.i as int + 3 <= 4096,
    ensures
        ({
            let r = spec_execute(m, OpCode::LdBVx(x), rnd);
            let value = m.v[x as int];
            &&& r is Ok
            &&& r->Ok_0.memory[m.i as int] == (value / 100) as u8
            &&& r->Ok_0.memory[m.i as int + 1] == ((value / 10) % 10) as u8
            &&& r->Ok_0.memory[m.i as int + 2] == (value % 10) as u8
            &&& forall|j: int|
                0 <= j < 4096 && !(m.i as int <= j < m.i as int + 3)
                    ==> r->Ok_0.memory[j] == m.memory[j]
        }),
{
    reveal(spec_execute);
}

/// With no key pressed, the key-wait instruction leaves the machine
/// exactly as it stood: the program counter steps back over the word
/// it just fetched, so the next cycle fetches it again. Repeating it
/// any number of times therefore moves nothing.
pub proof fn lemma_key_wait_blocks(m: Chip8View, x: u8, rnd: u8)
    requires
        m.wf(),
        m.pc <= 4094,
        ({
            let w = (m.memory[m.pc as int] * 256 + m.memory[m.pc as int + 1]) as u16;
            spec_decode(w) == OpCode::LdVxK(x)
        }),
        forall|k: int| 0 <= k < 16 ==> !m.keys[k],
    ensures
        spec_tick(m, rnd) == Ok::<Chip8View, VmError>(m),
{
    reveal(spec_tick);
    reveal(spec_execute);
    let m1 = Chip8View { pc: (m.pc + 2) as usize, ..m };
    assert((Chip8View { pc: (m1.pc - 2) as usize, ..m1 }) =~= m);
}

/// With keys pressed, the key-wait instruction stores the
/// lowest-indexed pressed key in VX and the program counter advances
/// normally past the instruction.
pub proof fn lemma_key_wait_press(m: Chip8View, x: u8, k: int, rnd: u8)
    requires
        m.wf(),
        m.pc <= 4094,
        x < 16,
        ({
            let w = (m.memory[m.pc as int] * 256 + m.memory[m.pc as int + 1]) as u16;
            spec_decode(w) == OpCode::LdVxK(x)
        }),
        is_lowest_pressed(m.keys, k),
    ensures
        spec_tick(m, rnd) == Ok::<Chip8View, VmError>(
            Chip8View { pc: (m.pc + 2) as usize, v: m.v.update(x as int, k as u8), ..m },
        ),
{
    reveal(spec_tick);
    reveal(spec_execute);
    assert(crate::chip8::lowest_pressed(m.keys) == k) by {
        let kc = crate::chip8::lowest_pressed(m.keys);
        assert(is_lowest_pressed(m.keys, kc));
    };
}

/// Doubling the speed multiplier halves both scheduling periods
/// exactly, in integer microseconds; over a fixed wall-clock interval
/// the scheduler therefore owes twice as many instruction ticks, up
/// to rounding at the interval's edges. The hypothesis keeps the
/// doubled speed inside the range where a period is at least one
/// microsecond before clamping.
pub proof fn lemma_speed_doubling(s: u32)
    requires
        1 <= s,
        2 * s <= 14285,
    ensures
        spec_instr_period_us((2 * s) as u32) == spec_instr_period_us(s) / 2,
        spec_timer_period_us((2 * s) as u32) == spec_timer_period_us(s) / 2,
{
    let s2 = (2 * s) as u32;
    assert(s2 as int == 2 * s as int);
    let ci = 700 * s as int;
    let ci2 = 700 * s2 as int;
    assert(ci2 == 2 * ci);
    lemma_div_denominator(10_000_000, ci, 2);
    assert(10_000_000 as int / ci2 >= 1) by {
        lemma_div_is_ordered(ci2, 10_000_000, ci2);
        lemma_div_by_multiple(1, ci2);
    };
    assert(10_000_000 as int / ci >= 2) by {
        lemma_div_is_ordered(2 * ci, 10_000_000, ci);
        lemma_div_by_multiple(2, ci);
    };
    let ti = 60 * s as int;
    let ti2 = 60 * s2 as int;
    assert(ti2 == 2 * ti);
    lemma_div_denominator(10_000_000, ti, 2);
    assert(10_000_000 as int / ti2 >= 1) by {
        lemma_div_is_ordered(ti2, 10_000_000, ti2);
        lemma_div_by_multiple(1, ti2);
    };
    assert(10_000_000 as int / ti >= 2) by {
        lemma_div_is_ordered(2 * ti, 10_000_000, ti);
        lemma_div_by_multiple(2, ti);
    };
}

/// After a run of steps, each of which pushed the then-current
/// machine onto the history, the same number of pop-and-restore
/// undos brings back exactly the machine that stood before the first
/// step, and the history below it — whatever the steps did.
///
/// `states0` is the history before the run, `snaps` the snapshots the
/// run pushed in order (so `snaps.first()` is the pre-first-step
/// machine), and `m_final` the machine the run ended in.
pub proof fn lemma_undo_restores(
    states0: Seq<Chip8View>,
    snaps: Seq<Chip8View>,
    m_final: Chip8View,
)
    requires
        snaps.len() > 0,
    ensures
        spec_undo_n(states0 + snaps, m_final, snaps.len()) == (states0, snaps.first()),
    decreases snaps.len(),
{
    let all = states0 + snaps;
    assert(all.len() > 0);
    assert(all.last() == snaps.last());
    assert(all.drop_last() =~= states0 + snaps.drop_last());
    if snaps.len() == 1 {
        assert(states0 + snaps.drop_last() =~= states0);
        assert(spec_undo_n(states0, snaps.last(), 0nat) == (states0, snaps.last()));
        assert(spec_undo_n(all, m_final, 1) == (states0, snaps.last()));
    } else {
        lemma_undo_restores(states0, snaps.drop_last(), snaps.last());
        assert(snaps.drop_last().first() == snaps.first());
    }
}

proof fn lemma_byte_diffs_complete(
    a: Seq<u8>,
    b: Seq<u8>,
    k: int,
    f: spec_fn(int, u8, u8) -> DiffEntry,
)
    requires
        spec_byte_diffs(a, b, k, f).len() == 0,
    ensures
        forall|j: int| 0 <= j < k ==> a[j] == b[j],
    decreases k,
{
    if k > 0 {
        assert(spec_byte_diffs(a, b, k - 1, f).len() == 0);
        lemma_byte_diffs_complete(a, b, k - 1, f);
    }
}

/// The diff is complete: when it is empty, the two states agree on
/// everything it covers — every memory byte, display cell and
/// register, the program counter, both timers, the address register,
/// the mode, both scheduling deadlines and the sound flag. Only the
/// call stack and the key state lie outside its view.
pub proof fn lemma_empty_diff_means_equal(a: Chip8View, b: Chip8View)
    requires
        a.wf(),
        b.wf(),
        spec_compare(a, b).len() == 0,
    ensures
        a.memory =~= b.memory,
        a.display =~= b.display,
        a.v =~= b.v,
        a.pc == b.pc,
        a.st == b.st,
        a.dt == b.dt,
        a.i == b.i,
        a.mode == b.mode,
        a.next_tick_us == b.next_tick_us,
        a.next_timers_tick_us == b.next_timers_tick_us,
        a.sound_playing == b.sound_playing,
{
    assert(spec_byte_diffs(a.memory, b.memory, 4096, crate::chip8::mem_diff_fn()).len() == 0);
    assert(spec_byte_diffs(a.display, b.display, 2048, crate::chip8::display_diff_fn()).len()
        == 0);
    assert(spec_byte_diffs(a.v, b.v, 16, crate::chip8::reg_diff_fn()).len() == 0);
    assert(spec_scalar_diffs(a, b).len() == 0);
    lemma_byte_diffs_complete(a.memory, b.memory, 4096, crate::chip8::mem_diff_fn());
    lemma_byte_diffs_complete(a.display, b.display, 2048, crate::chip8::display_diff_fn());
    lemma_byte_diffs_complete(a.v, b.v, 16, crate::chip8::reg_diff_fn());
}

/// Repeated pop-and-restore: each undo pops the latest snapshot into
/// the machine; with an empty history it is a no-op.
pub open spec fn spec_undo_n(states: Seq<Chip8View>, m: Chip8View, n: nat) -> (
    Seq<Chip8View>,
    Chip8View,
)
    decreases n,
{
    if n == 0 {
        (states, m)
    } else {
        let (s1, m1) = if states.len() > 0 {
            (states.drop_last(), states.last())
        } else {
            (states, m)
        };
        spec_undo_n(s1, m1, (n - 1) as nat)
    }
}

} // verus!
