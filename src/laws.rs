use vstd::prelude::*;
use vstd::arithmetic::div_mod::lemma_fundamental_div_mod_converse;
use crate::decode::{decode_spec, lemma_decoded_operands_in_range, operands_in_range, Instruction};
use crate::display::{collides, draw_mask, drawn};
use crate::layout::{FLAG, RIP8_MEMORY_SIZE};
use crate::model::{
    advance_timers, execute_spec, fetch_word, flag, keydown_spec, step_spec, Machine,
};
use crate::timers::{
    carry_after, carry_after_all, count_down, lemma_timer_tracks_total_time, tick_units, ticks_due,
    timer_after_all, total,
};

verus! {

/// The instruction word with high nibble `op`, operands `x` and `y` and low
/// nibble `n`.
pub open spec fn word(op: int, x: int, y: int, n: int) -> u16 {
    (op * 0x1000 + x * 0x100 + y * 0x10 + n) as u16
}

proof fn lemma_word_fields(op: int, x: int, y: int, n: int)
    requires
        0 <= op < 0x10,
        0 <= x < 0x10,
        0 <= y < 0x10,
        0 <= n < 0x10,
    ensures
        word(op, x, y, n) as int == op * 0x1000 + x * 0x100 + y * 0x10 + n,
        word(op, x, y, n) / 0x1000 == op,
        (word(op, x, y, n) / 0x100) % 0x10 == x,
        (word(op, x, y, n) / 0x10) % 0x10 == y,
        word(op, x, y, n) % 0x10 == n,
        word(op, x, y, n) % 0x100 == y * 0x10 + n,
{
    let ir = op * 0x1000 + x * 0x100 + y * 0x10 + n;
    lemma_fundamental_div_mod_converse(ir, 0x1000, op, x * 0x100 + y * 0x10 + n);
    lemma_fundamental_div_mod_converse(ir, 0x100, op * 0x10 + x, y * 0x10 + n);
    lemma_fundamental_div_mod_converse(op * 0x10 + x, 0x10, op, x);
    lemma_fundamental_div_mod_converse(ir, 0x10, op * 0x100 + x * 0x10 + y, n);
    lemma_fundamental_div_mod_converse(op * 0x100 + x * 0x10 + y, 0x10, op * 0x10 + x, y);
}

/// A jump lands exactly on its target: after the step that executes `1nnn`,
/// the program counter is `nnn`, with no further advance, and nothing but the
/// timers and the counter has changed.
pub proof fn lemma_jump_lands_on_target(m: Machine, nanos: u64, rnd: u8, target: u16)
    requires
        m.wf(),
        !m.awaiting_input,
        m.pc + 1 < RIP8_MEMORY_SIZE,
        target < 0x1000,
        fetch_word(m) == 0x1000 + target,
    ensures
        step_spec(m, nanos, rnd) == (Machine { pc: target, ..advance_timers(m, nanos) }, true),
{
    let t = advance_timers(m, nanos);
    assert(fetch_word(t) == fetch_word(m));
    assert(decode_spec((0x1000 + target) as u16) == Some(Instruction::Jp { addr: target }));
}

/// A call followed at once by a return comes back to the instruction after
/// the call, with the call stack as it was before the call.
pub proof fn lemma_call_then_return(
    m: Machine,
    nanos1: u64,
    rnd1: u8,
    nanos2: u64,
    rnd2: u8,
    target: u16,
)
    requires
        m.wf(),
        !m.awaiting_input,
        m.pc + 1 < RIP8_MEMORY_SIZE,
        target + 1 < RIP8_MEMORY_SIZE,
        fetch_word(m) == 0x2000 + target,
        m.memory[target as int] == 0x00,
        m.memory[target + 1] == 0xee,
        m.stack.len() + 2 <= 0x40,
    ensures
        ({
            let (m1, ok1) = step_spec(m, nanos1, rnd1);
            let (m2, ok2) = step_spec(m1, nanos2, rnd2);
            ok1 && ok2 && m2.stack == m.stack && m2.pc == m.pc + 2
        }),
{
    let t = advance_timers(m, nanos1);
    assert(fetch_word(t) == fetch_word(m));
    assert(decode_spec((0x2000 + target) as u16) == Some(Instruction::Call { addr: target }));
    let (m1, ok1) = step_spec(m, nanos1, rnd1);
    let back = (m.pc + 2) as u16;
    assert(m1.pc == target);
    assert(m1.stack == m.stack.push((back % 0x100) as u8).push((back / 0x100) as u8));
    let t1 = advance_timers(m1, nanos2);
    assert(fetch_word(t1) == 0x00ee);
    let (m2, ok2) = step_spec(m1, nanos2, rnd2);
    assert(m2.stack =~= m.stack);
    assert(m2.pc == back);
}

/// Add with carry: `VF` is 1 exactly when the unsigned sum passes 255, and
/// `Vx` keeps the sum modulo 256. The logic operations and `7xkk` leave `VF`
/// alone.
pub proof fn lemma_add_and_logic_flags(m: Machine, x: int, y: int, k: u8, rnd: u8)
    requires
        m.wf(),
        0 <= x < 0xf,
        0 <= y < 0x10,
    ensures
        decode_spec(word(8, x, y, 4)) == Some(Instruction::AddReg { x: x as usize, y: y as usize }),
        execute_spec(m, Instruction::AddReg { x: x as usize, y: y as usize }, rnd) matches Some(n)
            && n.v[FLAG as int] == flag(m.v[x] + m.v[y] > 0xff) && n.v[x] == (m.v[x] + m.v[y])
            % 0x100,
        forall|op: int|
            1 <= op <= 3 ==> (#[trigger] decode_spec(word(8, x, y, op)) matches Some(ins)
                && execute_spec(m, ins, rnd) matches Some(n) && n.v[FLAG as int]
                == m.v[FLAG as int]),
        execute_spec(m, Instruction::AddByte { x: x as usize, k }, rnd) matches Some(n)
            && n.v[FLAG as int] == m.v[FLAG as int],
{
    lemma_word_fields(8, x, y, 4);
    assert forall|op: int|
        1 <= op <= 3 implies (#[trigger] decode_spec(word(8, x, y, op)) matches Some(ins)
            && execute_spec(m, ins, rnd) matches Some(n) && n.v[FLAG as int]
            == m.v[FLAG as int]) by {
        lemma_word_fields(8, x, y, op);
    }
}

/// Subtraction in either direction sets `VF` to 1 exactly when no borrow
/// occurs, that is when the minuend is at least the subtrahend, and to 0
/// otherwise; `Vx` keeps the difference modulo 256.
pub proof fn lemma_subtract_flags(m: Machine, x: int, y: int, rnd: u8)
    requires
        m.wf(),
        0 <= x < 0xf,
        0 <= y < 0x10,
    ensures
        decode_spec(word(8, x, y, 5)) == Some(Instruction::Sub { x: x as usize, y: y as usize }),
        decode_spec(word(8, x, y, 7)) == Some(Instruction::Subn { x: x as usize, y: y as usize }),
        execute_spec(m, Instruction::Sub { x: x as usize, y: y as usize }, rnd) matches Some(n)
            && n.v[FLAG as int] == flag(m.v[x] >= m.v[y]) && n.v[x] == (m.v[x] - m.v[y] + 0x100)
            % 0x100,
        execute_spec(m, Instruction::Subn { x: x as usize, y: y as usize }, rnd) matches Some(n)
            && n.v[FLAG as int] == flag(m.v[y] >= m.v[x]) && n.v[x] == (m.v[y] - m.v[x] + 0x100)
            % 0x100,
{
    lemma_word_fields(8, x, y, 5);
    lemma_word_fields(8, x, y, 7);
}

/// The shifts read only the source register `Vy`: the flag is its low bit
/// (right shift) or high bit (left shift), `Vx` is `Vy` shifted by one, and
/// whatever `Vx` held before makes no difference.
pub proof fn lemma_shifts_read_source(m: Machine, x: int, y: int, before: u8, rnd: u8)
    requires
        m.wf(),
        0 <= x < 0xf,
        0 <= y < 0x10,
        x != y,
    ensures
        decode_spec(word(8, x, y, 6)) == Some(Instruction::Shr { x: x as usize, y: y as usize }),
        decode_spec(word(8, x, y, 0xe)) == Some(Instruction::Shl { x: x as usize, y: y as usize }),
        execute_spec(m.with_v(x, before), Instruction::Shr { x: x as usize, y: y as usize }, rnd)
            == execute_spec(m, Instruction::Shr { x: x as usize, y: y as usize }, rnd),
        execute_spec(m.with_v(x, before), Instruction::Shl { x: x as usize, y: y as usize }, rnd)
            == execute_spec(m, Instruction::Shl { x: x as usize, y: y as usize }, rnd),
        execute_spec(m, Instruction::Shr { x: x as usize, y: y as usize }, rnd) matches Some(n)
            && n.v[FLAG as int] == m.v[y] % 2 && n.v[x] == m.v[y] / 2,
        execute_spec(m, Instruction::Shl { x: x as usize, y: y as usize }, rnd) matches Some(n)
            && n.v[FLAG as int] == m.v[y] / 0x80 && n.v[x] == (m.v[y] * 2) % 0x100,
{
    lemma_word_fields(8, x, y, 6);
    lemma_word_fields(8, x, y, 0xe);
    let ins_r = Instruction::Shr { x: x as usize, y: y as usize };
    let ins_l = Instruction::Shl { x: x as usize, y: y as usize };
    let mb = m.with_v(x, before);
    assert(mb.v[y] == m.v[y]);
    assert(execute_spec(mb, ins_r, rnd).unwrap().v =~= execute_spec(m, ins_r, rnd).unwrap().v);
    assert(execute_spec(mb, ins_l, rnd).unwrap().v =~= execute_spec(m, ins_l, rnd).unwrap().v);
}

proof fn lemma_xor_twice(a: u8, b: u8)
    ensures
        (a ^ b) ^ b == a,
        (0u8 ^ b) & b == b,
{
    assert((a ^ b) ^ b == a) by (bit_vector);
    assert((0u8 ^ b) & b == b) by (bit_vector);
}

/// Drawing a sprite is undone by drawing it again at the same place.
pub proof fn lemma_draw_twice_restores(
    display: Seq<u8>,
    rows: Seq<u8>,
    count: int,
    x0: int,
    y0: int,
)
    ensures
        drawn(drawn(display, rows, count, x0, y0), rows, count, x0, y0) == display,
{
    let once = drawn(display, rows, count, x0, y0);
    assert forall|b: int|
        0 <= b < display.len() implies #[trigger] drawn(once, rows, count, x0, y0)[b]
        == display[b] by {
        lemma_xor_twice(display[b], draw_mask(rows, count, x0, y0, b));
    }
    assert(drawn(once, rows, count, x0, y0) =~= display);
}

/// On a blank display, drawing a sprite that reaches the display reports no
/// collision; drawing it again at once turns off every pixel the first draw
/// turned on, leaves the display blank, and reports a collision.
pub proof fn lemma_redraw_on_blank_display(m: Machine, x: usize, y: usize, n: u8, rnd: u8)
    requires
        m.wf(),
        x < 0xf,
        y < 0xf,
        n < 0x10,
        m.i + n <= RIP8_MEMORY_SIZE,
        forall|b: int| 0 <= b < m.display.len() ==> m.display[b] == 0,
        exists|b: int|
            0 <= b < m.display.len() && #[trigger] draw_mask(
                m.memory.subrange(m.i as int, m.i + n),
                n as int,
                m.v[x as int] as int,
                m.v[y as int] as int,
                b,
            ) != 0,
    ensures
        ({
            let ins = Instruction::Drw { x, y, n };
            let m1 = execute_spec(m, ins, rnd).unwrap();
            let m2 = execute_spec(m1, ins, rnd).unwrap();
            &&& m1.v[FLAG as int] == 0
            &&& m2.v[FLAG as int] == 1
            &&& m2.display == m.display
        }),
{
    let ins = Instruction::Drw { x, y, n };
    let rows = m.memory.subrange(m.i as int, m.i + n);
    let (x0, y0) = (m.v[x as int] as int, m.v[y as int] as int);
    let m1 = execute_spec(m, ins, rnd).unwrap();
    assert(m1.v[x as int] == m.v[x as int] && m1.v[y as int] == m.v[y as int]);
    if collides(m.display, rows, n as int, x0, y0) {
        let b = choose|b: int|
            0 <= b < m.display.len() && #[trigger] (m.display[b] & draw_mask(
                rows,
                n as int,
                x0,
                y0,
                b,
            )) != 0;
        let mask = draw_mask(rows, n as int, x0, y0, b);
        assert(0u8 & mask == 0) by (bit_vector);
    }
    let b = choose|b: int|
        0 <= b < m.display.len() && #[trigger] draw_mask(rows, n as int, x0, y0, b) != 0;
    lemma_xor_twice(0, draw_mask(rows, n as int, x0, y0, b));
    assert(m1.display[b] & draw_mask(rows, n as int, x0, y0, b) != 0);
    lemma_draw_twice_restores(m.display, rows, n as int, x0, y0);
}

/// A host event: a step after some elapsed time (with the random byte the
/// source would give), or a key reported down or up.
pub enum Event {
    Step { nanos: u64, rnd: u8 },
    Key { k: int, down: bool },
}

/// The state after the events `events`, in order.
pub open spec fn run_events(m: Machine, events: Seq<Event>) -> Machine
    decreases events.len(),
{
    if events.len() == 0 {
        m
    } else {
        let before = run_events(m, events.drop_last());
        match events.last() {
            Event::Step { nanos, rnd } => step_spec(before, nanos, rnd).0,
            Event::Key { k, down } => keydown_spec(before, k, down),
        }
    }
}

/// The elapsed times of the steps among `events`, in order.
pub open spec fn durations(events: Seq<Event>) -> Seq<u64>
    decreases events.len(),
{
    if events.len() == 0 {
        Seq::empty()
    } else {
        let before = durations(events.drop_last());
        match events.last() {
            Event::Step { nanos, .. } => before.push(nanos),
            Event::Key { .. } => before,
        }
    }
}

/// No event among `events` reports a key up.
pub open spec fn no_release(events: Seq<Event>) -> bool {
    forall|j: int|
        0 <= j < events.len() ==> !(#[trigger] events[j] matches Event::Key { down: false, .. })
}

/// While the machine waits for a key, steps and key presses do not resume
/// it: the program counter, registers, index register, memory, stack and
/// display stay as they are, whatever time passes. Only the timers move,
/// each falling by one per full sixtieth of a second of the total elapsed
/// time and stopping at zero.
pub proof fn lemma_wait_holds_until_release(m: Machine, events: Seq<Event>)
    requires
        m.wf(),
        m.awaiting_input,
        no_release(events),
    ensures
        ({
            let e = run_events(m, events);
            &&& e.wf()
            &&& e.awaiting_input
            &&& e.pc == m.pc
            &&& e.v == m.v
            &&& e.i == m.i
            &&& e.memory == m.memory
            &&& e.stack == m.stack
            &&& e.display == m.display
            &&& e.awaiter_index == m.awaiter_index
            &&& e.dt == count_down(m.dt, ticks_due(m.carry, total(durations(events))))
            &&& e.st == count_down(m.st, ticks_due(m.carry, total(durations(events))))
        }),
{
    lemma_wait_timers(m, events);
    lemma_timer_tracks_total_time(m.carry, m.dt, durations(events));
    lemma_timer_tracks_total_time(m.carry, m.st, durations(events));
}

proof fn lemma_wait_timers(m: Machine, events: Seq<Event>)
    requires
        m.wf(),
        m.awaiting_input,
        no_release(events),
    ensures
        ({
            let e = run_events(m, events);
            let d = durations(events);
            &&& e.wf()
            &&& e.awaiting_input
            &&& e.pc == m.pc
            &&& e.v == m.v
            &&& e.i == m.i
            &&& e.memory == m.memory
            &&& e.stack == m.stack
            &&& e.display == m.display
            &&& e.awaiter_index == m.awaiter_index
            &&& e.dt == timer_after_all(m.carry, m.dt, d)
            &&& e.st == timer_after_all(m.carry, m.st, d)
            &&& e.carry == carry_after_all(m.carry, d)
        }),
    decreases events.len(),
{
    if events.len() > 0 {
        let prefix = events.drop_last();
        assert forall|j: int|
            0 <= j < prefix.len() implies !(#[trigger] prefix[j] matches Event::Key {
                down: false,
                ..
            }) by {
            assert(prefix[j] == events[j]);
        }
        lemma_wait_timers(m, prefix);
        assert(!(events[events.len() - 1] matches Event::Key { down: false, .. }));
        let before = run_events(m, prefix);
        match events.last() {
            Event::Step { nanos, rnd } => {
                assert(durations(events).drop_last() =~= durations(prefix));
                assert(0 <= carry_after(before.carry, nanos as int) < tick_units());
            },
            Event::Key { k, down } => {},
        }
    }
}

/// A key that is down, reported up while the machine waits, ends the wait:
/// the waiting register receives the key's index, and the next step fetches
/// and executes the instruction after the wait.
pub proof fn lemma_release_resumes(m: Machine, k: int, nanos: u64, rnd: u8)
    requires
        m.wf(),
        m.awaiting_input,
        0 <= k < 0x10,
        m.keyboard[k],
    ensures
        ({
            let r = keydown_spec(m, k, false);
            &&& !r.awaiting_input
            &&& r.v[m.awaiter_index] == k
            &&& r.pc == m.pc
            &&& !advance_timers(r, nanos).awaiting_input
        }),
{
}

/// Every transition keeps the sizes and ranges of a well-formed state.
pub proof fn lemma_transitions_keep_wf(
    m: Machine,
    ins: Instruction,
    nanos: u64,
    rnd: u8,
    k: int,
    down: bool,
)
    requires
        m.wf(),
    ensures
        operands_in_range(ins) ==> (execute_spec(m, ins, rnd) matches Some(n) ==> n.wf()),
        step_spec(m, nanos, rnd).0.wf(),
        keydown_spec(m, k, down).wf(),
{
    let t = advance_timers(m, nanos);
    assert(0 <= carry_after(m.carry, nanos as int) < tick_units());
    assert(t.wf());
    if !t.awaiting_input && t.pc + 1 < RIP8_MEMORY_SIZE {
        lemma_decoded_operands_in_range(fetch_word(t));
    }
}

/// The step after `nanos` nanoseconds executes `Fx15`, which writes the
/// delay timer.
pub open spec fn step_sets_delay(m: Machine, nanos: u64) -> bool {
    let t = advance_timers(m, nanos);
    &&& !t.awaiting_input
    &&& t.pc + 1 < RIP8_MEMORY_SIZE
    &&& decode_spec(fetch_word(t)) matches Some(Instruction::LdDtVx { .. })
}

/// Event `j` of `events`, applied after the events before it, is a step
/// that writes the delay timer.
pub open spec fn sets_delay_at(m: Machine, events: Seq<Event>, j: int) -> bool {
    events[j] matches Event::Step { nanos, .. } && step_sets_delay(
        run_events(m, events.take(j)),
        nanos,
    )
}

/// Over any run of steps and key events in which no instruction writes the
/// delay timer, the timer falls by exactly one for each full sixtieth of a
/// second of the total elapsed time handed to the steps, however that time
/// is split between them, and stops at zero.
pub proof fn lemma_delay_timer_tracks_time(m: Machine, events: Seq<Event>)
    requires
        m.wf(),
        forall|j: int| 0 <= j < events.len() ==> !#[trigger] sets_delay_at(m, events, j),
    ensures
        run_events(m, events).dt == count_down(m.dt, ticks_due(m.carry, total(durations(events)))),
{
    lemma_delay_timer_steps(m, events);
    lemma_timer_tracks_total_time(m.carry, m.dt, durations(events));
}

proof fn lemma_delay_timer_steps(m: Machine, events: Seq<Event>)
    requires
        m.wf(),
        forall|j: int| 0 <= j < events.len() ==> !#[trigger] sets_delay_at(m, events, j),
    ensures
        ({
            let e = run_events(m, events);
            let d = durations(events);
            &&& e.wf()
            &&& e.dt == timer_after_all(m.carry, m.dt, d)
            &&& e.carry == carry_after_all(m.carry, d)
        }),
    decreases events.len(),
{
    if events.len() > 0 {
        let prefix = events.drop_last();
        assert forall|j: int|
            0 <= j < prefix.len() implies !#[trigger] sets_delay_at(m, prefix, j) by {
            assert(prefix.take(j) =~= events.take(j));
            assert(!sets_delay_at(m, events, j));
        }
        lemma_delay_timer_steps(m, prefix);
        let last = events.len() - 1;
        assert(events.take(last) =~= prefix);
        assert(!sets_delay_at(m, events, last));
        let before = run_events(m, prefix);
        match events.last() {
            Event::Step { nanos, rnd } => {
                lemma_transitions_keep_wf(before, Instruction::Cls, nanos, rnd, 0, false);
                assert(durations(events).drop_last() =~= durations(prefix));
                let t = advance_timers(before, nanos);
                if !t.awaiting_input && t.pc + 1 < RIP8_MEMORY_SIZE {
                    lemma_decoded_operands_in_range(fetch_word(t));
                }
            },
            Event::Key { k, down } => {
                lemma_transitions_keep_wf(before, Instruction::Cls, 0, 0, k, down);
            },
        }
    }
}

} // verus!
