use vstd::prelude::*;
use vstd::arithmetic::div_mod::{lemma_fundamental_div_mod, lemma_fundamental_div_mod_converse};

verus! {

/// Nanoseconds in a second.
pub const NANOS_PER_SECOND: u64 = 1_000_000_000;

/// Timer ticks in a second: both timers count down at 60 Hz.
pub const TICKS_PER_SECOND: u64 = 60;

/// Elapsed time is kept in sixtieths of a nanosecond, so that one tick, a
/// sixtieth of a second, is exactly this many units.
pub open spec fn tick_units() -> int {
    NANOS_PER_SECOND as int
}

/// Ticks that fall due when `nanos` nanoseconds pass on top of `carry` units
/// left over from earlier calls.
pub open spec fn ticks_due(carry: int, nanos: int) -> int {
    (carry + TICKS_PER_SECOND * nanos) / tick_units()
}

/// Units left over, short of a full tick, after `nanos` more nanoseconds.
pub open spec fn carry_after(carry: int, nanos: int) -> int {
    (carry + TICKS_PER_SECOND * nanos) % tick_units()
}

/// A timer after `ticks` ticks: one less per tick, never below zero.
pub open spec fn count_down(t: u8, ticks: int) -> u8 {
    if ticks >= t {
        0
    } else {
        (t - ticks) as u8
    }
}

/// Sum of a sequence of durations.
pub open spec fn total(deltas: Seq<u64>) -> int
    decreases deltas.len(),
{
    if deltas.len() == 0 {
        0
    } else {
        total(deltas.drop_last()) + deltas.last()
    }
}

/// The leftover units after the durations `deltas` pass one call at a time.
pub open spec fn carry_after_all(carry: int, deltas: Seq<u64>) -> int
    decreases deltas.len(),
{
    if deltas.len() == 0 {
        carry
    } else {
        carry_after(carry_after_all(carry, deltas.drop_last()), deltas.last() as int)
    }
}

/// A timer after the durations `deltas` pass one call at a time, each call
/// turning what has accumulated into ticks.
pub open spec fn timer_after_all(carry: int, t: u8, deltas: Seq<u64>) -> u8
    decreases deltas.len(),
{
    if deltas.len() == 0 {
        t
    } else {
        let prefix = deltas.drop_last();
        count_down(
            timer_after_all(carry, t, prefix),
            ticks_due(carry_after_all(carry, prefix), deltas.last() as int),
        )
    }
}

/// Counting time in pieces ticks as often as counting it in one piece: a
/// timer falls by exactly one for each full sixtieth of a second in the sum
/// of the durations, and stops at zero however much time passes.
pub proof fn lemma_timer_tracks_total_time(carry: int, t: u8, deltas: Seq<u64>)
    requires
        0 <= carry < tick_units(),
    ensures
        total(deltas) >= 0,
        carry_after_all(carry, deltas) == carry_after(carry, total(deltas)),
        timer_after_all(carry, t, deltas) == count_down(t, ticks_due(carry, total(deltas))),
    decreases deltas.len(),
{
    if deltas.len() > 0 {
        let prefix = deltas.drop_last();
        lemma_timer_tracks_total_time(carry, t, prefix);
        let n = tick_units();
        let x = carry + TICKS_PER_SECOND * total(prefix);
        let y = TICKS_PER_SECOND * deltas.last();
        lemma_fundamental_div_mod(x, n);
        let q = x / n + (x % n + y) / n;
        let r = (x % n + y) % n;
        lemma_fundamental_div_mod(x % n + y, n);
        assert(x + y == q * n + r) by (nonlinear_arith)
            requires
                x == n * (x / n) + x % n,
                x % n + y == n * ((x % n + y) / n) + (x % n + y) % n,
                q == x / n + (x % n + y) / n,
                r == (x % n + y) % n,
        ;
        lemma_fundamental_div_mod_converse(x + y, n, q, r);
        assert(x / n >= 0) by (nonlinear_arith)
            requires
                x >= 0,
                n > 0,
        ;
        assert(x + y == carry + TICKS_PER_SECOND * total(deltas));
    }
}

/// Turns `nanos` more nanoseconds on top of `carry` units into whole ticks
/// and the units left over.
pub fn advance(carry: u64, nanos: u64) -> (r: (u64, u64))
    requires
        carry < NANOS_PER_SECOND,
    ensures
        r.0 == ticks_due(carry as int, nanos as int),
        r.1 == carry_after(carry as int, nanos as int),
        r.1 < NANOS_PER_SECOND,
{
    let per_second: u128 = TICKS_PER_SECOND as u128;
    let wide: u128 = nanos as u128;
    assert(per_second * wide <= 60 * 0xffff_ffff_ffff_ffff) by (nonlinear_arith)
        requires
            per_second == 60,
            wide <= 0xffff_ffff_ffff_ffff,
    ;
    let sum: u128 = carry as u128 + per_second * wide;
    let units: u128 = NANOS_PER_SECOND as u128;
    assert(sum / units < 0x1_0000_0000_0000_0000) by (nonlinear_arith)
        requires
            sum <= 1_000_000_000 + 60 * 0xffff_ffff_ffff_ffff,
            units == 1_000_000_000,
    ;
    ((sum / units) as u64, (sum % units) as u64)
}

/// A timer after `ticks` ticks, stopping at zero.
pub fn count_down_by(t: u8, ticks: u64) -> (r: u8)
    ensures
        r == count_down(t, ticks as int),
{
    if ticks >= t as u64 {
        0
    } else {
        t - ticks as u8
    }
}

} // verus!
