//! The time, as the engine wants it.
use crate::engine::Kcp;
use vstd::prelude::*;

verus! {

/// The whole milliseconds since the epoch of a point in time.
pub open spec fn millis(sec: int, nsec: int) -> int {
    sec * 1000 + nsec / 1_000_000
}

/// Calls `time::get_time` and takes its seconds and nanoseconds.
///
/// Believed: the nanoseconds are part of a second. Which time it is depends on the machine and is
/// not said.
#[verifier::external_body]
fn get_time() -> (r: (i64, i32))
    ensures
        0 <= r.1 < 1_000_000_000,
{
    let timespec = time::get_time();
    (timespec.sec, timespec.nsec)
}

/// Whether this, seconds and nanoseconds, is what a call of `get_time` gave: no other value is known to
/// be.
pub closed spec fn shown(reading: (i64, i32)) -> bool {
    call_ensures(get_time, (), reading)
}

/// What calling `f` gives.
fn called<F: Fn() -> (i64, i32)>(f: F) -> (r: (i64, i32))
    requires
        f.requires(()),
    ensures
        f.ensures((), r),
{
    f()
}

/// Reads the clock of the machine while the engine is as it is. The engine is not looked at: it says
/// when the clock was read.
pub fn reading_at(_kcp: &Kcp) -> (reading: (i64, i32))
    ensures
        shown(reading),
        0 <= reading.1 < 1_000_000_000,
{
    called(get_time)
}

/// Whether the clock showed this when it was read while the engine was `kcp`: no other value is known
/// to have been shown then.
pub open spec fn read_at(kcp: Kcp, reading: (i64, i32)) -> bool {
    call_ensures(reading_at, (&kcp,), reading)
}

/// What calling `f` on an engine gives.
fn called_at<F: Fn(&Kcp) -> (i64, i32)>(f: F, kcp: &Kcp) -> (r: (i64, i32))
    requires
        f.requires((kcp,)),
    ensures
        f.ensures((kcp,), r),
{
    f(kcp)
}

/// The time now, for an engine.
pub fn clock_for(kcp: &Kcp) -> (now: u32)
    ensures
        exists|reading: (i64, i32)| #[trigger] read_at(*kcp, reading) && now == time_of(reading),
{
    let r = called_at(reading_at, kcp);
    assert(read_at(*kcp, r));
    clock_at(r.0, r.1)
}

/// The time that a reading stands for: its milliseconds, as a 32-bit number that goes round.
pub open spec fn time_of(reading: (i64, i32)) -> u32 {
    (millis(reading.0 as int, reading.1 as int) % 0x1_0000_0000) as u32
}

/// The milliseconds of a point in time, as a 32-bit number that goes round.
pub fn clock_at(sec: i64, nsec: i32) -> (now: u32)
    requires
        0 <= nsec < 1_000_000_000,
    ensures
        now == millis(sec as int, nsec as int) % 0x1_0000_0000,
        now == time_of((sec, nsec)),
{
    let mills: i128 = sec as i128 * 1000 + (nsec / 1000 / 1000) as i128;
    proof {
        assert(#[verifier::truncate] (mills as u32) == mills % 0x1_0000_0000) by (bit_vector);
    }
    #[verifier::truncate] (mills as u32)
}

/// The time now.
pub fn clock() -> (now: u32)
    ensures
        exists|sec: i64, nsec: i32|
            0 <= nsec < 1_000_000_000 && now == #[trigger] millis(sec as int, nsec as int)
                % 0x1_0000_0000,
        exists|r: (i64, i32)| #[trigger] shown(r) && 0 <= r.1 < 1_000_000_000 && now == time_of(r),
{
    let r = called(get_time);
    assert(shown(r));
    clock_at(r.0, r.1)
}

} // verus!
