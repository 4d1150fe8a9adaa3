//! What holds of time: what the clock counts, what a tick tells the engine, and what it sends again.
use crate::clock::{reading_at, shown, time_of};
use crate::delay::wait_of;
use crate::engine::{after_flush, after_send, after_update};
use crate::error::KcpError;
use crate::io::{reads, ticks, IoState};
use crate::protocol::{acknowledges, carries, holds, KcpState, SEQUENCE_LIMIT};
use crate::stream::writes_now;
use vstd::prelude::*;

verus! {

/// The nanoseconds since the epoch of a reading.
pub open spec fn nanos(reading: (i64, i32)) -> int {
    reading.0 * 1_000_000_000 + reading.1
}

/// The time of a reading is its count of whole milliseconds, in a number of 32 bits that goes round.
pub proof fn law_time_counts_milliseconds(reading: (i64, i32), count: int)
    requires
        0 <= reading.1 < 1_000_000_000,
        count * 1_000_000 <= nanos(reading) < (count + 1) * 1_000_000,
    ensures
        time_of(reading) == count % 0x1_0000_0000,
{
    let sub = reading.1 as int / 1_000_000;
    assert(count == reading.0 * 1000 + sub);
}

/// A tick hands the engine the time that the clock of the machine showed during the tick: the
/// engine's time is then the count of milliseconds of a reading that was made when the engine was as
/// the tick found it. Nothing that was buffered is touched.
pub proof fn law_tick_tells_the_time_of_the_clock(
    pre: IoState,
    reading: (i64, i32),
    post: IoState,
    count: int,
)
    requires
        ticks(pre, reading, post),
        count * 1_000_000 <= nanos(reading) < (count + 1) * 1_000_000,
    ensures
        call_ensures(reading_at, (&pre.kcp,), reading),
        shown(reading),
        0 <= reading.1 < 1_000_000_000,
        post.kcp@.current == count % 0x1_0000_0000,
        post.kcp == after_flush(after_update(pre.kcp, post.kcp@.current)),
        post.buffered == pre.buffered,
{
    law_time_counts_milliseconds(reading, count);
}

/// Between two ticks the time of the engine moves by what the clock moved, whatever is done in
/// between: by the milliseconds between the two readings.
pub proof fn law_time_moves_with_the_clock(
    pre: IoState,
    first: IoState,
    between: IoState,
    second: IoState,
    readings: ((i64, i32), (i64, i32)),
    from: int,
    to: int,
)
    requires
        ticks(pre, readings.0, first),
        ticks(between, readings.1, second),
        from * 1_000_000 <= nanos(readings.0) < (from + 1) * 1_000_000,
        to * 1_000_000 <= nanos(readings.1) < (to + 1) * 1_000_000,
    ensures
        (second.kcp@.current - first.kcp@.current) % 0x1_0000_0000 == (to - from) % 0x1_0000_0000,
{
    law_tick_tells_the_time_of_the_clock(pre, readings.0, first, from);
    law_tick_tells_the_time_of_the_clock(between, readings.1, second, to);
}

/// A lost segment is sent again: a tick sends every segment that is under way, not acknowledged, and
/// was to be sent again by the time that the clock shows. It goes to the peer, with the fragment
/// that its number stands for, and stays under way.
pub proof fn law_tick_sends_again(
    pre: IoState,
    reading: (i64, i32),
    post: IoState,
    count: int,
    number: u32,
)
    requires
        ticks(pre, reading, post),
        count * 1_000_000 <= nanos(reading) < (count + 1) * 1_000_000,
        pre.kcp@.due.dom().contains(number),
        (count - pre.kcp@.due[number]) % 0x1_0000_0000 < 0x8000_0000,
    ensures
        post.kcp@.due.dom().contains(number),
        exists|i: int|
            {
                &&& pre.kcp@.sent.len() <= i < post.kcp@.sent.len()
                &&& holds(pre.kcp@.conv, (#[trigger] post.kcp@.sent[i]).1, 0, number)
                &&& post.kcp@.sent[i].0 == pre.kcp@.peer
                &&& pre.kcp@.segments.len() < SEQUENCE_LIMIT ==> carries(
                    pre.kcp@.conv,
                    post.kcp@.sent[i].1,
                    0,
                    pre.kcp@.segments,
                )
            },
{
    law_tick_tells_the_time_of_the_clock(pre, reading, post, count);
    let now = time_of(reading);
    let due = pre.kcp@.due[number];
    assert((now - due) % 0x1_0000_0000 == (count - due) % 0x1_0000_0000);
    assert(pre.kcp@.due.dom().contains(number) && pre.kcp@.sent_since(post.kcp@, number));
    let i = choose|i: int|
        pre.kcp@.sent.len() <= i < post.kcp@.sent.len() && holds(
            pre.kcp@.conv,
            #[trigger] post.kcp@.sent[i].1,
            0,
            number,
        );
    assert(pre.kcp@.sends(post.kcp@.sent[i]));
}

/// A segment that gets under way goes out at once, and one that is to be sent again at another time
/// was sent.
pub proof fn law_under_way_was_sent(pre: KcpState, post: KcpState, number: u32)
    requires
        pre.pushed_out(post),
        post.due.dom().contains(number),
        !pre.due.dom().contains(number) || pre.due[number] != post.due[number],
    ensures
        exists|i: int|
            pre.sent.len() <= i < post.sent.len() && holds(
                pre.conv,
                (#[trigger] post.sent[i]).1,
                0,
                number,
            ),
{
    assert(pre.sent_since(post, number));
    let i = choose|i: int|
        pre.sent.len() <= i < post.sent.len() && holds(
            pre.conv,
            #[trigger] post.sent[i].1,
            0,
            number,
        );
    assert(holds(pre.conv, post.sent[i].1, 0, number));
}

/// One step of an end during which the segment of this number is not acknowledged: a message is
/// written, something is sent, a read is made, or a datagram comes in that does not say that the
/// segment came.
pub open spec fn unacknowledged_step(pre: IoState, post: IoState, number: u32) -> bool {
    ||| exists|data: Seq<u8>| post.kcp@ == #[trigger] pre.kcp@.with_message(data)
    ||| pre.kcp@.pushed_out(post.kcp@)
    ||| exists|buf: Seq<u8>, r: Result<usize, KcpError>, out: Seq<u8>| #[trigger]
        reads(pre, buf, r, post, out)
    ||| exists|data: Seq<u8>| #[trigger]
        pre.kcp@.acknowledged(data, post.kcp@) && !acknowledges(pre.kcp@.conv, data, 0, number)
}

/// Whether such a step leads from the `i`-th state to the next.
pub open spec fn unacknowledged_still(run: Seq<IoState>, i: int, number: u32) -> bool {
    unacknowledged_step(run[i], run[i + 1], number)
}

/// A segment stays under way until it is acknowledged, so that every tick after its time sends it
/// again.
pub proof fn law_unacknowledged_segment_stays(run: Seq<IoState>, number: u32, t: int)
    requires
        0 <= t < run.len(),
        run[0].kcp@.due.dom().contains(number),
        forall|i: int|
            0 <= i < run.len() - 1 ==> #[trigger] unacknowledged_still(run, i, number),
    ensures
        run[t].kcp@.due.dom().contains(number),
    decreases t,
{
    if t > 0 {
        law_unacknowledged_segment_stays(run, number, t - 1);
        let pre = run[t - 1];
        let post = run[t];
        assert(unacknowledged_still(run, t - 1, number));
        if pre.kcp@.pushed_out(post.kcp@) {
            assert(pre.kcp@.due.dom().subset_of(post.kcp@.due.dom()));
        }
    }
}

/// A write that takes its time from the clock tells the engine the time that the clock showed when the
/// message was in the send queue.
pub proof fn law_write_tells_the_time_of_the_clock(
    pre: IoState,
    data: Seq<u8>,
    reading: (i64, i32),
    n: usize,
    post: IoState,
    count: int,
)
    requires
        writes_now(pre, data, reading, Ok(n), post),
        count * 1_000_000 <= nanos(reading) < (count + 1) * 1_000_000,
    ensures
        call_ensures(reading_at, (&after_send(pre.kcp, data),), reading),
        shown(reading),
        post.kcp@.current == count % 0x1_0000_0000,
        post.kcp == after_flush(after_update(after_send(pre.kcp, data), post.kcp@.current)),
{
    law_time_counts_milliseconds(reading, count);
}

/// Waits are the numbers below 10, and all equally likely where the numbers drawn are: the wait moves
/// on by one with the number, and starts again after ten.
pub proof fn law_waits_go_round(number: u64)
    ensures
        wait_of(number) < 10,
        wait_of(0) == 0,
        number < u64::MAX ==> wait_of((number + 1) as u64) == (wait_of(number) + 1) % 10,
{
}

} // verus!
