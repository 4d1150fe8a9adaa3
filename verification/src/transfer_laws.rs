//! What holds of reads, writes and new connections, in terms of the bytes that go in and come out.
use crate::console::{chunk_of, role_of};
use crate::datagram::{le_u32, PeerAddr, UdpDatagram};
use crate::engine::{after_flush, after_input, after_recv};
use crate::error::{carried, io_kind, reported, IoKind, KcpError};
use crate::io::{
    consumes, fills, flushes, queues, reads, room_for, takes_in, IoState, TICK_MILLIS,
};
use crate::listener::CHANNEL_CAPACITY;
use crate::output::{emits, made_for, KcpOutput};
use crate::protocol::{
    holds, joined, lemma_joined_concat, lemma_joined_prefix, lemma_pieces_joined, message_count,
    not_before, payload_len, pieces, segment_error, segments_result, tuned_state, Fragment, KcpState,
    HEADER_LEN,
};
use crate::stream::{connected, read_steps, writes, KcpStream, Polled, ReadStep};
use futures::sync::mpsc::UnboundedSender;
use vstd::arithmetic::power2::{lemma_pow2_unfold, pow2};
use vstd::prelude::*;

verus! {

/// The smaller of two lengths.
pub open spec fn shorter(a: nat, b: nat) -> nat {
    if a <= b {
        a
    } else {
        b
    }
}

/// A read with a rest buffered gives the first bytes of the rest, as many as there are or as `buf`
/// has room for. The others stay, in their order, and the engine is left alone. So a read into a
/// buffer that is not empty gives at least one byte, and takes away from the rest what it gives.
pub proof fn law_read_gives_the_rest(
    pre: IoState,
    buf: Seq<u8>,
    r: Result<usize, KcpError>,
    post: IoState,
    out: Seq<u8>,
)
    requires
        reads(pre, buf, r, post, out),
        pre.buffered.len() > 0,
    ensures
        r matches Ok(n) && {
            &&& n == shorter(pre.buffered.len(), buf.len())
            &&& buf.len() > 0 ==> n > 0
            &&& out.len() == buf.len()
            &&& forall|i: int| 0 <= i < n ==> #[trigger] out[i] == pre.buffered[i]
            &&& forall|i: int| n <= i < buf.len() ==> #[trigger] out[i] == buf[i]
            &&& post.buffered == pre.buffered.skip(n as int)
            &&& post.kcp == pre.kcp
        },
{
    assert(post.buffered =~= pre.buffered.skip(shorter(pre.buffered.len(), buf.len()) as int));
}

/// A read with nothing buffered gives the first bytes of the message in front of the receive queue, as
/// many as it has or as `buf` has room for. The message leaves the queue, and what of it was not
/// given is buffered.
pub proof fn law_read_gives_the_next_message(
    pre: IoState,
    buf: Seq<u8>,
    n: usize,
    post: IoState,
    out: Seq<u8>,
)
    requires
        reads(pre, buf, Ok(n), post, out),
        pre.buffered.len() == 0,
    ensures
        ({
            let count = message_count(pre.kcp@.queue) as int;
            let message = joined(pre.kcp@.queue.take(count));
            &&& 0 < count <= pre.kcp@.queue.len()
            &&& n == shorter(message.len(), buf.len())
            &&& out == message.take(n as int) + buf.skip(n as int)
            &&& post.buffered == message.skip(n as int)
            &&& post.kcp@.taken == pre.kcp@.taken + pre.kcp@.queue.take(count)
            &&& pre.kcp@.queue.skip(count).is_prefix_of(post.kcp@.queue)
        }),
{
    pre.kcp@.lemma_next();
    let message = joined(pre.kcp@.queue.take(pre.kcp@.next_count()));
    assert(pre.unread() =~= pre.kcp@.received());
    assert(pre.unread().take(n as int) =~= message.take(n as int));
    assert(out =~= message.take(n as int) + buf.skip(n as int));
    assert(post.buffered =~= message.skip(n as int));
}

/// A read fails only where nothing is buffered and no whole message is there: the receive queue is
/// empty, or has fewer fragments than the first one announces. Nothing changes then.
pub proof fn law_read_fails_without_a_message(
    pre: IoState,
    buf: Seq<u8>,
    r: Result<usize, KcpError>,
    post: IoState,
    out: Seq<u8>,
)
    requires
        reads(pre, buf, r, post, out),
    ensures
        ({
            let queue = pre.kcp@.queue;
            let part = queue.len() < (queue[0].left + 1) % 256;
            &&& r is Err <==> pre.buffered.len() == 0 && (queue.len() == 0 || part)
            &&& r matches Err(e) ==> {
                &&& e is RecvQueueEmpty <==> queue.len() == 0
                &&& e is ExpectingFragment <==> queue.len() > 0
                &&& post == pre
                &&& out == buf
            }
        }),
{
}

/// A rest is used up: where reads into buffers that are not empty follow each other, there is a time
/// at which they have given the whole rest, byte after byte, and it comes after no more reads
/// than the rest has bytes.
pub proof fn law_reads_use_up_the_rest(
    run: Seq<IoState>,
    bufs: Seq<Seq<u8>>,
    results: Seq<Result<usize, KcpError>>,
    outs: Seq<Seq<u8>>,
    from: nat,
) -> (till: nat)
    requires
        run.len() == bufs.len() + 1,
        results.len() == bufs.len(),
        outs.len() == bufs.len(),
        from <= bufs.len(),
        forall|t: int|
            0 <= t < bufs.len() ==> reads(
                run[t],
                #[trigger] bufs[t],
                results[t],
                run[t + 1],
                outs[t],
            ),
        forall|t: int| 0 <= t < bufs.len() ==> (#[trigger] bufs[t]).len() > 0,
        from + run[from as int].buffered.len() <= bufs.len(),
    ensures
        from <= till <= from + run[from as int].buffered.len(),
        run[till as int].buffered.len() == 0,
        read_between(results, outs, from, till) == run[from as int].buffered,
    decreases run[from as int].buffered.len(),
{
    let pre = run[from as int];
    if pre.buffered.len() == 0 {
        assert(read_between(results, outs, from, from) =~= pre.buffered);
        from
    } else {
        let t = from as int;
        assert(reads(run[t], bufs[t], results[t], run[t + 1], outs[t]));
        assert(bufs[t].len() > 0);
        law_read_gives_the_rest(run[t], bufs[t], results[t], run[t + 1], outs[t]);
        let till = law_reads_use_up_the_rest(run, bufs, results, outs, from + 1);
        let n = results[t]->Ok_0 as int;
        assert(outs[t].take(n) =~= pre.buffered.take(n));
        assert(pre.buffered.take(n) + pre.buffered.skip(n) =~= pre.buffered);
        till
    }
}

/// The bytes that the reads from one to another gave.
pub open spec fn read_between(
    results: Seq<Result<usize, KcpError>>,
    outs: Seq<Seq<u8>>,
    from: nat,
    till: nat,
) -> Seq<u8>
    decreases till - from,
{
    if from >= till {
        Seq::empty()
    } else {
        let rest = read_between(results, outs, from + 1, till);
        match results[from as int] {
            Ok(n) => outs[from as int].take(n as int) + rest,
            Err(_) => rest,
        }
    }
}

/// Filling the buffer gives what is buffered where something is, else the whole message in front of the
/// receive queue, and nothing but that; without such a message nothing changes.
pub proof fn law_fill_gives_one_message(pre: IoState)
    ensures
        ({
            let queue = pre.kcp@.queue;
            let part = queue.len() > 0 && queue.len() < (queue[0].left + 1) % 256;
            if pre.buffered.len() > 0 {
                pre.filled() == pre && pre.fill_error() is None
            } else if queue.len() == 0 {
                pre.filled() == pre && pre.fill_error() == Some(KcpError::RecvQueueEmpty)
            } else if part {
                pre.filled() == pre && pre.fill_error() == Some(KcpError::ExpectingFragment)
            } else {
                &&& pre.fill_error() is None
                &&& pre.filled().kcp == after_recv(pre.kcp)
                &&& pre.filled().buffered == joined(queue.take(message_count(queue) as int))
            }
        }),
{
    pre.kcp@.lemma_next();
}

/// What filling gives is all that is buffered, or all of the message in front of the receive queue, and
/// it stays buffered until it is read.
pub proof fn law_fill_gives_all_of_it(
    pre: IoState,
    r: Result<Seq<u8>, KcpError>,
    post: IoState,
)
    requires
        fills(pre, r, post),
    ensures
        r matches Ok(bytes) ==> {
            &&& post.buffered == bytes
            &&& pre.buffered.len() > 0 ==> bytes == pre.buffered && post.kcp == pre.kcp
            &&& pre.buffered.len() == 0 ==> bytes == joined(
                pre.kcp@.queue.take(message_count(pre.kcp@.queue) as int),
            )
        },
        r is Err ==> post == pre && pre.buffered.len() == 0,
{
    law_fill_gives_one_message(pre);
}

/// Marking bytes as read takes them from the front of what is buffered, as many as asked or as there
/// are, and keeps the others in their order.
pub proof fn law_consume_takes_from_the_front(pre: IoState, amt: usize, post: IoState)
    requires
        consumes(pre, amt, post),
    ensures
        post.kcp == pre.kcp,
        post.buffered.len() == pre.buffered.len() - shorter(amt as nat, pre.buffered.len()),
        forall|i: int|
            0 <= i < post.buffered.len() ==> #[trigger] post.buffered[i] == pre.buffered[i + shorter(
                amt as nat,
                pre.buffered.len(),
            )],
{
}

/// Taking in a datagram leaves what is buffered alone and hands the engine all its bytes.
pub proof fn law_input_reaches_the_engine(pre: IoState, data: Seq<u8>)
    ensures
        pre.taken_in(data).buffered == pre.buffered,
        pre.taken_in(data).kcp == after_input(pre.kcp, data),
{
}

/// A datagram that is taken in is read to its end: what is returned is a place behind a segment with
/// less than a header left. One that is refused is too short for a header, or holds a segment of
/// another conversation, one that is cut off, or one with an unknown command.
pub proof fn law_input_reads_to_the_end(
    pre: IoState,
    data: Seq<u8>,
    r: Result<usize, KcpError>,
    post: IoState,
)
    requires
        takes_in(pre, data, r, post),
        data.len() <= usize::MAX,
    ensures
        match r {
            Ok(n) => 24 <= n <= data.len() < n + 24,
            Err(e) => {
                ||| e is InvalidSegmentSize && data.len() < 24
                ||| e is ConvInconsistent
                ||| e is InvalidSegmentDataSize
                ||| e is UnsupportedCmd
            },
        },
        data.len() < 24 ==> r is Err && post == pre,
        post.buffered == pre.buffered,
        data.len() >= 24 && le_u32(data) == pre.kcp@.conv ==> !(r matches Err(
            KcpError::InvalidSegmentSize(_),
        )),
        data.len() >= 24 && le_u32(data) != pre.kcp@.conv ==> r == Err::<usize, _>(
            KcpError::ConvInconsistent(pre.kcp@.conv, le_u32(data) as u32),
        ) && post == pre,
{
    if data.len() >= 24 {
        let head = data.subrange(0, 4);
        assert(head[0] == data[0] && head[1] == data[1] && head[2] == data[2] && head[3]
            == data[3]);
        lemma_segments_end(pre.kcp@.conv, data, 0);
    }
}

/// Reading segments ends behind the last one, or with one that is refused.
proof fn lemma_segments_end(conv: u32, data: Seq<u8>, at: int)
    requires
        0 <= at <= data.len() <= usize::MAX,
    ensures
        match segments_result(conv, data, at) {
            Ok(n) => at <= n <= data.len() < n + 24 && (data.len() - at >= 24 ==> n >= at + 24),
            Err(e) => e is ConvInconsistent || e is InvalidSegmentDataSize || e is UnsupportedCmd,
        },
    decreases data.len() - at,
{
    if data.len() - at >= HEADER_LEN && segment_error(conv, data, at) is None {
        lemma_segments_end(conv, data, at + HEADER_LEN + payload_len(data, at));
    }
}

/// Sending what is due needs an engine that knows the time; it touches nothing that was buffered, and
/// sends what was to be sent again by the time that the engine was told last.
pub proof fn law_flush_needs_the_time(
    pre: IoState,
    r: Result<(), KcpError>,
    post: IoState,
    number: u32,
)
    requires
        flushes(pre, r, post),
    ensures
        r is Ok <==> pre.kcp@.updated,
        r is Err ==> post == pre && r->Err_0 is NeedUpdate,
        r is Ok ==> {
            &&& post.kcp == after_flush(pre.kcp)
            &&& post.buffered == pre.buffered
            &&& post.kcp@.current == pre.kcp@.current
        },
        r is Ok && pre.kcp@.due.dom().contains(number) && (pre.kcp@.current
            - pre.kcp@.due[number]) % 0x1_0000_0000 < 0x8000_0000 ==> exists|i: int|
            pre.kcp@.sent.len() <= i < post.kcp@.sent.len() && holds(
                pre.kcp@.conv,
                (#[trigger] post.kcp@.sent[i]).1,
                0,
                number,
            ),
{
    if r is Ok && pre.kcp@.due.dom().contains(number) && not_before(
        pre.kcp@.current,
        pre.kcp@.due[number],
    ) {
        assert(pre.kcp@.sent_since(post.kcp@, number));
        let i = choose|i: int|
            pre.kcp@.sent.len() <= i < post.kcp@.sent.len() && holds(
                pre.kcp@.conv,
                #[trigger] post.kcp@.sent[i].1,
                0,
                number,
            );
        assert(holds(pre.kcp@.conv, post.kcp@.sent[i].1, 0, number));
    }
}

/// A step of a stream's read with a rest buffered gives the first bytes of that rest, whatever
/// datagram came, and keeps the others.
pub proof fn law_step_gives_the_rest(
    pre: IoState,
    data: Vec<u8>,
    buf: Seq<u8>,
    step: ReadStep,
    post: IoState,
    out: Seq<u8>,
)
    requires
        read_steps(pre, Polled::Datagram(data), buf, step, post, out),
        pre.buffered.len() > 0,
    ensures
        step matches ReadStep::Done(n) && {
            &&& n == shorter(pre.buffered.len(), buf.len())
            &&& out == pre.buffered.take(n as int) + buf.skip(n as int)
            &&& post.buffered == pre.buffered.skip(n as int)
            &&& post.kcp@.taken == pre.kcp@.taken
            &&& post.kcp == after_input(pre.kcp, data@)
        },
{
    let mid = pre.taken_in(data@);
    law_fill_gives_one_message(mid);
    let n = step->Done_0;
    law_read_gives_the_rest(mid, buf, Ok(n), post, out);
    assert(out =~= pre.buffered.take(n as int) + buf.skip(n as int));
}

/// A step that gives nothing leaves the reader's buffer alone and nothing buffered. Without a datagram
/// the read would block and nothing changes; with one it asks for the next, and the engine, which has
/// taken it in, has no whole message.
pub proof fn law_step_gives_nothing_without_a_message(
    pre: IoState,
    polled: Polled,
    buf: Seq<u8>,
    step: ReadStep,
    post: IoState,
    out: Seq<u8>,
)
    requires
        read_steps(pre, polled, buf, step, post, out),
    ensures
        step is WouldBlock <==> polled is Nothing,
        step is WouldBlock ==> post == pre && out == buf,
        step is Again ==> {
            let queue = post.kcp@.queue;
            &&& out == buf
            &&& pre.buffered.len() == 0
            &&& post.buffered == pre.buffered
            &&& post.kcp@.taken == pre.kcp@.taken
            &&& queue.len() == 0 || queue.len() < (queue[0].left + 1) % 256
            &&& polled matches Polled::Datagram(data) && post.kcp == after_input(pre.kcp, data@)
        },
{
}

/// What is done with a stream: a step of a read, with the datagram that came, what the step was and
/// what became of the reader's buffer, or something that neither takes messages out nor touches the
/// buffered rest: writing and ticking.
pub enum StreamStep {
    /// A step of a read.
    Read {
        /// What asking for a datagram gave.
        polled: Polled,
        /// The reader's buffer.
        buf: Seq<u8>,
        /// What the read does next.
        step: ReadStep,
        /// The reader's buffer afterwards.
        out: Seq<u8>,
    },
    /// Anything that leaves alone what was taken out and what of it is not read.
    Other,
}

impl StreamStep {
    /// The bytes that the step gave its caller.
    pub open spec fn gave(self) -> Seq<u8> {
        match self {
            StreamStep::Read { step: ReadStep::Done(n), out, .. } => out.take(n as int),
            _ => Seq::empty(),
        }
    }
}

/// Whether a step leads from `pre` to `post`.
pub open spec fn stream_step(pre: IoState, step: StreamStep, post: IoState) -> bool {
    match step {
        StreamStep::Read { polled, buf, step, out } => read_steps(
            pre,
            polled,
            buf,
            step,
            post,
            out,
        ),
        StreamStep::Other => post.kcp@.taken == pre.kcp@.taken && post.buffered == pre.buffered,
    }
}

/// Whether the steps lead from state to state.
pub open spec fn stream_run(run: Seq<IoState>, steps: Seq<StreamStep>) -> bool {
    &&& run.len() == steps.len() + 1
    &&& forall|t: int|
        0 <= t < steps.len() ==> stream_step(run[t], #[trigger] steps[t], run[t + 1])
}

/// All bytes that the first `t` steps gave their callers.
pub open spec fn streamed(steps: Seq<StreamStep>, t: nat) -> Seq<u8>
    decreases t,
{
    if t == 0 {
        Seq::empty()
    } else {
        streamed(steps, (t - 1) as nat) + steps[t - 1].gave()
    }
}

/// What one step of a stream gives, then what it leaves buffered, is what was buffered, then what it
/// took out of the engine.
proof fn lemma_stream_goes_on(pre: IoState, step: StreamStep, post: IoState)
    requires
        stream_step(pre, step, post),
    ensures
        pre.kcp@.taken.is_prefix_of(post.kcp@.taken),
        step.gave() + post.buffered == pre.buffered + joined(
            post.kcp@.taken.skip(pre.kcp@.taken.len() as int),
        ),
{
    let more = post.kcp@.taken.skip(pre.kcp@.taken.len() as int);
    if post.kcp@.taken == pre.kcp@.taken {
        assert(more =~= Seq::empty());
        assert(pre.kcp@.taken =~= post.kcp@.taken.subrange(0, pre.kcp@.taken.len() as int));
    }
    match step {
        StreamStep::Read { polled: Polled::Datagram(data), buf, step: next, out } => {
            let mid = pre.taken_in(data@);
            law_fill_gives_one_message(mid);
            match next {
                ReadStep::Done(n) => {
                    if pre.buffered.len() > 0 {
                        law_step_gives_the_rest(pre, data, buf, next, post, out);
                        assert(step.gave() =~= pre.buffered.take(n as int));
                        assert(step.gave() + post.buffered =~= pre.buffered + joined(more));
                    } else {
                        law_read_gives_the_next_message(mid, buf, n, post, out);
                        let count = message_count(mid.kcp@.queue) as int;
                        assert(more =~= mid.kcp@.queue.take(count));
                        assert(pre.kcp@.taken =~= post.kcp@.taken.subrange(
                            0,
                            pre.kcp@.taken.len() as int,
                        ));
                        assert(step.gave() =~= joined(more).take(n as int));
                        assert(step.gave() + post.buffered =~= pre.buffered + joined(more));
                    }
                },
                _ => {
                    assert(step.gave() + post.buffered =~= pre.buffered + joined(more));
                },
            }
        },
        _ => {
            assert(step.gave() + post.buffered =~= pre.buffered + joined(more));
        },
    }
}

/// Reads on a stream lose nothing: over any run of them, with any datagrams and buffers and with
/// writes and ticks between, the bytes given to the callers, then those that are still buffered,
/// are those that were buffered at first, then those of all fragments that were taken out of the
/// engine, in their order.
pub proof fn law_stream_reads_lose_nothing(run: Seq<IoState>, steps: Seq<StreamStep>, t: nat)
    requires
        stream_run(run, steps),
        t <= steps.len(),
    ensures
        run[0].kcp@.taken.is_prefix_of(run[t as int].kcp@.taken),
        streamed(steps, t) + run[t as int].buffered == run[0].buffered + joined(
            run[t as int].kcp@.taken.skip(run[0].kcp@.taken.len() as int),
        ),
    decreases t,
{
    let first = run[0].kcp@.taken;
    let start = first.len() as int;
    if t == 0 {
        assert(first =~= first.subrange(0, start));
        assert(first.skip(start) =~= Seq::empty());
        assert(streamed(steps, t) + run[0].buffered =~= run[0].buffered + joined(first.skip(start)));
    } else {
        let i = t - 1;
        let pre = run[i].kcp@.taken;
        let post = run[t as int].kcp@.taken;
        law_stream_reads_lose_nothing(run, steps, i as nat);
        assert(stream_step(run[i], steps[i], run[i + 1]));
        lemma_stream_goes_on(run[i], steps[i], run[t as int]);
        let more = post.skip(pre.len() as int);
        assert forall|j: int| 0 <= j < pre.len() implies pre[j] == post[j] by {
            assert(pre[j] == post.subrange(0, pre.len() as int)[j]);
        }
        assert forall|j: int| 0 <= j < start implies first[j] == post[j] by {
            assert(first[j] == pre.subrange(0, start)[j]);
        }
        assert(first =~= post.subrange(0, start));
        assert(post.skip(start) =~= pre.skip(start) + more);
        lemma_joined_concat(pre.skip(start), more);
        let so_far = streamed(steps, i as nat);
        assert(so_far + steps[i].gave() + run[t as int].buffered =~= so_far + (steps[i].gave()
            + run[t as int].buffered));
        assert(so_far + (run[i].buffered + joined(more)) =~= (so_far + run[i].buffered) + joined(
            more,
        ));
        assert(run[0].buffered + joined(pre.skip(start)) + joined(more) =~= run[0].buffered + (
        joined(pre.skip(start)) + joined(more)));
    }
}

/// What was read from a new stream is the beginning of what the other end wrote, byte for byte, where
/// what came in agrees with its segments.
pub proof fn law_stream_reads_what_was_written(
    run: Seq<IoState>,
    steps: Seq<StreamStep>,
    t: nat,
    segments: Seq<Fragment>,
)
    requires
        stream_run(run, steps),
        t <= steps.len(),
        run[0].kcp@.taken.len() == 0,
        run[0].buffered.len() == 0,
        run[t as int].kcp@.agrees(segments),
    ensures
        streamed(steps, t).is_prefix_of(joined(segments)),
{
    law_stream_reads_lose_nothing(run, steps, t);
    let last = run[t as int];
    let taken = last.kcp@.taken;
    assert(taken.skip(0) =~= taken);
    lemma_joined_concat(taken, last.kcp@.queue);
    lemma_joined_prefix(taken + last.kcp@.queue, segments);
    let all = joined(segments);
    let came = joined(taken + last.kcp@.queue);
    let given = streamed(steps, t);
    assert(run[0].buffered + joined(taken) =~= joined(taken));
    assert forall|i: int| 0 <= i < given.len() implies given[i] == all[i] by {
        assert(given[i] == (given + last.buffered)[i]);
        assert(came[i] == joined(taken)[i]);
        assert(came[i] == all.subrange(0, came.len() as int)[i]);
    }
    assert(given =~= all.subrange(0, given.len() as int));
}

/// A write that succeeds reports how many bytes were written: what was written at this end grew by
/// exactly so many bytes, the first ones of the caller's. It takes all of them. It fails exactly
/// where they need 128 segments or more, and then nothing changes.
pub proof fn law_write_reports_what_was_written(
    pre: IoState,
    data: Seq<u8>,
    now: u32,
    r: Result<usize, KcpError>,
    post: IoState,
)
    requires
        pre.kcp@.ready(),
        data.len() <= usize::MAX,
        writes(pre, data, now, r, post),
    ensures
        match r {
            Ok(n) => {
                &&& n == data.len()
                &&& data.len() <= 127 * (pre.kcp@.mtu - 24)
                &&& joined(post.kcp@.segments) == joined(pre.kcp@.segments) + data.take(n as int)
                &&& post.kcp@.current == now
                &&& post.kcp@.taken == pre.kcp@.taken
                &&& post.kcp@.queue == pre.kcp@.queue
                &&& post.buffered == pre.buffered
            },
            Err(e) => {
                &&& e is UserBufTooBig
                &&& data.len() > 127 * (pre.kcp@.mtu - 24)
                &&& post == pre
            },
        },
{
    lemma_sendable(pre.kcp@, data.len());
    lemma_written(pre.kcp@, data);
    assert(data.take(data.len() as int) =~= data);
}

/// The same of putting a message into the send queue without sending.
pub proof fn law_queueing_reports_what_was_written(
    pre: IoState,
    data: Seq<u8>,
    r: Result<usize, KcpError>,
    post: IoState,
)
    requires
        pre.kcp@.ready(),
        queues(pre, data, r, post),
    ensures
        match r {
            Ok(n) => {
                &&& n == data.len()
                &&& data.len() <= 127 * (pre.kcp@.mtu - 24)
                &&& joined(post.kcp@.segments) == joined(pre.kcp@.segments) + data.take(n as int)
                &&& post.kcp@.sent == pre.kcp@.sent
                &&& post.buffered == pre.buffered
            },
            Err(e) => {
                &&& e is UserBufTooBig
                &&& data.len() > 127 * (pre.kcp@.mtu - 24)
                &&& post == pre
            },
        },
{
    lemma_sendable(pre.kcp@, data.len());
    lemma_written(pre.kcp@, data);
    assert(data.take(data.len() as int) =~= data);
}

/// A caller that writes on from where a write stopped neither repeats nor leaves out a byte.
pub proof fn law_writing_on(
    pre: IoState,
    mid: IoState,
    post: IoState,
    data: Seq<u8>,
    n: usize,
    m: usize,
    then: u32,
    now: u32,
)
    requires
        pre.kcp@.ready(),
        mid.kcp@.ready(),
        data.len() <= usize::MAX,
        writes(pre, data, then, Ok(n), mid),
        writes(mid, data.skip(n as int), now, Ok(m), post),
    ensures
        n + m <= data.len(),
        joined(post.kcp@.segments) == joined(pre.kcp@.segments) + data.take(n + m),
{
    law_write_reports_what_was_written(pre, data, then, Ok(n), mid);
    law_write_reports_what_was_written(mid, data.skip(n as int), now, Ok(m), post);
    assert(data.take(n as int) + data.skip(n as int).take(m as int) =~= data.take(n + m));
    assert(joined(post.kcp@.segments) =~= joined(pre.kcp@.segments) + data.take(n + m));
}

/// A message can be sent where it needs fewer than 128 segments.
proof fn lemma_sendable(state: KcpState, len: nat)
    requires
        state.ready(),
    ensures
        state.sendable(len) <==> len <= 127 * (state.mtu - 24),
{
    let mss = state.mss();
    if len > mss {
        assert((len + mss - 1) / mss < 128 <==> len <= 127 * mss) by (nonlinear_arith)
            requires
                mss >= 1,
                len >= 0,
        ;
    }
}

/// The bytes written grow by the message.
proof fn lemma_written(state: KcpState, data: Seq<u8>)
    ensures
        joined(state.with_message(data).segments) == joined(state.segments) + data,
{
    lemma_pieces_joined(data, state.mss());
    lemma_joined_concat(state.segments, pieces(data, state.mss()));
}

/// A writer sends to the address, and through the sender, that it was made for.
pub proof fn law_writer_has_its_peer(
    output: KcpOutput,
    udp: UnboundedSender<UdpDatagram>,
    peer: PeerAddr,
)
    requires
        made_for(output, udp, peer),
    ensures
        output.peer() == peer,
        output.udp() == udp,
{
}

/// Each write of the engine becomes one datagram: to the peer, and with the bytes written, whose count
/// is reported. Earlier ones stay as they are.
pub proof fn law_each_write_is_one_datagram(
    peer: PeerAddr,
    before: Seq<(PeerAddr, Seq<u8>)>,
    bytes: Seq<u8>,
    r: std::io::Result<usize>,
    after: Seq<(PeerAddr, Seq<u8>)>,
)
    requires
        emits(peer, before, bytes, r, after),
    ensures
        after.len() == before.len() + 1,
        forall|i: int| 0 <= i < before.len() ==> #[trigger] after[i] == before[i],
        after.last().0 == peer,
        after.last().1 == bytes,
        r matches Ok(n) && n == bytes.len(),
{
}

/// A connection of this library speaks with the settings that it is meant to have, whatever its
/// conversation and its peer: datagrams of at most 1000 bytes, windows of 1024 segments, a flush
/// every 10 milliseconds, a resend after one skip, no extra delay, and congestion control. It is
/// ticked as often as its engine flushes, and its channel has room for ten windows.
pub proof fn law_connections_are_tuned(
    conv: u32,
    peer: PeerAddr,
    sender: UnboundedSender<UdpDatagram>,
)
    ensures
        ({
            let state = tuned_state(conv, peer, sender);
            &&& state.conv == conv
            &&& state.peer == peer
            &&& state.sender == sender
            &&& state.mtu == 1000
            &&& state.snd_wnd == 1024
            &&& state.rcv_wnd == 1024
            &&& state.nodelay
            &&& state.interval == 10
            &&& state.min_rto == 30
            &&& state.fast_resend == 1
            &&& !state.no_cwnd
            &&& !state.stream
            &&& !state.waits_conv
            &&& !state.updated
            &&& state.queued.len() == 0
            &&& state.segments.len() == 0
            &&& state.taken.len() == 0
            &&& state.queue.len() == 0
            &&& state.due == Map::<u32, u32>::empty()
            &&& state.interval == TICK_MILLIS
            &&& CHANNEL_CAPACITY == 10 * state.rcv_wnd
        }),
{
}

/// One step of an engine: a message is written, something is sent, or something is received.
pub open spec fn connection_step(pre: KcpState, post: KcpState) -> bool {
    ||| exists|data: Seq<u8>| post == #[trigger] pre.with_message(data)
    ||| pre.pushed_out(post)
    ||| pre.received_into(post)
}

/// Whether a step of an engine leads from the `j`-th state to the next.
pub open spec fn connection_goes_on(run: Seq<KcpState>, j: int) -> bool {
    connection_step(run[j], run[j + 1])
}

/// Whatever is done with a connection, every datagram that it sends goes to the peer that it had at
/// first and opens with the conversation id that it had at first.
pub proof fn law_connection_keeps_its_peer(run: Seq<KcpState>, t: int, i: int)
    requires
        0 <= t < run.len(),
        forall|j: int| 0 <= j < run.len() - 1 ==> #[trigger] connection_goes_on(run, j),
        run[0].sent.len() <= i < run[t].sent.len(),
    ensures
        run[t].peer == run[0].peer,
        run[t].conv == run[0].conv,
        run[t].sent[i].0 == run[0].peer,
        le_u32(run[t].sent[i].1) == run[0].conv,
    decreases t,
{
    lemma_peer_stays(run, t);
    if t > 0 {
        let pre = run[t - 1];
        let post = run[t];
        assert(connection_goes_on(run, t - 1));
        lemma_peer_stays(run, t - 1);
        if i < pre.sent.len() {
            law_connection_keeps_its_peer(run, t - 1, i);
            if pre.pushed_out(post) {
                assert(pre.sent[i] == post.sent.subrange(0, pre.sent.len() as int)[i]);
            }
        } else {
            assert(pre.sends(post.sent[i]));
        }
    }
}

/// The peer and the conversation stay.
proof fn lemma_peer_stays(run: Seq<KcpState>, t: int)
    requires
        0 <= t < run.len(),
        forall|j: int| 0 <= j < run.len() - 1 ==> #[trigger] connection_goes_on(run, j),
    ensures
        run[t].peer == run[0].peer,
        run[t].conv == run[0].conv,
    decreases t,
{
    if t > 0 {
        lemma_peer_stays(run, t - 1);
        assert(connection_goes_on(run, t - 1));
    }
}

/// A client's connection speaks of conversation 0, and every datagram that it ever sends goes to the
/// peer that it was opened to.
pub proof fn law_client_speaks_to_its_peer(
    stream: KcpStream,
    output: KcpOutput,
    run: Seq<KcpState>,
    t: int,
    i: int,
)
    requires
        connected(stream, output),
        0 <= t < run.len(),
        run[0] == stream@.kcp@,
        forall|j: int| 0 <= j < run.len() - 1 ==> #[trigger] connection_goes_on(run, j),
        output.sent().len() <= i < run[t].sent.len(),
    ensures
        run[t].sent[i].0 == output.peer(),
        le_u32(run[t].sent[i].1) == 0,
        stream@.kcp@.sender == output.udp(),
        stream@.buffered.len() == 0,
        stream@.kcp@.taken.len() == 0,
        stream@.kcp@.segments.len() == 0,
{
    law_connection_keeps_its_peer(run, t, i);
}

/// A buffer that makes room for a message holds it, and less than half of it would not, so that the
/// buffer is never twice as long as the longest message needs. Its length is a power of two, or just
/// the length of the message where no such number is small enough.
pub proof fn law_room_is_tight(size: nat, len: nat)
    requires
        room_for(size, len),
    ensures
        size <= len,
        len <= 1 || len < 2 * size,
        len == size || exists|e: nat| len == pow2(e),
{
    if exists|e: nat| len == #[trigger] pow2(e) && forall|f: nat| f < e ==> pow2(f) < size {
        let e = choose|e: nat| len == #[trigger] pow2(e) && forall|f: nat| f < e ==> pow2(f) < size;
        if e > 0 {
            lemma_pow2_unfold(e);
            assert(pow2((e - 1) as nat) < size);
        } else {
            vstd::arithmetic::power2::lemma2_to64();
        }
    }
}

/// What a stream reports of an engine error tells which one it was, unless the writer failed, whose
/// error is passed on: two that differ are reported by errors that differ. It would block exactly
/// where no message, or not all of it, is there.
pub proof fn law_errors_are_told_apart(
    e: KcpError,
    r: std::io::Error,
    other: KcpError,
    q: std::io::Error,
)
    requires
        reported(e, r),
        reported(other, q),
    ensures
        e matches KcpError::IoError(inner) ==> r == inner,
        !(e is IoError) ==> {
            &&& carried(r) == e
            &&& io_kind(r) is WouldBlock <==> e is RecvQueueEmpty || e is ExpectingFragment
            &&& io_kind(r) is WouldBlock || io_kind(r) is Other
        },
        !(e is IoError) && !(other is IoError) && e != other ==> r != q,
{
}

/// A program is the server exactly where its first argument is the word `server`.
pub proof fn law_server_is_asked_for(arg: Option<Seq<char>>)
    ensures
        role_of(arg) is Server <==> arg == Some("server"@),
        role_of(arg) is Server || role_of(arg) is Client,
{
}

/// A read of the standard input that brought bytes brought the first ones of its buffer, as many as it
/// says; where it brought none the input is over.
pub proof fn law_chunk_is_what_was_read(buf: Seq<u8>, n: Option<usize>)
    ensures
        chunk_of(buf, n) is None <==> !(n matches Some(n) && n > 0),
        chunk_of(buf, n) matches Some(chunk) ==> {
            &&& chunk.len() == shorter(n->0 as nat, buf.len())
            &&& forall|i: int| 0 <= i < chunk.len() ==> #[trigger] chunk[i] == buf[i]
        },
{
}

} // verus!
