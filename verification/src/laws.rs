//! What holds of connections as a whole.
use crate::datagram::{le_u32, PeerAddr, UdpDatagram, MAX_MESSAGE_LENGTH};
use crate::error::KcpError;
use crate::io::{fills_buffer, reads, reads_buffer, IoState, ReadBuffer};
use crate::listener::opened_by;
use crate::output::handed;
use crate::protocol::{
    carries, fragment_at, joined, lemma_joined_concat, lemma_joined_one, lemma_joined_prefix,
    lemma_message_ends, lemma_messages_concat, lemma_pieces_joined, messages, payload_len, pieces, segment_error,
    tuned_state, well_cut, whole, Fragment, KcpState, FRAGMENT_LIMIT, HEADER_LEN,
    SEQUENCE_LIMIT,
};
use crate::stream::KcpServerStream;
use futures::sync::mpsc::UnboundedSender;
use vstd::prelude::*;

verus! {

/// A message is cut into pieces that together are the message. None is longer than a segment, and
/// there are as many as the message needs fragments.
pub proof fn law_pieces_are_the_message(state: KcpState, data: Seq<u8>)
    requires
        state.ready(),
    ensures
        joined(pieces(data, state.mss())) == data,
        pieces(data, state.mss()).len() == state.fragments(data.len()),
        forall|i: int|
            0 <= i < pieces(data, state.mss()).len() ==> (#[trigger] pieces(
                data,
                state.mss(),
            )[i]).bytes.len() <= state.mss(),
    decreases data.len(),
{
    let mss = state.mss();
    lemma_pieces_joined(data, mss);
    if data.len() > mss {
        let rest = data.skip(mss);
        law_pieces_are_the_message(state, rest);
        assert((data.len() + mss - 1) / mss == 1 + (rest.len() + mss - 1) / mss) by (nonlinear_arith)
            requires
                mss >= 1,
                rest.len() == data.len() - mss,
        ;
        if rest.len() <= mss {
            assert((rest.len() + mss - 1) / mss == 1) by (nonlinear_arith)
                requires
                    1 <= rest.len() <= mss,
            ;
        }
    }
}

/// A write appends the message to all that was written, and to nothing else.
pub proof fn law_write_appends(state: KcpState, data: Seq<u8>)
    requires
        state.ready(),
    ensures
        state.with_message(data).written() == state.written() + data,
        state.segments.is_prefix_of(state.with_message(data).segments),
{
    law_pieces_are_the_message(state, data);
    lemma_joined_concat(state.segments, pieces(data, state.mss()));
    let later = state.with_message(data).segments;
    assert(state.segments =~= later.subrange(0, state.segments.len() as int));
}

/// The pieces of a message are counted down to 0.
proof fn lemma_pieces_count_down(data: Seq<u8>, mss: int)
    requires
        pieces(data, mss).len() <= 256,
    ensures
        pieces(data, mss).len() >= 1,
        forall|i: int|
            0 <= i < pieces(data, mss).len() ==> (#[trigger] pieces(data, mss)[i]).left == pieces(
                data,
                mss,
            ).len() - 1 - i,
    decreases data.len(),
{
    let all = pieces(data, mss);
    if !(data.len() <= mss || mss <= 0) {
        let rest = pieces(data.skip(mss), mss);
        lemma_pieces_count_down(data.skip(mss), mss);
        assert forall|i: int| 0 <= i < all.len() implies (#[trigger] all[i]).left == all.len() - 1
            - i by {
            if i > 0 {
                assert(all[i] == rest[i - 1]);
            }
        }
    }
}

/// A write is one message: it comes after all that were written, and with them all its fragments.
pub proof fn law_write_is_one_message(state: KcpState, data: Seq<u8>)
    requires
        state.ready(),
        state.sendable(data.len()),
        well_cut(state.segments),
    ensures
        messages(state.with_message(data).segments) == messages(state.segments).push(data),
        well_cut(state.with_message(data).segments),
{
    let old_ones = state.segments;
    let new_ones = pieces(data, state.mss());
    let all = state.with_message(data).segments;
    law_pieces_are_the_message(state, data);
    lemma_pieces_count_down(data, state.mss());
    lemma_well_cut_is_whole(old_ones);
    lemma_messages_concat(old_ones, new_ones);
    lemma_one_message(new_ones);
    assert(messages(all) =~= messages(old_ones).push(data));
    assert forall|i: int| 0 <= i < all.len() implies (#[trigger] all[i]).left + 1
        < FRAGMENT_LIMIT by {
        if i >= old_ones.len() {
            assert(all[i] == new_ones[i - old_ones.len()]);
        }
    }
    assert forall|i: int, k: int| 0 <= i < all.len() && i <= k <= i + all[i].left implies k
        < all.len() && (#[trigger] all[k]).left == (#[trigger] all[i]).left - (k - i) by {
        if i < old_ones.len() {
            assert(all[i] == old_ones[i]);
            assert(old_ones[i + old_ones[i].left].left == 0);
            assert(old_ones[k].left == old_ones[i].left - (k - i));
        } else {
            let n = old_ones.len();
            assert(all[i] == new_ones[i - n]);
            assert(all[k] == new_ones[k - n]);
        }
    }
}

/// Messages that were written stay as they are: writing another one, sending and receiving keep
/// them, each with all its fragments.
pub proof fn law_written_messages_stay(pre: KcpState, post: KcpState, data: Seq<u8>)
    requires
        pre.ready(),
        well_cut(pre.segments),
        (pre.sendable(data.len()) && post == pre.with_message(data)) || pre.pushed_out(post)
            || pre.received_into(post),
    ensures
        well_cut(post.segments),
        messages(pre.segments).is_prefix_of(messages(post.segments)),
{
    if pre.sendable(data.len()) && post == pre.with_message(data) {
        law_write_is_one_message(pre, data);
    }
    let before = messages(pre.segments);
    assert(before =~= messages(post.segments).subrange(0, before.len() as int));
}

/// Where every message is there with all its fragments, none is there in part.
proof fn lemma_well_cut_is_whole(fragments: Seq<Fragment>)
    requires
        well_cut(fragments),
    ensures
        whole(fragments),
{
    if fragments.len() > 0 && fragments.last().left > 0 {
        let i = fragments.len() - 1;
        assert(fragments[i + 1].left == fragments[i].left - 1);
    }
}

/// What is read message by message, out of what came in right, are the messages of the other end, in
/// their order: those taken out so far are its first ones, and the next one to be taken out is
/// its next, all of it.
pub proof fn law_messages_come_in_order(reader: KcpState, segments: Seq<Fragment>)
    requires
        reader.agrees(segments),
        well_cut(segments),
        whole(reader.taken),
    ensures
        messages(reader.taken).is_prefix_of(messages(segments)),
        reader.next() matches Ok(n) ==> {
            let taken = reader.taken + reader.queue.take(reader.next_count());
            let place = messages(reader.taken).len() as int;
            &&& place < messages(segments).len()
            &&& reader.received().take(n as int) == messages(segments)[place]
            &&& messages(taken) == messages(reader.taken).push(messages(segments)[place])
            &&& whole(taken)
        },
{
    let taken = reader.taken;
    let rest = segments.skip(taken.len() as int);
    assert(taken + rest =~= segments) by {
        assert forall|i: int| 0 <= i < taken.len() implies taken[i] == segments[i] by {
            lemma_came(reader, segments, i);
        }
    }
    lemma_messages_concat(taken, rest);
    assert(messages(taken) =~= messages(segments).subrange(0, messages(taken).len() as int));
    if reader.next() is Ok {
        lemma_next_is_whole(reader, segments);
        reader.lemma_next();
        let count = reader.next_count();
        let message = reader.queue.take(count);
        assert(rest.take(count) =~= message) by {
            assert forall|i: int| 0 <= i < count implies message[i] == rest[i] by {
                lemma_came(reader, segments, taken.len() + i);
            }
        }
        lemma_first_message(rest, count);
        lemma_messages_concat(taken, message);
        lemma_one_message(message);
        assert(messages(taken + message) =~= messages(taken).push(joined(message)));
    }
}

/// What came in right stands in its place.
proof fn lemma_came(reader: KcpState, segments: Seq<Fragment>, i: int)
    requires
        reader.agrees(segments),
        0 <= i < reader.arrived(),
    ensures
        i < segments.len(),
        segments[i] == (reader.taken + reader.queue)[i],
{
    let came = reader.taken + reader.queue;
    assert(came[i] == segments.subrange(0, came.len() as int)[i]);
}

/// The next message of what came in right is there with all its fragments.
proof fn lemma_next_is_whole(reader: KcpState, segments: Seq<Fragment>)
    requires
        reader.agrees(segments),
        well_cut(segments),
        reader.next() is Ok,
    ensures
        0 < reader.next_count() <= reader.queue.len(),
        reader.taken.len() + reader.next_count() <= segments.len(),
        reader.queue[reader.next_count() - 1].left == 0,
        forall|i: int|
            0 <= i < reader.next_count() - 1 ==> (#[trigger] segments.skip(
                reader.taken.len() as int,
            )[i]).left > 0,
        segments.skip(reader.taken.len() as int)[reader.next_count() - 1].left == 0,
        forall|i: int| 0 <= i < reader.next_count() - 1 ==> (#[trigger] reader.queue[i]).left > 0,
{
    let n = reader.taken.len() as int;
    let queue = reader.queue;
    let left = queue[0].left as int;
    lemma_came(reader, segments, n);
    assert(segments[n].left == left);
    assert forall|i: int| 0 <= i <= left implies (#[trigger] queue[i]).left == left - i by {
        lemma_came(reader, segments, n + i);
        assert(segments[n + i].left == segments[n].left - i);
    }
    lemma_message_ends(queue, left + 1);
    assert forall|i: int| 0 <= i <= left implies (#[trigger] segments.skip(n)[i]).left == left
        - i by {
        assert(segments[n + i].left == segments[n].left - i);
    }
}

/// The first message of fragments that go on behind it.
proof fn lemma_first_message(fragments: Seq<Fragment>, count: int)
    requires
        0 < count <= fragments.len(),
        forall|i: int| 0 <= i < count - 1 ==> (#[trigger] fragments[i]).left > 0,
        fragments[count - 1].left == 0,
    ensures
        messages(fragments).len() > 0,
        messages(fragments)[0] == joined(fragments.take(count)),
{
    lemma_message_ends(fragments, count);
}

/// Fragments of which none but the last ends a message are one message.
proof fn lemma_one_message(fragments: Seq<Fragment>)
    requires
        fragments.len() > 0,
        forall|i: int| 0 <= i < fragments.len() - 1 ==> (#[trigger] fragments[i]).left > 0,
        fragments.last().left == 0,
    ensures
        messages(fragments) == seq![joined(fragments)],
{
    let count = fragments.len() as int;
    lemma_message_ends(fragments, count);
    assert(fragments.take(count) =~= fragments);
    assert(messages(fragments.skip(count)) =~= Seq::empty());
    assert(messages(fragments) =~= seq![joined(fragments)]);
}

/// What carries segments still does when more segments follow them.
proof fn lemma_carries_more(conv: u32, data: Seq<u8>, at: int, few: Seq<Fragment>, more: Seq<Fragment>)
    requires
        few.is_prefix_of(more),
        carries(conv, data, at, few),
    ensures
        carries(conv, data, at, more),
    decreases data.len() - at,
{
    assert forall|i: int| 0 <= i < few.len() implies few[i] == more[i] by {
        assert(few[i] == more.subrange(0, few.len() as int)[i]);
    }
    if !(data.len() - at < HEADER_LEN || segment_error(conv, data, at) is Some) {
        lemma_carries_more(conv, data, at + HEADER_LEN + payload_len(data, at), few, more);
    }
}

/// Every datagram that an engine sent from the `from`-th on carries nothing but what was written,
/// in the numbered pieces it was cut into.
pub open spec fn accounts(state: KcpState, from: nat) -> bool {
    forall|i: int| from <= i < state.sent.len() ==> state.sends(#[trigger] state.sent[i])
}

/// Writing a message, sending and receiving keep the account of what was sent.
pub proof fn law_accounts_are_kept(pre: KcpState, post: KcpState, data: Seq<u8>, from: nat)
    requires
        pre.ready(),
        accounts(pre, from),
        post == pre.with_message(data) || pre.pushed_out(post) || pre.received_into(post),
    ensures
        accounts(post, from),
{
    assert(pre.segments.is_prefix_of(post.segments)) by {
        if post == pre.with_message(data) {
            law_write_appends(pre, data);
        } else {
            assert(pre.segments =~= post.segments.subrange(0, pre.segments.len() as int));
        }
    }
    assert forall|i: int| from <= i < post.sent.len() implies post.sends(
        #[trigger] post.sent[i],
    ) by {
        if i < pre.sent.len() {
            if pre.pushed_out(post) {
                assert(pre.sent[i] == post.sent.subrange(0, pre.sent.len() as int)[i]);
            }
            assert(pre.sends(pre.sent[i]));
        }
        assert(pre.sends(post.sent[i]));
        if post.segments.len() < SEQUENCE_LIMIT {
            lemma_carries_more(pre.conv, post.sent[i].1, 0, pre.segments, post.segments);
        }
    }
}

/// Writing a message and sending leave alone what came in.
pub proof fn law_sending_does_not_receive(pre: KcpState, post: KcpState, data: Seq<u8>)
    requires
        post == pre.with_message(data) || pre.pushed_out(post),
    ensures
        pre.still_agrees(post),
        post.taken == pre.taken,
        post.queue == pre.queue,
        post.next() == pre.next(),
{
}

/// What came in right is the beginning of what the other end wrote: what was read, then what waits
/// to be read.
pub proof fn law_agreement_is_a_prefix(reader: IoState, segments: Seq<Fragment>)
    requires
        reader.coherent(),
        reader.kcp@.agrees(segments),
    ensures
        reader.delivered() + reader.unread() == reader.kcp@.read_out() + reader.kcp@.received(),
        reader.delivered().is_prefix_of(joined(segments)),
        (reader.delivered() + reader.unread()).is_prefix_of(joined(segments)),
{
    let taken = reader.kcp@.read_out();
    let all = joined(segments);
    let came = taken + reader.kcp@.received();
    let cut = taken.len() - reader.buffered.len();
    assert(reader.buffered =~= taken.subrange(cut, taken.len() as int));
    assert(reader.delivered() + reader.unread() =~= came);
    lemma_joined_concat(reader.kcp@.taken, reader.kcp@.queue);
    lemma_joined_prefix(reader.kcp@.taken + reader.kcp@.queue, segments);
    assert forall|i: int| 0 <= i < reader.delivered().len() implies reader.delivered()[i]
        == all[i] by {
        assert(came[i] == all.subrange(0, came.len() as int)[i]);
    }
    assert(reader.delivered() =~= all.subrange(0, reader.delivered().len() as int));
}

/// Whether nothing came in yet.
pub open spec fn is_fresh(state: KcpState) -> bool {
    &&& state.taken == Seq::<Fragment>::empty()
    &&& state.queue == Seq::<Fragment>::empty()
    &&& state.parked == Set::<(u32, Fragment)>::empty()
}

/// A new connection can be used, has received and written nothing, and has sent nothing since it is
/// there.
pub proof fn law_new_connection_is_fresh(
    conv: u32,
    peer: PeerAddr,
    sender: UnboundedSender<UdpDatagram>,
)
    ensures
        tuned_state(conv, peer, sender).ready(),
        tuned_state(conv, peer, sender).settled(),
        is_fresh(tuned_state(conv, peer, sender)),
        messages(tuned_state(conv, peer, sender).segments) == Seq::<Seq<u8>>::empty(),
        well_cut(tuned_state(conv, peer, sender).segments),
        accounts(tuned_state(conv, peer, sender), handed(sender).len()),
{
}

/// One step of the reading end: a datagram comes in, of those that the other end sent from the
/// `from`-th on; or something else is done, and the next message may be taken out.
pub open spec fn read_end_step(
    pre: IoState,
    came: Option<int>,
    post: IoState,
    writer: KcpState,
    from: nat,
) -> bool {
    match came {
        Some(i) => {
            &&& from <= i < writer.sent.len()
            &&& pre.kcp@.still_agrees_after(writer.sent[i].1, post.kcp@)
            &&& post.kcp@.taken == pre.kcp@.taken
        },
        None => {
            &&& pre.kcp@.still_agrees(post.kcp@)
            &&& post.kcp@.taken == pre.kcp@.taken || (pre.kcp@.next() is Ok
                && pre.kcp@.took_message(post.kcp@))
        },
    }
}

/// A read, marking as read, writing and sending are steps of the reading end, and so is filling
/// the buffer: it leaves the engine alone or takes the next message out.
pub proof fn law_calls_are_steps(
    pre: IoState,
    buf: Seq<u8>,
    r: Result<usize, KcpError>,
    post: IoState,
    out: Seq<u8>,
    data: Seq<u8>,
    writer: KcpState,
    from: nat,
)
    requires
        reads(pre, buf, r, post, out) || (pre.fill_error() is None && pre.kcp@.took_message(post.kcp@)
            && pre.buffered.len() == 0 && pre.kcp@.still_agrees(post.kcp@)) || post.kcp == pre.kcp
            || post.kcp@ == pre.kcp@.with_message(
            data,
        ) || pre.kcp@.pushed_out(post.kcp@),
    ensures
        read_end_step(pre, None, post, writer, from),
{
}

/// Reliable: over a network that loses, repeats, delays and reorders datagrams but makes none up,
/// what has been read at one end is at all times the beginning of what was written at the other
/// end, each byte once and in its place.
pub proof fn law_read_is_prefix_of_written(
    run: Seq<IoState>,
    came: Seq<Option<int>>,
    writer: KcpState,
    from: nat,
)
    requires
        run.len() == came.len() + 1,
        is_fresh(run[0].kcp@),
        forall|t: int| 0 <= t < run.len() ==> (#[trigger] run[t]).coherent(),
        forall|t: int| 0 <= t < run.len() ==> (#[trigger] run[t]).kcp@.conv == writer.conv,
        forall|t: int|
            0 <= t < came.len() ==> read_end_step(
                run[t],
                #[trigger] came[t],
                run[t + 1],
                writer,
                from,
            ),
        accounts(writer, from),
        writer.segments.len() < SEQUENCE_LIMIT,
    ensures
        run.last().delivered().is_prefix_of(writer.written()),
        (run.last().delivered() + run.last().unread()).is_prefix_of(writer.written()),
{
    lemma_run_agrees(run, came, writer, from, came.len() as int);
    law_agreement_is_a_prefix(run.last(), writer.segments);
}

/// Messages are preserved: over such a network, the messages that were taken out at one end are at
/// all times the first ones that were written at the other end, in their order, none of them
/// merged, split or cut short.
pub proof fn law_messages_are_preserved(
    run: Seq<IoState>,
    came: Seq<Option<int>>,
    writer: KcpState,
    from: nat,
)
    requires
        run.len() == came.len() + 1,
        is_fresh(run[0].kcp@),
        forall|t: int| 0 <= t < run.len() ==> (#[trigger] run[t]).kcp@.conv == writer.conv,
        forall|t: int|
            0 <= t < came.len() ==> read_end_step(
                run[t],
                #[trigger] came[t],
                run[t + 1],
                writer,
                from,
            ),
        accounts(writer, from),
        writer.segments.len() < SEQUENCE_LIMIT,
        well_cut(writer.segments),
    ensures
        messages(run.last().kcp@.taken).is_prefix_of(messages(writer.segments)),
        run.last().kcp@.next() matches Ok(n) ==> {
            let place = messages(run.last().kcp@.taken).len() as int;
            &&& place < messages(writer.segments).len()
            &&& run.last().kcp@.received().take(n as int) == messages(writer.segments)[place]
        },
{
    lemma_run_is_whole(run, came, writer, from, came.len() as int);
    lemma_run_agrees(run, came, writer, from, came.len() as int);
    law_messages_come_in_order(run.last().kcp@, writer.segments);
}

/// What was taken out until the `t`-th step are whole messages.
proof fn lemma_run_is_whole(
    run: Seq<IoState>,
    came: Seq<Option<int>>,
    writer: KcpState,
    from: nat,
    t: int,
)
    requires
        run.len() == came.len() + 1,
        0 <= t <= came.len(),
        is_fresh(run[0].kcp@),
        forall|t: int| 0 <= t < run.len() ==> (#[trigger] run[t]).kcp@.conv == writer.conv,
        forall|t: int|
            0 <= t < came.len() ==> read_end_step(
                run[t],
                #[trigger] came[t],
                run[t + 1],
                writer,
                from,
            ),
        accounts(writer, from),
        writer.segments.len() < SEQUENCE_LIMIT,
        well_cut(writer.segments),
    ensures
        whole(run[t].kcp@.taken),
    decreases t,
{
    if t > 0 {
        lemma_run_is_whole(run, came, writer, from, t - 1);
        lemma_run_agrees(run, came, writer, from, t - 1);
        assert(read_end_step(run[t - 1], came[t - 1], run[t], writer, from));
        law_messages_come_in_order(run[t - 1].kcp@, writer.segments);
    }
}

/// What came in until the `t`-th step agrees with the segments of the writer.
proof fn lemma_run_agrees(
    run: Seq<IoState>,
    came: Seq<Option<int>>,
    writer: KcpState,
    from: nat,
    t: int,
)
    requires
        run.len() == came.len() + 1,
        0 <= t <= came.len(),
        is_fresh(run[0].kcp@),
        forall|t: int| 0 <= t < run.len() ==> (#[trigger] run[t]).kcp@.conv == writer.conv,
        forall|t: int|
            0 <= t < came.len() ==> read_end_step(
                run[t],
                #[trigger] came[t],
                run[t + 1],
                writer,
                from,
            ),
        accounts(writer, from),
        writer.segments.len() < SEQUENCE_LIMIT,
    ensures
        run[t].kcp@.agrees(writer.segments),
    decreases t,
{
    if t == 0 {
        let came = run[0].kcp@.taken + run[0].kcp@.queue;
        assert(came =~= writer.segments.subrange(0, came.len() as int));
    } else {
        lemma_run_agrees(run, came, writer, from, t - 1);
        assert(read_end_step(run[t - 1], came[t - 1], run[t], writer, from));
        assert(run[t - 1].kcp@.conv == writer.conv);
        match came[t - 1] {
            Some(i) => {
                assert(writer.sends(writer.sent[i]));
            },
            None => {},
        }
    }
}

/// Two reads in a row give consecutive bytes of what was unread: nothing is left out, repeated or
/// moved, whatever the lengths of their buffers.
pub proof fn law_reads_follow_each_other(
    first: IoState,
    second: IoState,
    third: IoState,
    buf1: Seq<u8>,
    buf2: Seq<u8>,
    n1: usize,
    n2: usize,
    out1: Seq<u8>,
    out2: Seq<u8>,
)
    requires
        reads(first, buf1, Ok(n1), second, out1),
        reads(second, buf2, Ok(n2), third, out2),
    ensures
        third.delivered() == first.delivered() + out1.take(n1 as int) + out2.take(n2 as int),
        forall|i: int|
            0 <= i < n1 + n2 && i < first.unread().len() ==> (out1.take(n1 as int) + out2.take(
                n2 as int,
            ))[i] == #[trigger] first.unread()[i],
        n1 + n2 <= first.unread().len() ==> first.unread().skip(n1 + n2).is_prefix_of(
            third.unread(),
        ),
{
    let rest = first.unread().skip(n1 as int);
    assert(out1.take(n1 as int) =~= first.unread().take(n1 as int));
    assert(out2.take(n2 as int) =~= second.unread().take(n2 as int));
    assert(third.delivered() =~= first.delivered() + out1.take(n1 as int) + out2.take(n2 as int));
    assert forall|i: int| 0 <= i < rest.len() implies rest[i] == second.unread()[i] by {
        assert(rest[i] == second.unread().subrange(0, rest.len() as int)[i]);
    }
    if n1 + n2 <= first.unread().len() {
        let left = first.unread().skip(n1 + n2);
        let after = second.unread().skip(n2 as int);
        assert forall|i: int| 0 <= i < left.len() implies left[i] == third.unread()[i] by {
            assert(left[i] == rest[i + n2]);
            assert(left[i] == after[i]);
            assert(after[i] == third.unread().subrange(0, after.len() as int)[i]);
        }
        assert(left =~= third.unread().subrange(0, left.len() as int));
    }
}

/// What is done with a connection: a read, with what it returned and what became of its buffer, or
/// something that neither takes messages out nor touches the buffered rest, such as taking in
/// a datagram, writing, flushing and ticking.
pub enum IoStep {
    /// A read.
    Read {
        /// The reader's buffer.
        buf: Seq<u8>,
        /// What was returned.
        result: Result<usize, KcpError>,
        /// The reader's buffer afterwards.
        out: Seq<u8>,
    },
    /// Anything that leaves alone what was taken out and what of it is not read.
    Other,
}

impl IoStep {
    /// The bytes that the step gave its caller.
    pub open spec fn gave(self) -> Seq<u8> {
        match self {
            IoStep::Read { result: Ok(n), out, .. } => out.take(n as int),
            _ => Seq::empty(),
        }
    }
}

/// Whether a step leads from `pre` to `post`.
pub open spec fn io_step(pre: IoState, step: IoStep, post: IoState) -> bool {
    match step {
        IoStep::Read { buf, result, out } => reads(pre, buf, result, post, out),
        IoStep::Other => post.kcp@.taken == pre.kcp@.taken && post.buffered == pre.buffered,
    }
}

/// Whether the steps lead from state to state.
pub open spec fn io_run(run: Seq<IoState>, steps: Seq<IoStep>) -> bool {
    &&& run.len() == steps.len() + 1
    &&& forall|t: int|
        0 <= t < steps.len() ==> io_step(run[t], #[trigger] steps[t], run[t + 1])
}

/// All bytes that the first `t` steps gave.
pub open spec fn given(steps: Seq<IoStep>, t: nat) -> Seq<u8>
    decreases t,
{
    if t == 0 {
        Seq::empty()
    } else {
        given(steps, (t - 1) as nat) + steps[t - 1].gave()
    }
}

/// The messages that the engine gave out in the first `t` steps: each read that found nothing
/// buffered and did not fail took the next one out.
pub open spec fn given_out(run: Seq<IoState>, steps: Seq<IoStep>, t: nat) -> Seq<Seq<u8>>
    decreases t,
{
    if t == 0 {
        Seq::empty()
    } else {
        let before = given_out(run, steps, (t - 1) as nat);
        let pre = run[t - 1];
        match (steps[t - 1], pre.kcp@.next()) {
            (IoStep::Read { .. }, Ok(n)) if pre.buffered.len() == 0 => before.push(
                pre.kcp@.received().take(n as int),
            ),
            _ => before,
        }
    }
}

/// Whether `part` is a part of `message` without gaps.
pub open spec fn part_of(part: Seq<u8>, message: Seq<u8>) -> bool {
    exists|at: int|
        0 <= at <= at + part.len() <= message.len() && part == #[trigger] message.subrange(
            at,
            at + part.len(),
        )
}

/// Whatever the lengths of the readers' buffers, and whatever is done between: all that a new
/// connection gave to its readers, then what is buffered, are whole messages of the engine in their
/// order. Nothing is lost, repeated or moved.
pub proof fn law_reads_are_whole_messages(run: Seq<IoState>, steps: Seq<IoStep>, t: nat)
    requires
        io_run(run, steps),
        run[0].buffered.len() == 0,
        t <= steps.len(),
    ensures
        given(steps, t) + run[t as int].buffered == given_out(run, steps, t).flatten(),
        run[t as int].buffered.len() > 0 ==> given_out(run, steps, t).len() > 0
            && run[t as int].buffered.is_suffix_of(given_out(run, steps, t).last()),
    decreases t,
{
    if t == 0 {
        assert(given(steps, t) + run[0].buffered =~= given_out(run, steps, t).flatten());
    } else {
        let i = t - 1;
        let pre = run[i];
        let post = run[t as int];
        let before = given_out(run, steps, i as nat);
        law_reads_are_whole_messages(run, steps, i as nat);
        assert(io_step(pre, steps[i], post));
        lemma_read_goes_on(pre, steps[i], post, before, given_out(run, steps, t));
        let so_far = given(steps, i as nat);
        if given_out(run, steps, t) == before {
            assert(so_far + steps[i].gave() + post.buffered =~= so_far + pre.buffered);
        } else {
            let message = given_out(run, steps, t).last();
            before.lemma_flatten_push(message);
            assert(so_far + pre.buffered =~= so_far);
            assert(so_far + steps[i].gave() + post.buffered =~= so_far + message);
        }
    }
}

/// What one step gives, then what it leaves buffered, is what was buffered, or the message that it
/// took out.
proof fn lemma_read_goes_on(
    pre: IoState,
    step: IoStep,
    post: IoState,
    before: Seq<Seq<u8>>,
    after: Seq<Seq<u8>>,
)
    requires
        io_step(pre, step, post),
        pre.buffered.len() > 0 ==> before.len() > 0 && pre.buffered.is_suffix_of(before.last()),
        after == (match (step, pre.kcp@.next()) {
            (IoStep::Read { .. }, Ok(n)) if pre.buffered.len() == 0 => before.push(
                pre.kcp@.received().take(n as int),
            ),
            _ => before,
        }),
    ensures
        after == before ==> step.gave() + post.buffered == pre.buffered,
        after != before ==> {
            &&& pre.buffered.len() == 0
            &&& after.len() == before.len() + 1
            &&& after == before.push(after.last())
            &&& step.gave() + post.buffered == after.last()
        },
        post.buffered.len() > 0 ==> after.len() > 0 && post.buffered.is_suffix_of(after.last()),
        step.gave().len() > 0 ==> after.len() > 0 && part_of(step.gave(), after.last()),
        step matches IoStep::Read { buf, result: Ok(n), .. } ==> n <= buf.len(),
{
    match step {
        IoStep::Read { buf, result, out } => {
            pre.kcp@.lemma_next();
            match result {
                Ok(n) => {
                    let filled = pre.filled().buffered;
                    assert(out.take(n as int) =~= pre.unread().take(n as int));
                    assert(filled =~= pre.unread().take(filled.len() as int));
                    assert(step.gave() =~= filled.take(n as int));
                    assert(post.buffered =~= filled.skip(n as int));
                    assert(step.gave() + post.buffered =~= filled);
                    if filled.len() > 0 || after != before {
                        let last = after.last();
                        assert(filled.is_suffix_of(last)) by {
                            if pre.buffered.len() == 0 {
                                assert(filled =~= last.subrange(0, last.len() as int));
                            }
                        }
                        let at = last.len() - filled.len();
                        assert(filled =~= last.subrange(at, last.len() as int));
                        assert(post.buffered =~= last.subrange(at + n, last.len() as int));
                        assert(step.gave() =~= last.subrange(at, at + n));
                    }
                },
                Err(_) => {
                    assert(step.gave() + post.buffered =~= pre.buffered);
                },
            }
        },
        IoStep::Other => {
            assert(step.gave() + post.buffered =~= pre.buffered);
        },
    }
}

/// What one read gives comes out of a single message, the one taken out last, and fits into the
/// reader's buffer.
pub proof fn law_read_gives_one_message(run: Seq<IoState>, steps: Seq<IoStep>, t: nat)
    requires
        io_run(run, steps),
        run[0].buffered.len() == 0,
        t < steps.len(),
    ensures
        steps[t as int] matches IoStep::Read { buf, result: Ok(n), .. } ==> n <= buf.len()
            && steps[t as int].gave().len() == n,
        steps[t as int].gave().len() > 0 ==> given_out(run, steps, t + 1).len() > 0 && part_of(
            steps[t as int].gave(),
            given_out(run, steps, t + 1).last(),
        ),
{
    law_reads_are_whole_messages(run, steps, t);
    assert(io_step(run[t as int], steps[t as int], run[t as int + 1]));
    lemma_read_goes_on(
        run[t as int],
        steps[t as int],
        run[t as int + 1],
        given_out(run, steps, t),
        given_out(run, steps, t + 1),
    );
}

/// A read does not go beyond the end of a message: with nothing buffered and a message of `n` bytes
/// next it takes as much of the message as fits, and the rest of that message stays buffered.
pub proof fn law_read_ends_with_the_message(io: IoState, n: nat, len: nat)
    requires
        io.buffered.len() == 0,
        io.kcp@.next() == Ok::<nat, KcpError>(n),
    ensures
        n <= io.kcp@.received().len(),
        io.read_len(len) == (if n <= len {
            n
        } else {
            len
        }),
        io.after_read(len).buffered == io.kcp@.received().subrange(
            io.read_len(len) as int,
            n as int,
        ),
{
    io.kcp@.lemma_next();
    assert(io.after_read(len).buffered =~= io.kcp@.received().subrange(
        io.read_len(len) as int,
        n as int,
    ));
}

/// A message that came in one piece can be read at once: with an empty receive queue, a datagram
/// that opens with the awaited segment, the only one of its message, makes that message the next
/// one.
pub proof fn law_awaited_message_can_be_read(pre: KcpState, data: Seq<u8>, post: KcpState)
    requires
        pre.settled(),
        pre.queue.len() == 0,
        pre.awaits(data),
        data[5] == 0,
        pre.joins_at_once(data, post),
    ensures
        post.next() matches Ok(n) && n == payload_len(data, 0) && post.received().take(n as int)
            == fragment_at(data, 0).bytes,
{
    let front = pre.queue.push(fragment_at(data, 0));
    assert(front[0] == post.queue.subrange(0, front.len() as int)[0]);
    lemma_joined_one(post.queue[0]);
    assert(post.queue.take(1) =~= seq![post.queue[0]]);
    post.lemma_next();
}

/// As long as a rest of a message is buffered, a read takes from it and leaves the engine alone.
pub proof fn law_rest_comes_first(io: IoState, len: nat)
    requires
        io.buffered.len() > 0,
    ensures
        io.fill_error() is None,
        io.read_len(len) <= io.buffered.len(),
        io.after_read(len).kcp == io.kcp,
        io.after_read(len).buffered == io.buffered.skip(io.read_len(len) as int),
{
}

/// Filling a buffer that holds something changes nothing, so filling twice is filling once.
pub proof fn law_filling_twice(io: IoState)
    requires
        io.filled().buffered.len() > 0,
    ensures
        io.filled().filled() == io.filled(),
        io.filled().fill_error() is None,
{
}

/// The read buffer stays in order and never shrinks, and what lies between its positions is at all
/// times as long as what is buffered: filling it, reading and marking as read keep it so, and the
/// buffer of a new connection is so.
pub proof fn law_read_buffer_stays_in_order(
    io: IoState,
    before: ReadBuffer,
    after: ReadBuffer,
    len: nat,
    amt: usize,
)
    requires
        before.in_order(),
        before.remaining() == io.buffered.len(),
    ensures
        fills_buffer(io, before, after) ==> {
            &&& after.in_order()
            &&& after.len >= before.len
            &&& after.remaining() == io.filled().buffered.len()
        },
        reads_buffer(io, len, before, after) ==> {
            &&& after.in_order()
            &&& after.len >= before.len
            &&& after.remaining() == io.after_read(len).buffered.len()
        },
        after == before.advanced(io.consumable(amt) as nat) ==> {
            &&& after.in_order()
            &&& after.len == before.len
            &&& after.remaining() == io.buffered.skip(io.consumable(amt)).len()
        },
        (ReadBuffer { len: 0, pos: 0, cap: 0 }).in_order(),
        (ReadBuffer { len: 0, pos: 0, cap: 0 }).remaining() == 0,
{
    io.kcp@.lemma_next();
}

/// A read that finds no message changes nothing.
pub proof fn law_failed_read_changes_nothing(
    pre: IoState,
    buf: Seq<u8>,
    e: KcpError,
    post: IoState,
    out: Seq<u8>,
)
    requires
        reads(pre, buf, Err(e), post, out),
    ensures
        post == pre,
        out == buf,
{
}

/// No datagram that a connection of this library sends is cut off by the socket of its peer.
pub proof fn law_datagrams_fit_the_socket(pre: KcpState, post: KcpState, i: int)
    requires
        pre.mtu == tuned_state(pre.conv, pre.peer, pre.sender).mtu,
        pre.pushed_out(post),
        pre.sent.len() <= i < post.sent.len(),
    ensures
        post.sent[i].1.len() <= 1000 < MAX_MESSAGE_LENGTH,
{
    assert(pre.sends(post.sent[i]));
}

/// The two ends speak of the same conversation: a connection that is opened by a datagram which
/// another connection sent has the conversation id of the sender, and takes the datagram in as
/// one of its conversation.
pub proof fn law_same_conversation(
    client: KcpState,
    later: KcpState,
    i: int,
    datagram: UdpDatagram,
    server: KcpServerStream,
    udp: UnboundedSender<UdpDatagram>,
)
    requires
        client.pushed_out(later),
        client.sent.len() <= i < later.sent.len(),
        datagram.data@ == later.sent[i].1,
        opened_by(server, datagram, udp),
    ensures
        datagram.data@.len() >= 4,
        server@.kcp@.conv == client.conv,
        !(segment_error(server@.kcp@.conv, datagram.data@, 0) matches Some(
            KcpError::ConvInconsistent(_, _),
        )),
{
    assert(client.sends(later.sent[i]));
    let head = datagram.data@.subrange(0, 4);
    assert(head[0] == datagram.data@[0] && head[1] == datagram.data@[1] && head[2]
        == datagram.data@[2] && head[3] == datagram.data@[3]);
    assert(le_u32(head) == client.conv);
}

} // verus!
