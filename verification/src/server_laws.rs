//! What holds of a server's table of connections as a whole.
use crate::datagram::{le_u32, PeerAddr, UdpDatagram};
use crate::listener::{channel_of, opened_by, polls, Action, Event, IncomingState, Pending};
use crate::protocol::KcpState;
use crate::stream::KcpServerStream;
use crate::transfer_laws::{connection_goes_on, law_connection_keeps_its_peer};
use vstd::pervasive::strictly_cloned;
use vstd::prelude::*;

verus! {

/// Once a connection is handed out, each datagram of its peer goes to its channel.
pub proof fn law_accepted_peer_is_routed<C>(
    opening: IncomingState<C>,
    channel: C,
    stream: KcpServerStream,
    post: IncomingState<C>,
    datagram: UdpDatagram,
    action: Action<C>,
    after: IncomingState<C>,
)
    requires
        polls(opening, Event::Sent(channel), Action::Accept(stream), post),
        opening.pending matches Pending::Opening(peer, _) && peer == datagram.peer,
        polls(post, Event::Datagram(datagram), action, after),
    ensures
        action == Action::Send(channel, datagram),
{
}

/// Delivering a datagram to a channel that takes it leaves the table as it was.
pub proof fn law_delivery_keeps_the_table<C>(
    pre: IncomingState<C>,
    datagram: UdpDatagram,
    channel: C,
    delivering: IncomingState<C>,
    action: Action<C>,
    post: IncomingState<C>,
)
    requires
        polls(pre, Event::Datagram(datagram), Action::Send(channel, datagram), delivering),
        polls(delivering, Event::Sent(channel), action, post),
    ensures
        action == Action::<C>::Poll,
        post.table == pre.table,
        post.pending is Nothing,
{
    assert(post.table =~= pre.table);
}

/// A channel that does not take a datagram any more is forgotten, and the next datagram of its peer
/// opens a new connection.
pub proof fn law_lost_peer_is_forgotten<C>(
    pre: IncomingState<C>,
    datagram: UdpDatagram,
    channel: C,
    delivering: IncomingState<C>,
    action: Action<C>,
    post: IncomingState<C>,
    next: UdpDatagram,
    next_action: Action<C>,
    after: IncomingState<C>,
)
    requires
        polls(pre, Event::Datagram(datagram), Action::Send(channel, datagram), delivering),
        polls(delivering, Event::NotSent, action, post),
        next.peer == datagram.peer,
        polls(post, Event::Datagram(next), next_action, after),
    ensures
        action == Action::<C>::Poll,
        channel_of(post.table, datagram.peer) is None,
        next_action == Action::<C>::Open(next),
{
}

/// A connection whose first datagram is not taken leaves no trace in the table.
pub proof fn law_failed_opening_leaves_no_trace<C>(
    pre: IncomingState<C>,
    datagram: UdpDatagram,
    opening: IncomingState<C>,
    action: Action<C>,
    post: IncomingState<C>,
)
    requires
        polls(pre, Event::Datagram(datagram), Action::Open(datagram), opening),
        polls(opening, Event::NotSent, action, post),
    ensures
        action == Action::<C>::NotReady,
        post.table == pre.table,
        post.pending is Nothing,
{
}

/// An answer is awaited after a datagram was given out, and only then.
pub proof fn law_answers_follow_datagrams<C>(
    pre: IncomingState<C>,
    event: Event<C>,
    action: Action<C>,
    post: IncomingState<C>,
    answer: Event<C>,
)
    requires
        pre.admits(event),
        polls(pre, event, action, post),
        answer is Sent || answer is NotSent,
    ensures
        post.admits(answer) <==> action is Send || action is Open,
{
}

/// What happens to the datagrams of one peer does not touch the connections of the others.
pub proof fn law_other_peers_are_untouched<C>(
    pre: IncomingState<C>,
    event: Event<C>,
    action: Action<C>,
    post: IncomingState<C>,
    other: PeerAddr,
)
    requires
        polls(pre, event, action, post),
        event matches Event::Datagram(datagram) ==> datagram.peer != other,
        pre.pending matches Pending::Delivering(peer) ==> peer != other,
        pre.pending matches Pending::Opening(peer, _) ==> peer != other,
    ensures
        channel_of(post.table, other) == channel_of(pre.table, other),
{
}

/// What became of a datagram of the socket: what was to be done with it, the channel that took it, and
/// what was to be done next.
pub struct Taken<C> {
    /// What was to be done with the datagram.
    pub action: Action<C>,
    /// The channel that took it.
    pub channel: C,
    /// What was to be done next.
    pub next: Action<C>,
}

/// Whether the datagram was taken by the channel that it was to be put into: the channel of its peer,
/// or a new one.
pub open spec fn takes<C>(
    pre: IncomingState<C>,
    datagram: UdpDatagram,
    taken: Taken<C>,
    post: IncomingState<C>,
) -> bool {
    exists|mid: IncomingState<C>|
        {
            &&& #[trigger] polls(pre, Event::Datagram(datagram), taken.action, mid)
            &&& taken.action matches Action::Send(channel, _) ==> taken.channel == channel
            &&& polls(mid, Event::Sent(taken.channel), taken.next, post)
        }
}

/// Whether the socket gave these datagrams one after the other, and each was taken.
pub open spec fn poll_run<C>(
    run: Seq<IncomingState<C>>,
    datagrams: Seq<UdpDatagram>,
    taken: Seq<Taken<C>>,
) -> bool {
    &&& run.len() == datagrams.len() + 1
    &&& taken.len() == datagrams.len()
    &&& forall|i: int|
        0 <= i < taken.len() ==> takes(run[i], datagrams[i], #[trigger] taken[i], run[i + 1])
}

/// Whether the datagram, as it is, was to be put into the channel that the table has for its peer.
pub open spec fn own_channel<C>(
    table: Map<PeerAddr, C>,
    datagram: UdpDatagram,
    taken: Taken<C>,
) -> bool {
    match channel_of(table, datagram.peer) {
        Some(channel) => taken.action == Action::Send(channel, datagram),
        None => false,
    }
}

/// A datagram of a known peer that is taken goes to the channel of its peer and leaves the table as
/// it was; one of a stranger opens a connection, which is handed out.
proof fn lemma_taken<C>(
    pre: IncomingState<C>,
    datagram: UdpDatagram,
    taken: Taken<C>,
    post: IncomingState<C>,
)
    requires
        takes(pre, datagram, taken, post),
    ensures
        post.udp == pre.udp,
        post.pending is Nothing,
        match channel_of(pre.table, datagram.peer) {
            Some(channel) => {
                &&& taken.action == Action::Send(channel, datagram)
                &&& taken.next == Action::<C>::Poll
                &&& post.table == pre.table
            },
            None => {
                &&& taken.action == Action::<C>::Open(datagram)
                &&& taken.next matches Action::Accept(stream) && opened_by(
                    stream,
                    datagram,
                    pre.udp,
                )
                &&& post.table == pre.table.insert(datagram.peer, taken.channel)
            },
        },
{
    if pre.table.dom().contains(datagram.peer) {
        assert(post.table =~= pre.table);
    }
}

/// As long as all datagrams were of known peers, the table stays.
proof fn lemma_known_so_far<C>(
    run: Seq<IncomingState<C>>,
    datagrams: Seq<UdpDatagram>,
    taken: Seq<Taken<C>>,
    i: int,
)
    requires
        poll_run(run, datagrams, taken),
        0 <= i <= datagrams.len(),
        forall|j: int|
            0 <= j < i ==> run[0].table.dom().contains((#[trigger] datagrams[j]).peer)
                || taken[j].next is Poll,
    ensures
        run[i].table == run[0].table,
        run[i].udp == run[0].udp,
        i > 0 ==> run[i].pending is Nothing,
    decreases i,
{
    if i > 0 {
        lemma_known_so_far(run, datagrams, taken, i - 1);
        assert(takes(run[i - 1], datagrams[i - 1], taken[i - 1], run[i]));
        lemma_taken(run[i - 1], datagrams[i - 1], taken[i - 1], run[i]);
        assert(run[0].table.dom().contains(datagrams[i - 1].peer) || taken[i - 1].next is Poll);
    }
}

/// The first stranger ends a run, and nobody else does. Where every datagram but the last led to
/// asking the socket for another one, all those were of known peers and went to their own
/// channels. The last one is no exception if it is of a known peer; if not, the connection that it
/// opens is handed out, and is in the table besides those that were.
pub proof fn law_first_stranger_ends_the_run<C>(
    run: Seq<IncomingState<C>>,
    datagrams: Seq<UdpDatagram>,
    taken: Seq<Taken<C>>,
)
    requires
        poll_run(run, datagrams, taken),
        datagrams.len() > 0,
        forall|i: int| 0 <= i < taken.len() - 1 ==> (#[trigger] taken[i]).next is Poll,
    ensures
        forall|i: int|
            0 <= i < taken.len() - 1 ==> own_channel(
                run[0].table,
                datagrams[i],
                #[trigger] taken[i],
            ),
        match channel_of(run[0].table, datagrams.last().peer) {
            Some(channel) => {
                &&& taken.last().action == Action::Send(channel, datagrams.last())
                &&& taken.last().next == Action::<C>::Poll
                &&& run.last().table == run[0].table
            },
            None => {
                &&& taken.last().action == Action::<C>::Open(datagrams.last())
                &&& taken.last().next matches Action::Accept(stream) && opened_by(
                    stream,
                    datagrams.last(),
                    run[0].udp,
                )
                &&& run.last().table == run[0].table.insert(
                    datagrams.last().peer,
                    taken.last().channel,
                )
            },
        },
{
    let last = taken.len() - 1;
    assert forall|i: int| 0 <= i < last implies own_channel(
        run[0].table,
        datagrams[i],
        #[trigger] taken[i],
    ) by {
        lemma_known_so_far(run, datagrams, taken, i);
        lemma_taken(run[i], datagrams[i], taken[i], run[i + 1]);
    }
    lemma_known_so_far(run, datagrams, taken, last);
    assert(takes(run[last], datagrams[last], taken[last], run[last + 1]));
    lemma_taken(run[last], datagrams[last], taken[last], run[last + 1]);
}

/// The datagrams that were put into a channel, in their order.
pub open spec fn put_into<C>(taken: Seq<Taken<C>>, channel: C) -> Seq<UdpDatagram>
    decreases taken.len(),
{
    if taken.len() == 0 {
        Seq::empty()
    } else {
        let before = put_into(taken.drop_last(), channel);
        match taken.last().action {
            Action::Send(to, datagram) if to == channel => before.push(datagram),
            _ => before,
        }
    }
}

/// The datagrams of one peer, in their order.
pub open spec fn of_peer(datagrams: Seq<UdpDatagram>, peer: PeerAddr) -> Seq<UdpDatagram>
    decreases datagrams.len(),
{
    if datagrams.len() == 0 {
        Seq::empty()
    } else {
        let before = of_peer(datagrams.drop_last(), peer);
        if datagrams.last().peer == peer {
            before.push(datagrams.last())
        } else {
            before
        }
    }
}

/// In a run of known peers every channel gets the datagrams of its own peer, all of them, as they
/// are and in their order, and no others. The table is what it was, and with no datagram left
/// nothing is handed out. (A channel that two peers shared would get the datagrams of both.)
pub proof fn law_channels_get_their_datagrams<C>(
    run: Seq<IncomingState<C>>,
    datagrams: Seq<UdpDatagram>,
    taken: Seq<Taken<C>>,
    peer: PeerAddr,
    channel: C,
    action: Action<C>,
    post: IncomingState<C>,
)
    requires
        poll_run(run, datagrams, taken),
        forall|i: int|
            0 <= i < datagrams.len() ==> run[0].table.dom().contains(
                (#[trigger] datagrams[i]).peer,
            ),
        channel_of(run[0].table, peer) == Some(channel),
        forall|other: PeerAddr|
            other != peer ==> #[trigger] channel_of(run[0].table, other) != Some(channel),
        polls(run.last(), Event::NotReady, action, post),
    ensures
        put_into(taken, channel) == of_peer(datagrams, peer),
        run.last().table == run[0].table,
        action == Action::<C>::NotReady,
        post == run.last(),
    decreases datagrams.len(),
{
    lemma_known_so_far(run, datagrams, taken, datagrams.len() as int);
    lemma_put_into(run, datagrams, taken, peer, channel);
}

/// A channel gets the datagrams of its peer.
proof fn lemma_put_into<C>(
    run: Seq<IncomingState<C>>,
    datagrams: Seq<UdpDatagram>,
    taken: Seq<Taken<C>>,
    peer: PeerAddr,
    channel: C,
)
    requires
        poll_run(run, datagrams, taken),
        forall|i: int|
            0 <= i < datagrams.len() ==> run[0].table.dom().contains(
                (#[trigger] datagrams[i]).peer,
            ),
        channel_of(run[0].table, peer) == Some(channel),
        forall|other: PeerAddr|
            other != peer ==> #[trigger] channel_of(run[0].table, other) != Some(channel),
    ensures
        put_into(taken, channel) == of_peer(datagrams, peer),
    decreases datagrams.len(),
{
    if datagrams.len() > 0 {
        let last = datagrams.len() - 1;
        let fewer = datagrams.drop_last();
        assert forall|i: int| 0 <= i < fewer.len() implies run[0].table.dom().contains(
            (#[trigger] fewer[i]).peer,
        ) by {
            assert(fewer[i] == datagrams[i]);
        }
        assert forall|i: int| 0 <= i < taken.drop_last().len() implies takes(
            run.drop_last()[i],
            fewer[i],
            #[trigger] taken.drop_last()[i],
            run.drop_last()[i + 1],
        ) by {
            assert(takes(run[i], datagrams[i], taken[i], run[i + 1]));
        }
        lemma_put_into(run.drop_last(), fewer, taken.drop_last(), peer, channel);
        lemma_known_so_far(run, datagrams, taken, last);
        assert(takes(run[last], datagrams[last], taken[last], run[last + 1]));
        lemma_taken(run[last], datagrams[last], taken[last], run[last + 1]);
        assert(channel_of(run[0].table, datagrams[last].peer) is Some);
    }
}

/// An accepted connection answers its peer: every datagram that it ever sends goes to exactly the
/// address that the datagram came from which opened it, and opens with the conversation id that this
/// datagram opened with. It goes through a clone of the server's own way out.
pub proof fn law_accepted_connection_answers_its_peer<C>(
    pre: IncomingState<C>,
    datagram: UdpDatagram,
    action: Action<C>,
    mid: IncomingState<C>,
    channel: C,
    stream: KcpServerStream,
    post: IncomingState<C>,
    run: Seq<KcpState>,
    t: int,
    i: int,
)
    requires
        polls(pre, Event::Datagram(datagram), action, mid),
        polls(mid, Event::Sent(channel), Action::Accept(stream), post),
        run.len() > 0,
        run[0] == stream@.kcp@,
        0 <= t < run.len(),
        forall|j: int| 0 <= j < run.len() - 1 ==> #[trigger] connection_goes_on(run, j),
        0 <= i < run[t].sent.len(),
    ensures
        run[t].sent[i].0 == datagram.peer,
        le_u32(run[t].sent[i].1) == le_u32(datagram.data@) as u32,
        strictly_cloned(pre.udp, stream@.kcp@.sender),
        stream@.buffered.len() == 0,
        channel_of(post.table, datagram.peer) == Some(channel),
{
    law_connection_keeps_its_peer(run, t, i);
}

/// A failure of the socket is passed on as it is, and neither it nor a socket without datagrams
/// changes anything.
pub proof fn law_failures_are_passed_on<C>(
    pre: IncomingState<C>,
    event: Event<C>,
    action: Action<C>,
    post: IncomingState<C>,
)
    requires
        polls(pre, event, action, post),
        event is Failed || event is NotReady,
    ensures
        event matches Event::Failed(e) ==> action == Action::<C>::Fail(e),
        event is NotReady ==> action is NotReady,
        post == pre,
{
}

} // verus!
