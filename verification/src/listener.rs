//! The server's table of connections: which datagram goes where.
use crate::datagram::{le_u32, PeerAddr, UdpDatagram};
use crate::engine::GoesRound;
use crate::io::ReadBuffer;
use crate::output::KcpOutput;
use crate::protocol::tuned_state;
use crate::stream::KcpServerStream;
use futures::sync::mpsc::UnboundedSender;
use vstd::pervasive::strictly_cloned;
use vstd::prelude::*;

verus! {

/// How many datagrams wait for a connection before their sender has to wait.
pub const CHANNEL_CAPACITY: usize = 10240;

/// The channel that a table has for datagrams of `peer`.
pub open spec fn channel_of<C>(table: Map<PeerAddr, C>, peer: PeerAddr) -> Option<C> {
    if table.dom().contains(peer) {
        Some(table[peer])
    } else {
        None
    }
}

/// The connections of a server: for each peer, the channel that its datagrams go to.
pub struct KcpListener<C> {
    udp: UnboundedSender<UdpDatagram>,
    found: GoesRound,
    connections: Vec<(PeerAddr, C)>,
}

impl<C> View for KcpListener<C> {
    type V = Map<PeerAddr, C>;

    closed spec fn view(&self) -> Map<PeerAddr, C> {
        Map::new(
            |peer: PeerAddr| exists|i: int| self.is_at(peer, i),
            |peer: PeerAddr| self.connections@[choose|i: int| self.is_at(peer, i)].1,
        )
    }
}

impl<C> KcpListener<C> {
    /// No peer is listed twice.
    pub closed spec fn wf(&self) -> bool {
        forall|i: int, j: int|
            0 <= i < j < self.connections@.len() ==> (#[trigger] self.connections@[i]).0 != (
            #[trigger] self.connections@[j]).0
    }

    /// The way out of the socket.
    pub closed spec fn udp(&self) -> UnboundedSender<UdpDatagram> {
        self.udp
    }

    /// Whether `peer` is the `i`-th in the list.
    spec fn is_at(&self, peer: PeerAddr, i: int) -> bool {
        0 <= i < self.connections@.len() && self.connections@[i].0 == peer
    }

    /// What the table has for the peer in a place of the list is what stands there.
    proof fn lemma_at(&self, i: int)
        requires
            self.wf(),
            0 <= i < self.connections@.len(),
        ensures
            self@.dom().contains(self.connections@[i].0),
            self@[self.connections@[i].0] == self.connections@[i].1,
    {
        let peer = self.connections@[i].0;
        assert(self.is_at(peer, i));
        let j = choose|j: int| self.is_at(peer, j);
        assert(self.is_at(peer, j));
        assert(i == j);
    }

    /// A server without connections, which sends through `udp`, the way out of a bound socket.
    pub fn bind(
        udp: UnboundedSender<UdpDatagram>,
        found: GoesRound,
    ) -> (listener: KcpListener<C>)
        ensures
            listener.wf(),
            listener@ == Map::<PeerAddr, C>::empty(),
            listener.udp() == udp,
    {
        let listener = KcpListener { udp, found, connections: Vec::new() };
        assert(listener@ =~= Map::<PeerAddr, C>::empty());
        listener
    }

    /// The connections that datagrams open one after another.
    pub fn incoming(self) -> (incoming: Incoming<C>)
        requires
            self.wf(),
        ensures
            incoming.wf(),
            incoming.udp() == self.udp(),
            incoming@ == (IncomingState {
                udp: self.udp(),
                table: self@,
                pending: Pending::Nothing,
            }),
    {
        Incoming { inner: self, pending: Pending::Nothing }
    }

    /// Whether there is a connection with `peer`.
    pub fn contains_key(&self, peer: PeerAddr) -> (known: bool)
        requires
            self.wf(),
        ensures
            known == self@.dom().contains(peer),
    {
        match self.find(peer) {
            Some(i) => {
                proof {
                    self.lemma_at(i as int);
                }
                true
            },
            None => false,
        }
    }

    /// The place of `peer` in the list.
    fn find(&self, peer: PeerAddr) -> (place: Option<usize>)
        requires
            self.wf(),
        ensures
            match place {
                Some(i) => self.is_at(peer, i as int),
                None => !self@.dom().contains(peer),
            },
    {
        let mut i: usize = 0;
        while i < self.connections.len()
            invariant
                i <= self.connections@.len(),
                forall|j: int| 0 <= j < i ==> (#[trigger] self.connections@[j]).0 != peer,
            decreases self.connections@.len() - i,
        {
            if self.connections[i].0 == peer {
                return Some(i);
            }
            i = i + 1;
        }
        None
    }

    /// Takes the channel of `peer` out of the table.
    fn remove(&mut self, peer: PeerAddr) -> (channel: Option<C>)
        requires
            old(self).wf(),
        ensures
            final(self).wf(),
            channel == channel_of(old(self)@, peer),
            final(self)@ == old(self)@.remove(peer),
            final(self).udp() == old(self).udp(),
    {
        match self.find(peer) {
            Some(i) => {
                proof {
                    self.lemma_at(i as int);
                }
                let (_, channel) = self.connections.remove(i);
                proof {
                    assert(self.wf());
                    assert forall|p: PeerAddr|
                        self@.dom().contains(p) <==> old(self)@.remove(peer).dom().contains(p) by {
                        if self@.dom().contains(p) {
                            let k = choose|k: int| self.is_at(p, k);
                            assert(old(self).is_at(p, if k < i {
                                k
                            } else {
                                k + 1
                            }));
                        }
                        if old(self)@.dom().contains(p) && p != peer {
                            let k = choose|k: int| old(self).is_at(p, k);
                            assert(self.is_at(p, if k < i {
                                k
                            } else {
                                k - 1
                            }));
                        }
                    }
                    assert forall|p: PeerAddr| self@.dom().contains(p) implies self@[p] == old(
                        self,
                    )@[p] by {
                        let k = choose|k: int| self.is_at(p, k);
                        self.lemma_at(k);
                        old(self).lemma_at(if k < i {
                            k
                        } else {
                            k + 1
                        });
                    }
                    assert(self@ =~= old(self)@.remove(peer));
                }
                Some(channel)
            },
            None => {
                assert(self@ =~= old(self)@.remove(peer));
                None
            },
        }
    }

    /// Puts a channel for `peer` into the table, in the place of the one it had.
    fn insert(&mut self, peer: PeerAddr, channel: C)
        requires
            old(self).wf(),
        ensures
            final(self).wf(),
            final(self)@ == old(self)@.insert(peer, channel),
            final(self).udp() == old(self).udp(),
    {
        let _ = self.remove(peer);
        let ghost rest = *self;
        self.connections.push((peer, channel));
        proof {
            let last = rest.connections@.len() as int;
            assert forall|k: int| 0 <= k < last implies (#[trigger] self.connections@[k]).0
                != peer by {
                rest.lemma_at(k);
            }
            assert(self.wf());
            self.lemma_at(last);
            assert forall|p: PeerAddr|
                self@.dom().contains(p) <==> old(self)@.insert(peer, channel).dom().contains(p) by {
                if self@.dom().contains(p) && p != peer {
                    let k = choose|k: int| self.is_at(p, k);
                    assert(rest.is_at(p, k));
                }
                if rest@.dom().contains(p) {
                    let k = choose|k: int| rest.is_at(p, k);
                    assert(self.is_at(p, k));
                }
            }
            assert forall|p: PeerAddr| self@.dom().contains(p) implies #[trigger] self@[p] == old(
                self,
            )@.insert(peer, channel)[p] by {
                if p != peer {
                    let k = choose|k: int| self.is_at(p, k);
                    self.lemma_at(k);
                    rest.lemma_at(k);
                    assert(rest@[p] == old(self)@[p]);
                } else {
                    assert(self.connections@[last] == (peer, channel));
                }
            }
            assert(self@ =~= old(self)@.insert(peer, channel));
        }
    }
}

/// A datagram that was given out and of which it is not known yet whether a channel took it.
pub enum Pending {
    /// There is none.
    Nothing,
    /// It goes to the channel of this peer.
    Delivering(PeerAddr),
    /// It goes to a new channel, for the connection that it opens with this peer.
    Opening(PeerAddr, KcpServerStream),
}

/// What happened.
pub enum Event<C> {
    /// A datagram came from the socket.
    Datagram(UdpDatagram),
    /// No datagram is there yet.
    NotReady,
    /// The socket failed, with this error.
    Failed(std::io::Error),
    /// The datagram given out last was taken; this is the channel that took it.
    Sent(C),
    /// The datagram given out last was not taken: nobody is at the other end of its channel.
    NotSent,
}

/// What is to be done next.
pub enum Action<C> {
    /// Ask the socket for the next datagram.
    Poll,
    /// Put the datagram into the channel, and tell how that went.
    Send(C, UdpDatagram),
    /// Make a channel for `CHANNEL_CAPACITY` datagrams, put the datagram into it, and tell how that
    /// went.
    Open(UdpDatagram),
    /// Hand this connection out; its datagrams come through the channel made last.
    Accept(KcpServerStream),
    /// Give up until there is more to do.
    NotReady,
    /// Pass on that the socket failed, with this error.
    Fail(std::io::Error),
}

/// What an `Incoming` is.
pub struct IncomingState<C> {
    /// The way out of the socket.
    pub udp: UnboundedSender<UdpDatagram>,
    /// The channel of each connection.
    pub table: Map<PeerAddr, C>,
    /// The datagram that is under way.
    pub pending: Pending,
}

impl<C> IncomingState<C> {
    /// Whether the event can happen now: an answer comes after a datagram was given out, anything
    /// else comes before. A datagram that opens a connection holds a conversation id.
    pub open spec fn admits(self, event: Event<C>) -> bool {
        match event {
            Event::Datagram(datagram) => {
                &&& self.pending is Nothing
                &&& self.table.dom().contains(datagram.peer) || datagram.data@.len() >= 4
            },
            Event::NotReady | Event::Failed(_) => self.pending is Nothing,
            Event::Sent(_) | Event::NotSent => !(self.pending is Nothing),
        }
    }
}

/// Whether `stream` is the new connection that `datagram` opens: it answers its peer through a clone
/// of `udp` that nothing was sent through yet.
pub open spec fn opened_by(
    stream: KcpServerStream,
    datagram: UdpDatagram,
    udp: UnboundedSender<UdpDatagram>,
) -> bool {
    let state = stream@.kcp@;
    &&& stream.wf()
    &&& stream@.buffered == Seq::<u8>::empty()
    &&& stream.buffer() == (ReadBuffer { len: 0, pos: 0, cap: 0 })
    &&& state == tuned_state(le_u32(datagram.data@) as u32, datagram.peer, state.sender)
    &&& state.sent == Seq::<(PeerAddr, Seq<u8>)>::empty()
    &&& strictly_cloned(udp, state.sender)
}

/// What an event leads to.
///
/// A datagram of a known peer goes to its channel, which leaves the table until it is known
/// that the datagram was taken. A datagram of a stranger opens a connection, which is in the table
/// and is handed out once a new channel took the datagram. The way out of the socket stays.
pub open spec fn polls<C>(
    pre: IncomingState<C>,
    event: Event<C>,
    action: Action<C>,
    post: IncomingState<C>,
) -> bool {
    &&& post.udp == pre.udp
    &&& match event {
        Event::Datagram(datagram) => match channel_of(pre.table, datagram.peer) {
            Some(channel) => {
                &&& action == Action::Send(channel, datagram)
                &&& post.table == pre.table.remove(datagram.peer)
                &&& post.pending == Pending::Delivering(datagram.peer)
            },
            None => {
                &&& action == Action::<C>::Open(datagram)
                &&& post.table == pre.table
                &&& post.pending matches Pending::Opening(peer, stream) && peer == datagram.peer
                    && opened_by(stream, datagram, pre.udp)
            },
        },
        Event::NotReady => action == Action::<C>::NotReady && post == pre,
        Event::Failed(e) => action == Action::<C>::Fail(e) && post == pre,
        Event::Sent(channel) => {
            &&& post.pending is Nothing
            &&& match pre.pending {
                Pending::Nothing => false,
                Pending::Delivering(peer) => {
                    &&& action == Action::<C>::Poll
                    &&& post.table == pre.table.insert(peer, channel)
                },
                Pending::Opening(peer, stream) => {
                    &&& action == Action::<C>::Accept(stream)
                    &&& post.table == pre.table.insert(peer, channel)
                },
            }
        },
        Event::NotSent => {
            &&& post.pending is Nothing
            &&& post.table == pre.table
            &&& match pre.pending {
                Pending::Nothing => false,
                Pending::Delivering(_) => action == Action::<C>::Poll,
                Pending::Opening(_, _) => action == Action::<C>::NotReady,
            }
        },
    }
}

/// The connections that are opened to a server.
pub struct Incoming<C> {
    inner: KcpListener<C>,
    pending: Pending,
}

impl<C> View for Incoming<C> {
    type V = IncomingState<C>;

    closed spec fn view(&self) -> IncomingState<C> {
        IncomingState { udp: self.inner.udp(), table: self.inner@, pending: self.pending }
    }
}

impl<C> Incoming<C> {
    /// The table is well-formed.
    pub closed spec fn wf(&self) -> bool {
        self.inner.wf()
    }

    /// The way out of the socket.
    pub open spec fn udp(&self) -> UnboundedSender<UdpDatagram> {
        self@.udp
    }

    /// Whether there is a connection with `peer`.
    pub fn contains_key(&self, peer: PeerAddr) -> (known: bool)
        requires
            self.wf(),
        ensures
            known == self@.table.dom().contains(peer),
    {
        self.inner.contains_key(peer)
    }

    /// Whether a datagram is under way.
    pub fn is_pending(&self) -> (pending: bool)
        ensures
            pending == !(self@.pending is Nothing),
    {
        match self.pending {
            Pending::Nothing => false,
            _ => true,
        }
    }

    /// What to do after `event`.
    pub fn poll(&mut self, event: Event<C>) -> (action: Action<C>)
        requires
            old(self).wf(),
            old(self)@.admits(event),
        ensures
            final(self).wf(),
            final(self).udp() == old(self).udp(),
            polls(old(self)@, event, action, final(self)@),
    {
        match event {
            Event::Datagram(datagram) => {
                match self.inner.remove(datagram.peer) {
                    Some(channel) => {
                        self.pending = Pending::Delivering(datagram.peer);
                        Action::Send(channel, datagram)
                    },
                    None => {
                        assert(self.inner@ =~= old(self).inner@);
                        let output = KcpOutput::beside(&self.inner.udp, datagram.peer);
                        let stream = KcpServerStream::accept(&datagram, output, self.inner.found);
                        self.pending = Pending::Opening(datagram.peer, stream);
                        Action::Open(datagram)
                    },
                }
            },
            Event::NotReady => Action::NotReady,
            Event::Failed(e) => Action::Fail(e),
            Event::Sent(channel) => {
                let mut pending = Pending::Nothing;
                std::mem::swap(&mut pending, &mut self.pending);
                match pending {
                    Pending::Nothing => Action::Poll,
                    Pending::Delivering(peer) => {
                        self.inner.insert(peer, channel);
                        Action::Poll
                    },
                    Pending::Opening(peer, stream) => {
                        self.inner.insert(peer, channel);
                        Action::Accept(stream)
                    },
                }
            },
            Event::NotSent => {
                let mut pending = Pending::Nothing;
                std::mem::swap(&mut pending, &mut self.pending);
                match pending {
                    Pending::Nothing => Action::Poll,
                    Pending::Delivering(_) => Action::Poll,
                    Pending::Opening(_, _) => Action::NotReady,
                }
            },
        }
    }
}

} // verus!
