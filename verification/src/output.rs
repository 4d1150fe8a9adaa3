//! Where the protocol engine writes the datagrams of one connection.
use crate::datagram::{PeerAddr, UdpDatagram};
use futures::sync::mpsc::UnboundedSender;
use vstd::pervasive::strictly_cloned;
use vstd::prelude::*;

verus! {

/// Opaque declaration of `futures::sync::mpsc::UnboundedSender`, the sending half of an unbounded
/// channel.
#[verifier::external_type_specification]
#[verifier::external_body]
#[verifier::reject_recursive_types(T)]
pub struct ExUnboundedSender<T>(futures::sync::mpsc::UnboundedSender<T>);

/// The datagrams that were handed over through this sender since it was made, in order.
pub uninterp spec fn handed(udp: UnboundedSender<UdpDatagram>) -> Seq<(PeerAddr, Seq<u8>)>;

/// Calls `UnboundedSender::unbounded_send` and drops its result.
///
/// Believed: the datagram is handed over behind all earlier ones. Whether anybody still takes
/// datagrams out at the other end is not said: the call reports it, and nothing depends on it here.
#[verifier::external_body]
fn hand_over(udp: &mut UnboundedSender<UdpDatagram>, datagram: UdpDatagram)
    ensures
        handed(*final(udp)) == handed(*old(udp)).push(datagram@),
{
    let _ = udp.unbounded_send(datagram);
}

/// Calls `UnboundedSender::clone`.
///
/// Believed: the result is a clone of `udp`, and nothing was handed over through it yet. What being a
/// clone means to the receiver, that both feed one channel, is left unsaid: what a channel holds
/// is the business of its receiver. The call panics where a quarter of all `usize` numbers of
/// senders exist, more than any memory holds.
#[verifier::external_body]
fn another_sender(udp: &UnboundedSender<UdpDatagram>) -> (r: UnboundedSender<UdpDatagram>)
    ensures
        handed(r) == Seq::<(PeerAddr, Seq<u8>)>::empty(),
        strictly_cloned(*udp, r),
{
    udp.clone()
}

/// What a write does: the datagrams sent grow by one, to the peer and with the bytes written, and
/// their count is returned.
pub open spec fn emits(
    peer: PeerAddr,
    before: Seq<(PeerAddr, Seq<u8>)>,
    bytes: Seq<u8>,
    r: std::io::Result<usize>,
    after: Seq<(PeerAddr, Seq<u8>)>,
) -> bool {
    &&& r matches Ok(n) && n == bytes.len()
    &&& after == before.push((peer, bytes))
}

/// Whether a writer sends to `peer` through `udp`.
pub open spec fn made_for(
    output: KcpOutput,
    udp: UnboundedSender<UdpDatagram>,
    peer: PeerAddr,
) -> bool {
    &&& output.peer() == peer
    &&& output.udp() == udp
}

/// The writer of one connection: each write becomes one datagram to the peer.
pub struct KcpOutput {
    udp: UnboundedSender<UdpDatagram>,
    peer: PeerAddr,
}

impl KcpOutput {
    /// The address that every datagram goes to.
    pub closed spec fn peer(&self) -> PeerAddr {
        self.peer
    }

    /// The sender that datagrams go through.
    pub closed spec fn udp(&self) -> UnboundedSender<UdpDatagram> {
        self.udp
    }

    /// The datagrams written so far.
    pub open spec fn sent(&self) -> Seq<(PeerAddr, Seq<u8>)> {
        handed(self.udp())
    }

    /// A writer that sends to `peer` through `udp`.
    pub fn new(udp: UnboundedSender<UdpDatagram>, peer: PeerAddr) -> (output: KcpOutput)
        ensures
            output.peer() == peer,
            output.udp() == udp,
            made_for(output, udp, peer),
    {
        KcpOutput { udp, peer }
    }

    /// A writer that sends to `peer` through a sender of its own beside `udp`.
    pub fn beside(udp: &UnboundedSender<UdpDatagram>, peer: PeerAddr) -> (output: KcpOutput)
        ensures
            output.peer() == peer,
            strictly_cloned(*udp, output.udp()),
            output.sent() == Seq::<(PeerAddr, Seq<u8>)>::empty(),
    {
        KcpOutput::new(another_sender(udp), peer)
    }
}

impl std::io::Write for KcpOutput {
    /// Sends `buf` as one datagram to the peer; this never fails.
    fn write(&mut self, buf: &[u8]) -> (r: std::io::Result<usize>)
        ensures
            r == std::io::Result::<usize>::Ok(buf@.len() as usize),
            final(self).peer() == old(self).peer(),
            final(self).sent() == old(self).sent().push((old(self).peer(), buf@)),
            emits(old(self).peer(), old(self).sent(), buf@, r, final(self).sent()),
    {
        let mut data: Vec<u8> = Vec::new();
        data.extend_from_slice(buf);
        assert(data@ =~= buf@);
        hand_over(&mut self.udp, UdpDatagram { peer: self.peer, data });
        Ok(buf.len())
    }

    /// Nothing is held back, so there is nothing to flush.
    fn flush(&mut self) -> (r: std::io::Result<()>)
        ensures
            r is Ok,
            *final(self) == *old(self),
    {
        Ok(())
    }
}

} // verus!
