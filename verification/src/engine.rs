//! The protocol engine: `kcp::Kcp` writing to a `KcpOutput`.
//!
//! The engine counts segments, fragments, attempts and milliseconds in small numbers and compares them
//! by subtraction. Where the `kcp` crate is built without arithmetic overflow checks, as in an
//! optimised build, these numbers go round and the engine counts on. Where it is built with them, as
//! in a default debug build, each of these stops the program: a counter or the clock that goes
//! round, and also a single datagram, whose fragment byte is 255 or whose numbers or time are far from
//! the engine's own. The crate lets nobody look at those numbers, so no caller could tell such an
//! input beforehand. Hence an engine is made only for a program that has found the arithmetic to go
//! round, a `GoesRound`, and every call that depends on it requires such an engine.
use crate::error::{result_of, KcpError};
use crate::output::KcpOutput;
use crate::protocol::{input_result, new_state, refused_at_once, tuned_state, KcpState};
use vstd::prelude::*;

verus! {

/// What a program has that found the arithmetic of the `kcp` crate to go round where a number does
/// not fit. It finds out by a trial: an engine of its own, taken to the ends of its numbers.
#[derive(Debug, Clone, Copy)]
pub struct GoesRound {
    found: (),
}

impl GoesRound {
    /// What the program found: `stopped` is whether the trial stopped, by a panic. A program whose
    /// trial stopped gets no engine.
    pub fn found(stopped: bool) -> (r: Option<GoesRound>)
        ensures
            r is None <==> stopped,
    {
        if stopped {
            None
        } else {
            Some(GoesRound { found: () })
        }
    }
}

/// A protocol engine: `kcp::Kcp` with a `KcpOutput` as its writer.
///
/// `kcp::Kcp` bounds its parameter by `std::io::Write`, a trait without a declaration, and cannot be
/// declared by itself for that reason; it stands in a private field of this opaque struct.
#[verifier::external_body]
pub struct Kcp {
    kcp: kcp::Kcp<KcpOutput>,
}

/// What the library relies on in an engine.
pub uninterp spec fn kcp_state(kcp: Kcp) -> KcpState;

/// The engine after `kcp::Kcp::input` took these bytes in.
pub uninterp spec fn after_input(kcp: Kcp, data: Seq<u8>) -> Kcp;

/// The engine after `kcp::Kcp::recv` took the next message out.
pub uninterp spec fn after_recv(kcp: Kcp) -> Kcp;

/// The engine after `kcp::Kcp::send` took this message in.
pub uninterp spec fn after_send(kcp: Kcp, data: Seq<u8>) -> Kcp;

/// The engine after `kcp::Kcp::update` at this time.
pub uninterp spec fn after_update(kcp: Kcp, now: u32) -> Kcp;

/// The engine after `kcp::Kcp::flush`.
pub uninterp spec fn after_flush(kcp: Kcp) -> Kcp;

impl View for Kcp {
    type V = KcpState;

    open spec fn view(&self) -> KcpState {
        kcp_state(*self)
    }
}

/// Calls `kcp::Kcp::new`.
///
/// Believed: the engine has this conversation id and this writer, the default settings of the
/// crate, and empty queues. That its arithmetic goes round is what the program found of the crate it
/// is built with.
#[verifier::external_body]
fn kcp_new(conv: u32, output: KcpOutput, _found: GoesRound) -> (r: Kcp)
    ensures
        kcp_state(r) == new_state(conv, output.peer(), output.udp()),
{
    Kcp { kcp: kcp::Kcp::new(conv, output) }
}

/// Calls `kcp::Kcp::set_mtu`.
///
/// Believed: a transmission unit under 50 bytes is refused and nothing changes; any other is taken
/// over and nothing else changes. `requires` keeps the buffer that is reserved for it, three
/// times as long, within reach, and leaves out an engine that has segments cut for another unit.
#[verifier::external_body]
fn kcp_set_mtu(kcp: &mut Kcp, mtu: usize) -> (r: Result<(), kcp::Error>)
    requires
        mtu <= 0x1000_0000,
        !old(kcp)@.updated,
        old(kcp)@.queued.len() == 0,
    ensures
        result_of(r) == (if mtu < 50 {
            Err(KcpError::InvalidMtu(mtu))
        } else {
            Ok(())
        }),
        mtu < 50 ==> *final(kcp) == *old(kcp),
        mtu >= 50 ==> final(kcp)@ == (KcpState { mtu, ..old(kcp)@ }),
{
    kcp.kcp.set_mtu(mtu)
}

/// Calls `kcp::Kcp::set_wndsize`.
///
/// Believed: a window of 0 leaves the window as it is; the receive window is at least 128 segments
/// once it is set; nothing else changes.
#[verifier::external_body]
fn kcp_set_wndsize(kcp: &mut Kcp, snd_wnd: u16, rcv_wnd: u16)
    ensures
        final(kcp)@ == (KcpState {
            snd_wnd: if snd_wnd > 0 {
                snd_wnd
            } else {
                old(kcp)@.snd_wnd
            },
            rcv_wnd: if rcv_wnd >= 128 {
                rcv_wnd
            } else if rcv_wnd > 0 {
                128
            } else {
                old(kcp)@.rcv_wnd
            },
            ..old(kcp)@
        }),
{
    kcp.kcp.set_wndsize(snd_wnd, rcv_wnd)
}

/// Calls `kcp::Kcp::set_nodelay`.
///
/// Believed: the interval is brought between 10 and 5000 milliseconds, a negative `resend` leaves
/// fast resending as it is, `nodelay` also sets the shortest timeout, to 30 or 100
/// milliseconds, and nothing else changes.
#[verifier::external_body]
fn kcp_set_nodelay(kcp: &mut Kcp, nodelay: bool, interval: i32, resend: i32, nc: bool)
    ensures
        final(kcp)@ == (KcpState {
            nodelay,
            min_rto: if nodelay {
                30
            } else {
                100
            },
            interval: if interval < 10 {
                10
            } else if interval > 5000 {
                5000
            } else {
                interval as u32
            },
            fast_resend: if resend >= 0 {
                resend as u32
            } else {
                old(kcp)@.fast_resend
            },
            no_cwnd: nc,
            ..old(kcp)@
        }),
{
    kcp.kcp.set_nodelay(nodelay, interval, resend, nc)
}

/// Calls `kcp::Kcp::mtu`.
///
/// Believed: the transmission unit.
#[verifier::external_body]
pub(crate) fn kcp_mtu(kcp: &Kcp) -> (r: usize)
    ensures
        r == kcp@.mtu,
{
    kcp.kcp.mtu()
}

/// Calls `kcp::Kcp::peeksize`.
///
/// Believed: the length of the next message, or the reason why there is none, as the receive queue
/// has it. `requires` leaves out an engine that stops where its numbers end: a fragment byte of 255
/// in front of the queue would stop it.
#[verifier::external_body]
pub(crate) fn kcp_peeksize(kcp: &Kcp) -> (r: Result<usize, kcp::Error>)
    requires
        kcp@.goes_round,
    ensures
        match kcp@.next() {
            Err(e) => result_of(r) == Err::<usize, _>(e),
            Ok(n) => r matches Ok(len) && len == n,
        },
{
    kcp.kcp.peeksize()
}

/// Calls `kcp::Kcp::recv`.
///
/// Believed: where there is no next message the call fails as a look at the next message does, and
/// where it is longer than `buf` it fails for that; in both cases nothing changes. Otherwise
/// the message goes from the front of the receive queue to the front of `buf`. Segments that came
/// early then join the queue at its end as far as the window has room, in the order of their
/// numbers; no setting, nothing in the send queue and nothing that was written changes. `requires`
/// leaves out an engine that stops where its numbers end: a fragment byte of 255 in front of the
/// queue, or a full count of segments, would stop it.
#[verifier::external_body]
pub(crate) fn kcp_recv(kcp: &mut Kcp, buf: &mut [u8]) -> (r: Result<usize, kcp::Error>)
    requires
        old(kcp)@.goes_round,
    ensures
        final(buf)@.len() == old(buf)@.len(),
        match old(kcp)@.next() {
            Err(e) => result_of(r) == Err::<usize, _>(e),
            Ok(n) => if n > old(buf)@.len() {
                result_of(r) == Err::<usize, _>(KcpError::UserBufTooSmall)
            } else {
                r matches Ok(len) && len == n
            },
        },
        r is Err ==> *final(kcp) == *old(kcp) && final(buf)@ == old(buf)@,
        r matches Ok(n) ==> {
            &&& final(buf)@ == old(kcp)@.received().take(n as int) + old(buf)@.skip(n as int)
            &&& *final(kcp) == after_recv(*old(kcp))
            &&& old(kcp)@.received_into(final(kcp)@)
            &&& old(kcp)@.took_message(final(kcp)@)
            &&& final(kcp)@.settled()
            &&& final(kcp)@.due == old(kcp)@.due
            &&& old(kcp)@.still_agrees(final(kcp)@)
        },
{
    kcp.kcp.recv(buf)
}

/// Calls `kcp::Kcp::input`.
///
/// Believed: the datagram is read segment by segment up to the first one that is refused, which
/// decides the result. Where that is the very first, nothing changes. What the engine becomes is
/// a function of the engine and the bytes. Segments may join the receive queue at its end, each only
/// in the place that its number gives it, so that what agreed with the segments of the other end
/// still does if the datagram does. A segment in front whose turn it is joins at once where the
/// window has room, and where no segment was left behind its turn before, none is after. A segment
/// of this end stays under way unless the datagram says that it came. No setting, nothing in the send queue and nothing that was written changes. Which segments are
/// kept for later is left unsaid: it goes by the window and by all that came before. `requires`
/// leaves out an engine that stops where its numbers end: numbers or a time far from its own, or a
/// full count, would stop it.
#[verifier::external_body]
pub(crate) fn kcp_input(kcp: &mut Kcp, data: &[u8]) -> (r: Result<usize, kcp::Error>)
    requires
        old(kcp)@.ready(),
    ensures
        result_of(r) == input_result(old(kcp)@.conv, data@),
        *final(kcp) == after_input(*old(kcp), data@),
        refused_at_once(old(kcp)@.conv, data@) ==> *final(kcp) == *old(kcp),
        old(kcp)@.received_into(final(kcp)@),
        final(kcp)@.taken == old(kcp)@.taken,
        old(kcp)@.joins_at_once(data@, final(kcp)@),
        old(kcp)@.settled() ==> final(kcp)@.settled(),
        old(kcp)@.acknowledged(data@, final(kcp)@),
        old(kcp)@.still_agrees_after(data@, final(kcp)@),
{
    kcp.kcp.input(data)
}

/// Calls `kcp::Kcp::send`.
///
/// Believed: a message that needs too many fragments is refused and nothing changes; any other
/// joins the send queue at its end, cut into segments, and nothing else changes. `requires` leaves
/// out an engine without room for a byte in a segment, on which the call panics.
#[verifier::external_body]
pub(crate) fn kcp_send(kcp: &mut Kcp, data: &[u8]) -> (r: Result<usize, kcp::Error>)
    requires
        old(kcp)@.ready(),
    ensures
        result_of(r) == (if old(kcp)@.sendable(data@.len()) {
            Ok(data@.len() as usize)
        } else {
            Err(KcpError::UserBufTooBig)
        }),
        r is Err ==> *final(kcp) == *old(kcp),
        r is Ok ==> {
            &&& *final(kcp) == after_send(*old(kcp), data@)
            &&& final(kcp)@ == old(kcp)@.with_message(data@)
        },
{
    kcp.kcp.send(data)
}

/// Calls `kcp::Kcp::update`.
///
/// Believed: the engine is a function of the one before and the time, which it was told then, and from
/// then on counts as updated. Nothing changes but what sending changes: segments get their numbers in the order in
/// which they were cut, and go out with those numbers. The call only fails where the writer
/// does, and a `KcpOutput` does not. `requires` leaves out an engine that stops where its numbers
/// end: a time across the end of the signed or unsigned 32-bit numbers, or a full count, would stop
/// it.
#[verifier::external_body]
pub(crate) fn kcp_update(kcp: &mut Kcp, now: u32) -> (r: Result<(), kcp::Error>)
    requires
        old(kcp)@.goes_round,
    ensures
        r is Ok,
        *final(kcp) == after_update(*old(kcp), now),
        final(kcp)@.updated,
        final(kcp)@.current == now,
        old(kcp)@.pushed_out(final(kcp)@),
{
    kcp.kcp.update(now)
}

/// Calls `kcp::Kcp::flush`.
///
/// Believed: before the first update the call fails and nothing changes. After it the engine is a
/// function of the one before, and nothing changes but what sending changes. Each segment under way
/// whose time to be sent again has come goes out. The call then only fails where the writer does, and a `KcpOutput` does not. `requires` leaves out an engine that
/// stops where its numbers end: a time near that end, or a full count, would stop it.
#[verifier::external_body]
pub(crate) fn kcp_flush(kcp: &mut Kcp) -> (r: Result<(), kcp::Error>)
    requires
        old(kcp)@.goes_round,
    ensures
        result_of(r) == (if old(kcp)@.updated {
            Ok(())
        } else {
            Err(KcpError::NeedUpdate)
        }),
        r is Err ==> *final(kcp) == *old(kcp),
        r is Ok ==> {
            &&& *final(kcp) == after_flush(*old(kcp))
            &&& final(kcp)@.updated
            &&& final(kcp)@.current == old(kcp)@.current
            &&& old(kcp)@.pushed_out(final(kcp)@)
            &&& old(kcp)@.sends_again(old(kcp)@.current, final(kcp)@)
        },
{
    kcp.kcp.flush()
}

impl Kcp {
    /// The engine of one connection: conversation `conv`, datagrams of at most 1000 bytes, windows
    /// of 1024 segments, a flush every 10 milliseconds, lost segments sent again at once.
    pub fn tuned(conv: u32, output: KcpOutput, found: GoesRound) -> (kcp: Kcp)
        ensures
            kcp@ == tuned_state(conv, output.peer(), output.udp()),
            kcp@.ready(),
            kcp@.settled(),
    {
        let mut kcp = kcp_new(conv, output, found);
        // Larger datagrams do not fit into the socket's buffer of 1024 bytes.
        let _ = kcp_set_mtu(&mut kcp, 1000);
        kcp_set_wndsize(&mut kcp, 1024, 1024);
        kcp_set_nodelay(&mut kcp, true, 10, 1, false);
        kcp
    }
}

} // verus!
