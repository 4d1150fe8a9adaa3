//! The two ends of a connection, and what a read or a write on them does next.
use crate::clock::{read_at, time_of};
use crate::datagram::{le_u32, UdpDatagram};
use crate::engine::{GoesRound, Kcp};
use crate::error::KcpError;
use crate::io::{reads, reads_buffer, ticks, IoState, KcpIo, ReadBuffer};
use crate::output::KcpOutput;
use crate::protocol::{refused_at_once, tuned_state};
use vstd::prelude::*;

verus! {

/// What asking for the next datagram of a connection gave.
#[derive(Debug)]
pub enum Polled {
    /// A datagram came.
    Datagram(Vec<u8>),
    /// None is there: not yet, not any more, or the source failed.
    Nothing,
}

/// What a read does next.
#[derive(Debug, Clone, Copy, PartialEq, Eq, Structural)]
pub enum ReadStep {
    /// It is over: so many bytes were read.
    Done(usize),
    /// It asks for the next datagram.
    Again,
    /// It is over: nothing can be read without waiting.
    WouldBlock,
}

/// What a read does after a datagram was taken in and the buffer was read with this result: it is
/// over if bytes came, and asks for the next datagram if none did.
pub fn read_outcome(r: Result<usize, KcpError>) -> (step: ReadStep)
    ensures
        step == (match r {
            Ok(n) => ReadStep::Done(n),
            Err(_) => ReadStep::Again,
        }),
{
    match r {
        Ok(n) => ReadStep::Done(n),
        Err(_) => ReadStep::Again,
    }
}

/// What one step of a read does: where nothing came the read would block and nothing changes; a
/// datagram is taken in, whether or not the engine likes it, and where a message is there then,
/// it is read.
pub open spec fn read_steps(
    pre: IoState,
    polled: Polled,
    buf: Seq<u8>,
    step: ReadStep,
    post: IoState,
    out: Seq<u8>,
) -> bool {
    match polled {
        Polled::Nothing => step == ReadStep::WouldBlock && post == pre && out == buf,
        Polled::Datagram(data) => {
            let mid = pre.taken_in(data@);
            &&& refused_at_once(pre.kcp@.conv, data@) ==> mid == pre
            &&& pre.unread().is_prefix_of(mid.unread())
            &&& pre.kcp@.received_into(mid.kcp@)
            &&& mid.delivered() == pre.delivered()
            &&& mid.kcp@.taken == pre.kcp@.taken
            &&& pre.kcp@.joins_at_once(data@, mid.kcp@)
            &&& pre.kcp@.acknowledged(data@, mid.kcp@)
            &&& pre.kcp@.still_agrees_after(data@, mid.kcp@)
            &&& match mid.fill_error() {
                Some(e) => step == ReadStep::Again && reads(mid, buf, Err(e), post, out),
                None => step matches ReadStep::Done(n) && reads(mid, buf, Ok(n), post, out),
            }
        },
    }
}

/// What one step of a read into `len` bytes does to the read buffer: nothing where no datagram came,
/// else what a read does to it.
pub open spec fn read_steps_buffer(
    pre: IoState,
    polled: Polled,
    len: nat,
    before: ReadBuffer,
    after: ReadBuffer,
) -> bool {
    match polled {
        Polled::Nothing => after == before,
        Polled::Datagram(data) => reads_buffer(pre.taken_in(data@), len, before, after),
    }
}

/// One step of a read.
fn read_step(io: &mut KcpIo, polled: Polled, buf: &mut [u8]) -> (step: ReadStep)
    requires
        old(io).wf(),
    ensures
        final(io).wf(),
        final(buf)@.len() == old(buf)@.len(),
        read_steps(old(io)@, polled, old(buf)@, step, final(io)@, final(buf)@),
        read_steps_buffer(
            old(io)@,
            polled,
            old(buf)@.len(),
            old(io).buffer(),
            final(io).buffer(),
        ),
{
    match polled {
        Polled::Datagram(data) => {
            let _ = io.input(data.as_slice());
            read_outcome(io.read(buf))
        },
        Polled::Nothing => ReadStep::WouldBlock,
    }
}

/// What a write at the time `now` does: the message goes into the send queue and what is due is sent at
/// once, or the message needs too many fragments and nothing changes.
pub open spec fn writes(
    pre: IoState,
    data: Seq<u8>,
    now: u32,
    r: Result<usize, KcpError>,
    post: IoState,
) -> bool {
    &&& r == write_result(pre, data)
    &&& r is Err ==> post == pre
    &&& r is Ok ==> {
        &&& post == pre.with_message(data).ticked(now)
        &&& pre.kcp@.with_message(data).told(now, post.kcp@)
    }
}

/// A write at the time `now`.
fn write_step(io: &mut KcpIo, buf: &[u8], now: u32) -> (r: Result<usize, KcpError>)
    requires
        old(io).wf(),
    ensures
        final(io).wf(),
        final(io).buffer() == old(io).buffer(),
        writes(old(io)@, buf@, now, r, final(io)@),
        r matches Ok(n) ==> final(io)@.kcp@.written() == old(io)@.kcp@.written() + buf@.take(
            n as int,
        ),
{
    match io.write(buf) {
        Ok(n) => {
            io.push_out(now);
            Ok(n)
        },
        Err(e) => Err(e),
    }
}

/// A write at the time that the clock shows once the message is in the send queue.
fn write_now(io: &mut KcpIo, buf: &[u8]) -> (r: Result<usize, KcpError>)
    requires
        old(io).wf(),
    ensures
        final(io).wf(),
        final(io).buffer() == old(io).buffer(),
        r is Ok ==> exists|reading: (i64, i32)| #[trigger]
            writes_now(old(io)@, buf@, reading, r, final(io)@),
        r == write_result(old(io)@, buf@),
        r is Err ==> final(io)@ == old(io)@,
        r matches Ok(n) ==> final(io)@.kcp@.written() == old(io)@.kcp@.written() + buf@.take(
            n as int,
        ),
{
    match io.write(buf) {
        Ok(n) => {
            let ghost queued = io@;
            io.tick();
            proof {
                let reading = choose|reading: (i64, i32)| #[trigger] ticks(queued, reading, io@);
                assert(writes_now(old(io)@, buf@, reading, Ok(n), io@));
            }
            Ok(n)
        },
        Err(e) => Err(e),
    }
}

/// What a write does that takes its time from the clock, which is read once the message is in the
/// send queue.
pub open spec fn writes_now(
    pre: IoState,
    data: Seq<u8>,
    reading: (i64, i32),
    r: Result<usize, KcpError>,
    post: IoState,
) -> bool {
    &&& read_at(pre.with_message(data).kcp, reading)
    &&& writes(pre, data, time_of(reading), r, post)
}

/// What writing a message returns: its length, unless it needs too many fragments.
pub open spec fn write_result(io: IoState, data: Seq<u8>) -> Result<usize, KcpError> {
    if io.kcp@.sendable(data.len()) {
        Ok(data.len() as usize)
    } else {
        Err(KcpError::UserBufTooBig)
    }
}

/// Whether `stream` is a new connection to the peer of `output`.
pub open spec fn connected(stream: KcpStream, output: KcpOutput) -> bool {
    &&& stream.wf()
    &&& stream@.buffered == Seq::<u8>::empty()
    &&& stream@.kcp@ == tuned_state(0, output.peer(), output.udp())
}

/// The client's end of a connection.
pub struct KcpStream {
    kcp_io: KcpIo,
}

impl View for KcpStream {
    type V = IoState;

    closed spec fn view(&self) -> IoState {
        self.kcp_io@
    }
}

impl KcpStream {
    /// The buffered engine is well-formed.
    pub closed spec fn wf(&self) -> bool {
        self.kcp_io.wf()
    }

    /// The read buffer.
    pub closed spec fn buffer(&self) -> ReadBuffer {
        self.kcp_io.buffer()
    }

    /// A well-formed end is coherent, and its engine can be used and is settled. The positions in
    /// its read buffer are in order, and what is buffered stands between them.
    pub proof fn lemma_wf(&self)
        requires
            self.wf(),
        ensures
            self@.coherent(),
            self@.kcp@.ready(),
            self@.kcp@.settled(),
            self.buffer().in_order(),
            self.buffer().remaining() == self@.buffered.len(),
    {
        self.kcp_io.lemma_wf();
    }

    /// Opens conversation 0 with the peer of `output`.
    pub fn connect(output: KcpOutput, found: GoesRound) -> (wrapper: KcpStreamWrapper)
        ensures
            wrapper@ matches Some(stream) && {
                &&& stream.wf()
                &&& stream@.buffered == Seq::<u8>::empty()
                &&& stream.buffer() == (ReadBuffer { len: 0, pos: 0, cap: 0 })
                &&& stream@.kcp@ == tuned_state(0, output.peer(), output.udp())
                &&& connected(stream, output)
            },
    {
        let kcp_io = KcpIo::new(Kcp::tuned(0, output, found));
        KcpStreamWrapper { inner: Some(KcpStream { kcp_io }) }
    }

    /// One step of a read into `buf`.
    pub fn read(&mut self, polled: Polled, buf: &mut [u8]) -> (step: ReadStep)
        requires
            old(self).wf(),
        ensures
            final(self).wf(),
            final(buf)@.len() == old(buf)@.len(),
            read_steps(old(self)@, polled, old(buf)@, step, final(self)@, final(buf)@),
            read_steps_buffer(
                old(self)@,
                polled,
                old(buf)@.len(),
                old(self).buffer(),
                final(self).buffer(),
            ),
    {
        read_step(&mut self.kcp_io, polled, buf)
    }

    /// Writes `buf` as one message at the time `now`.
    pub fn write_at(&mut self, buf: &[u8], now: u32) -> (r: Result<usize, KcpError>)
        requires
            old(self).wf(),
        ensures
            final(self).wf(),
            final(self).buffer() == old(self).buffer(),
            r == write_result(old(self)@, buf@),
            r is Err ==> final(self)@ == old(self)@,
            r is Ok ==> {
                &&& final(self)@ == old(self)@.with_message(buf@).ticked(now)
                &&& final(self)@.kcp@.updated
                &&& old(self)@.kcp@.with_message(buf@).pushed_out(final(self)@.kcp@)
            },
            writes(old(self)@, buf@, now, r, final(self)@),
            r matches Ok(n) ==> final(self)@.kcp@.written() == old(self)@.kcp@.written() + buf@.take(
                n as int,
            ),
    {
        write_step(&mut self.kcp_io, buf, now)
    }

    /// Writes `buf` as one message, now. The time comes from the clock.
    pub fn write(&mut self, buf: &[u8]) -> (r: Result<usize, KcpError>)
        requires
            old(self).wf(),
        ensures
            final(self).wf(),
            final(self).buffer() == old(self).buffer(),
            r == write_result(old(self)@, buf@),
            r is Err ==> final(self)@ == old(self)@,
            r is Ok ==> {
                &&& exists|now: u32| final(self)@ == #[trigger] old(self)@.with_message(buf@).ticked(now)
                &&& final(self)@.kcp@.updated
                &&& old(self)@.kcp@.with_message(buf@).pushed_out(final(self)@.kcp@)
            },
            r is Ok ==> exists|reading: (i64, i32)| #[trigger]
                writes_now(old(self)@, buf@, reading, r, final(self)@),
            r matches Ok(n) ==> final(self)@.kcp@.written() == old(self)@.kcp@.written() + buf@.take(
                n as int,
            ),
    {
        let r = write_now(&mut self.kcp_io, buf);
        proof {
            if r is Ok {
                let reading = choose|reading: (i64, i32)| #[trigger]
                    writes_now(old(self).kcp_io@, buf@, reading, r, self@);
                assert(writes_now(old(self)@, buf@, reading, r, self@));
                assert(self@ == old(self)@.with_message(buf@).ticked(time_of(reading)));
            }
        }
        r
    }

    /// A write already sends what is due: there is nothing to flush.
    pub fn flush(&mut self) -> (r: Result<(), KcpError>)
        ensures
            r is Ok,
            *final(self) == *old(self),
    {
        Ok(())
    }

    /// The protocol has no farewell: a connection is shut down by being dropped.
    pub fn shutdown(&mut self) -> (r: Result<(), KcpError>)
        ensures
            r is Ok,
            *final(self) == *old(self),
    {
        Ok(())
    }

    /// Does what is to be done on every tick of the connection.
    pub fn tick(&mut self)
        requires
            old(self).wf(),
        ensures
            final(self).wf(),
            final(self).buffer() == old(self).buffer(),
            exists|now: u32| final(self)@ == #[trigger] old(self)@.ticked(now),
            final(self)@.kcp@.updated,
            old(self)@.kcp@.pushed_out(final(self)@.kcp@),
            exists|reading: (i64, i32)| #[trigger] ticks(old(self)@, reading, final(self)@),
    {
        self.kcp_io.tick();
        proof {
            let reading = choose|reading: (i64, i32)| #[trigger]
                ticks(old(self).kcp_io@, reading, self@);
            assert(ticks(old(self)@, reading, self@));
            assert(self@ == old(self)@.ticked(time_of(reading)));
        }
    }
}

/// A connection that is being opened: it is there at the first poll.
pub struct KcpStreamWrapper {
    inner: Option<KcpStream>,
}

impl View for KcpStreamWrapper {
    type V = Option<KcpStream>;

    closed spec fn view(&self) -> Option<KcpStream> {
        self.inner
    }
}

impl KcpStreamWrapper {
    /// The connection. It can be taken once.
    pub fn poll(&mut self) -> (stream: KcpStream)
        requires
            old(self)@ is Some,
        ensures
            Some(stream) == old(self)@,
            final(self)@ is None,
    {
        self.inner.take().unwrap()
    }
}

/// The server's end of a connection.
pub struct KcpServerStream {
    kcp: KcpIo,
}

impl View for KcpServerStream {
    type V = IoState;

    closed spec fn view(&self) -> IoState {
        self.kcp@
    }
}

impl KcpServerStream {
    /// The buffered engine is well-formed.
    pub closed spec fn wf(&self) -> bool {
        self.kcp.wf()
    }

    /// The read buffer.
    pub closed spec fn buffer(&self) -> ReadBuffer {
        self.kcp.buffer()
    }

    /// A well-formed end is coherent, and its engine can be used and is settled. The positions in
    /// its read buffer are in order, and what is buffered stands between them.
    pub proof fn lemma_wf(&self)
        requires
            self.wf(),
        ensures
            self@.coherent(),
            self@.kcp@.ready(),
            self@.kcp@.settled(),
            self.buffer().in_order(),
            self.buffer().remaining() == self@.buffered.len(),
    {
        self.kcp.lemma_wf();
    }

    /// Takes up the conversation that `datagram` opens with. The datagram itself is still to be
    /// taken in, by a read.
    pub fn accept(
        datagram: &UdpDatagram,
        output: KcpOutput,
        found: GoesRound,
    ) -> (stream: KcpServerStream)
        requires
            datagram.data@.len() >= 4,
        ensures
            stream.wf(),
            stream@.buffered == Seq::<u8>::empty(),
            stream.buffer() == (ReadBuffer { len: 0, pos: 0, cap: 0 }),
            stream@.kcp@ == tuned_state(
                le_u32(datagram.data@) as u32,
                output.peer(),
                output.udp(),
            ),
    {
        KcpServerStream { kcp: KcpIo::new(Kcp::tuned(datagram.conv(), output, found)) }
    }

    /// One step of a read into `buf`.
    pub fn read(&mut self, polled: Polled, buf: &mut [u8]) -> (step: ReadStep)
        requires
            old(self).wf(),
        ensures
            final(self).wf(),
            final(buf)@.len() == old(buf)@.len(),
            read_steps(old(self)@, polled, old(buf)@, step, final(self)@, final(buf)@),
            read_steps_buffer(
                old(self)@,
                polled,
                old(buf)@.len(),
                old(self).buffer(),
                final(self).buffer(),
            ),
    {
        read_step(&mut self.kcp, polled, buf)
    }

    /// Writes `buf` as one message at the time `now`.
    pub fn write_at(&mut self, buf: &[u8], now: u32) -> (r: Result<usize, KcpError>)
        requires
            old(self).wf(),
        ensures
            final(self).wf(),
            final(self).buffer() == old(self).buffer(),
            r == write_result(old(self)@, buf@),
            r is Err ==> final(self)@ == old(self)@,
            r is Ok ==> {
                &&& final(self)@ == old(self)@.with_message(buf@).ticked(now)
                &&& final(self)@.kcp@.updated
                &&& old(self)@.kcp@.with_message(buf@).pushed_out(final(self)@.kcp@)
            },
            writes(old(self)@, buf@, now, r, final(self)@),
            r matches Ok(n) ==> final(self)@.kcp@.written() == old(self)@.kcp@.written() + buf@.take(
                n as int,
            ),
    {
        write_step(&mut self.kcp, buf, now)
    }

    /// Writes `buf` as one message, now. The time comes from the clock.
    pub fn write(&mut self, buf: &[u8]) -> (r: Result<usize, KcpError>)
        requires
            old(self).wf(),
        ensures
            final(self).wf(),
            final(self).buffer() == old(self).buffer(),
            r == write_result(old(self)@, buf@),
            r is Err ==> final(self)@ == old(self)@,
            r is Ok ==> {
                &&& exists|now: u32| final(self)@ == #[trigger] old(self)@.with_message(buf@).ticked(now)
                &&& final(self)@.kcp@.updated
                &&& old(self)@.kcp@.with_message(buf@).pushed_out(final(self)@.kcp@)
            },
            r is Ok ==> exists|reading: (i64, i32)| #[trigger]
                writes_now(old(self)@, buf@, reading, r, final(self)@),
            r matches Ok(n) ==> final(self)@.kcp@.written() == old(self)@.kcp@.written() + buf@.take(
                n as int,
            ),
    {
        let r = write_now(&mut self.kcp, buf);
        proof {
            if r is Ok {
                let reading = choose|reading: (i64, i32)| #[trigger]
                    writes_now(old(self).kcp@, buf@, reading, r, self@);
                assert(writes_now(old(self)@, buf@, reading, r, self@));
                assert(self@ == old(self)@.with_message(buf@).ticked(time_of(reading)));
            }
        }
        r
    }

    /// A write already sends what is due: there is nothing to flush.
    pub fn flush(&mut self) -> (r: Result<(), KcpError>)
        ensures
            r is Ok,
            *final(self) == *old(self),
    {
        Ok(())
    }

    /// The protocol has no farewell: a connection is shut down by being dropped.
    pub fn shutdown(&mut self) -> (r: Result<(), KcpError>)
        ensures
            r is Ok,
            *final(self) == *old(self),
    {
        Ok(())
    }

    /// Does what is to be done on every tick of the connection.
    pub fn tick(&mut self)
        requires
            old(self).wf(),
        ensures
            final(self).wf(),
            final(self).buffer() == old(self).buffer(),
            exists|now: u32| final(self)@ == #[trigger] old(self)@.ticked(now),
            final(self)@.kcp@.updated,
            old(self)@.kcp@.pushed_out(final(self)@.kcp@),
            exists|reading: (i64, i32)| #[trigger] ticks(old(self)@, reading, final(self)@),
    {
        self.kcp.tick();
        proof {
            let reading = choose|reading: (i64, i32)| #[trigger]
                ticks(old(self).kcp@, reading, self@);
            assert(ticks(old(self)@, reading, self@));
            assert(self@ == old(self)@.ticked(time_of(reading)));
        }
    }
}

} // verus!
