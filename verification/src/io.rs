//! Buffered reading from and writing to a protocol engine.
use crate::clock::{clock_for, read_at, time_of};
use crate::engine::{
    after_flush, after_input, after_recv, after_send, after_update, kcp_flush, kcp_input, kcp_mtu,
    kcp_peeksize, kcp_recv, kcp_send, kcp_update, Kcp,
};
use crate::error::{told_apart, KcpError};
use crate::protocol::{
    input_result, lemma_joined_concat, lemma_joined_prefix, lemma_pieces_joined, not_before,
    nothing_to_read, pieces, refused_at_once,
};
use vstd::arithmetic::power2::pow2;
use vstd::prelude::*;

verus! {

/// The milliseconds between two ticks of a connection.
pub const TICK_MILLIS: u64 = 10;

/// `usize::checked_next_power_of_two`: the smallest power of two that is not smaller than the
/// number, or nothing where that is larger than every `usize`.
pub assume_specification[ usize::checked_next_power_of_two ](n: usize) -> (r: Option<usize>)
    ensures
        r matches Some(p) ==> {
            &&& n <= p
            &&& exists|e: nat| p == pow2(e) && forall|f: nat| f < e ==> pow2(f) < n
        },
        r is None ==> forall|e: nat| pow2(e) >= n ==> pow2(e) > usize::MAX,
;

/// What a `KcpIo` is: an engine, and bytes of a message that are read in part.
pub struct IoState {
    /// The protocol engine.
    pub kcp: Kcp,
    /// What is left of the message in the read buffer.
    pub buffered: Seq<u8>,
}

impl IoState {
    /// All bytes that have arrived in order and were not read.
    pub open spec fn unread(self) -> Seq<u8> {
        self.buffered + self.kcp@.received()
    }

    /// All bytes that were read.
    pub open spec fn delivered(self) -> Seq<u8> {
        self.kcp@.read_out().take(self.kcp@.read_out().len() - self.buffered.len())
    }

    /// What is in the buffer was taken out of the engine last.
    pub open spec fn coherent(self) -> bool {
        self.buffered.is_suffix_of(self.kcp@.read_out())
    }

    /// What taking in a datagram leaves.
    pub open spec fn taken_in(self, data: Seq<u8>) -> IoState {
        IoState { kcp: after_input(self.kcp, data), ..self }
    }

    /// What telling the time and sending what is due leaves.
    pub open spec fn ticked(self, now: u32) -> IoState {
        IoState { kcp: after_flush(after_update(self.kcp, now)), ..self }
    }

    /// What writing a message leaves.
    pub open spec fn with_message(self, data: Seq<u8>) -> IoState {
        IoState { kcp: after_send(self.kcp, data), ..self }
    }

    /// What filling the buffer leaves: a rest stays, else the next message takes its place.
    pub open spec fn filled(self) -> IoState {
        match self.kcp@.next() {
            Ok(n) if self.buffered.len() == 0 => IoState {
                kcp: after_recv(self.kcp),
                buffered: self.kcp@.received().take(n as int),
            },
            _ => self,
        }
    }

    /// Why the buffer cannot be filled, where that is so.
    pub open spec fn fill_error(self) -> Option<KcpError> {
        match self.kcp@.next() {
            Err(e) if self.buffered.len() == 0 => Some(e),
            _ => None,
        }
    }

    /// How many bytes of the buffer are marked as read when `amt` are to be.
    pub open spec fn consumable(self, amt: usize) -> int {
        if amt <= self.buffered.len() {
            amt as int
        } else {
            self.buffered.len() as int
        }
    }

    /// How many bytes a read into `len` bytes takes.
    pub open spec fn read_len(self, len: nat) -> nat {
        let available = self.filled().buffered.len();
        if available <= len {
            available
        } else {
            len
        }
    }

    /// What a read into `len` bytes leaves.
    pub open spec fn after_read(self, len: nat) -> IoState {
        if self.fill_error() is Some {
            self
        } else {
            IoState {
                buffered: self.filled().buffered.skip(self.read_len(len) as int),
                ..self.filled()
            }
        }
    }
}

/// What a read into `buf` does: where no message is there it fails for that and changes nothing.
/// Else the first unread bytes, as many as the message and `buf` have, go to the front of
/// `buf`, which becomes `out`, and what is unread after them stays unread. With nothing buffered one
/// message leaves the engine; else none does.
pub open spec fn reads(
    pre: IoState,
    buf: Seq<u8>,
    r: Result<usize, KcpError>,
    post: IoState,
    out: Seq<u8>,
) -> bool {
    &&& post == pre.after_read(buf.len())
    &&& pre.kcp@.received_into(post.kcp@)
    &&& match pre.fill_error() {
        Some(e) => r == Err::<usize, _>(e) && nothing_to_read(e) && out == buf,
        None => {
            let k = pre.read_len(buf.len());
            &&& r matches Ok(n) && n == k
            &&& k <= pre.unread().len()
            &&& pre.buffered.len() == 0 ==> {
                &&& pre.kcp@.next() matches Ok(len) && len <= pre.kcp@.received().len()
                &&& pre.kcp@.took_message(post.kcp@)
            }
            &&& out == pre.unread().take(k as int) + buf.skip(k as int)
            &&& pre.unread().skip(k as int).is_prefix_of(post.unread())
            &&& post.delivered() == pre.delivered() + pre.unread().take(k as int)
            &&& post.kcp@.due == pre.kcp@.due
            &&& pre.kcp@.still_agrees(post.kcp@)
        },
    }
}

/// What a tick does: the clock is read while the engine is as it was before, the engine is told the
/// time that the clock showed, and what is due is sent.
pub open spec fn ticks(pre: IoState, reading: (i64, i32), post: IoState) -> bool {
    &&& read_at(pre.kcp, reading)
    &&& post == pre.ticked(time_of(reading))
    &&& pre.kcp@.told(time_of(reading), post.kcp@)
}

/// What filling the buffer does, and the bytes that it gives.
pub open spec fn fills(pre: IoState, r: Result<Seq<u8>, KcpError>, post: IoState) -> bool {
    &&& post == pre.filled()
    &&& match pre.fill_error() {
        Some(e) => r == Err::<Seq<u8>, _>(e),
        None => r == Ok::<_, KcpError>(post.buffered),
    }
}

/// What marking `amt` bytes as read does.
pub open spec fn consumes(pre: IoState, amt: usize, post: IoState) -> bool {
    &&& post.kcp == pre.kcp
    &&& post.buffered == pre.buffered.skip(pre.consumable(amt))
}

/// What taking in a datagram does and returns.
pub open spec fn takes_in(
    pre: IoState,
    data: Seq<u8>,
    r: Result<usize, KcpError>,
    post: IoState,
) -> bool {
    &&& r == input_result(pre.kcp@.conv, data)
    &&& post == pre.taken_in(data)
    &&& refused_at_once(pre.kcp@.conv, data) ==> post == pre
}

/// What sending what is due does and returns, at the time that the engine was told last.
pub open spec fn flushes(pre: IoState, r: Result<(), KcpError>, post: IoState) -> bool {
    if pre.kcp@.updated {
        &&& r is Ok
        &&& post == (IoState { kcp: after_flush(pre.kcp), ..pre })
        &&& pre.kcp@.told(pre.kcp@.current, post.kcp@)
    } else {
        &&& r == Err::<(), _>(KcpError::NeedUpdate)
        &&& post == pre
    }
}

/// What putting a message into the send queue does: it is taken whole and its length is returned, or
/// it needs too many fragments and nothing changes.
pub open spec fn queues(
    pre: IoState,
    data: Seq<u8>,
    r: Result<usize, KcpError>,
    post: IoState,
) -> bool {
    if pre.kcp@.sendable(data.len()) {
        &&& r matches Ok(n) && n == data.len()
        &&& post == pre.with_message(data)
        &&& post.kcp@ == pre.kcp@.with_message(data)
    } else {
        &&& r == Err::<usize, _>(KcpError::UserBufTooBig)
        &&& post == pre
    }
}

/// Whether a buffer of `len` bytes is what a message of `size` bytes is given: the smallest power
/// of two that holds it, or just its size where that power is larger than every `usize`.
pub open spec fn room_for(size: nat, len: nat) -> bool {
    &&& size <= len
    &&& {
        ||| exists|e: nat| len == #[trigger] pow2(e) && forall|f: nat| f < e ==> pow2(f) < size
        ||| len == size && forall|e: nat| #[trigger] pow2(e) >= size ==> pow2(e) > usize::MAX
    }
}

/// The read buffer: how long it is, and where in it the message stands that is read in part.
pub struct ReadBuffer {
    /// The bytes that it has room for.
    pub len: nat,
    /// Where the bytes begin that are not read.
    pub pos: nat,
    /// Where the message ends.
    pub cap: nat,
}

impl ReadBuffer {
    /// The positions lie in the buffer, in their order.
    pub open spec fn in_order(self) -> bool {
        self.pos <= self.cap <= self.len
    }

    /// How many bytes are not read.
    pub open spec fn remaining(self) -> int {
        self.cap - self.pos
    }

    /// The buffer after `n` more bytes were read.
    pub open spec fn advanced(self, n: nat) -> ReadBuffer {
        ReadBuffer { pos: self.pos + n, ..self }
    }
}

/// What filling does to the read buffer: nothing as long as it holds a rest. Else a buffer without
/// a length gets that of the transmission unit, and any other keeps its own; where the next message
/// is longer than that, and only there, the buffer gets the length that such a message is given.
/// The message then stands at its front. Without a message the positions stay.
pub open spec fn fills_buffer(io: IoState, before: ReadBuffer, after: ReadBuffer) -> bool {
    if io.buffered.len() > 0 {
        after == before
    } else {
        let len = if before.len == 0 {
            io.kcp@.mtu as nat
        } else {
            before.len
        };
        match io.kcp@.next() {
            Err(_) => after == (ReadBuffer { len, ..before }),
            Ok(n) => {
                &&& after.pos == 0
                &&& after.cap == n
                &&& if n <= len {
                    after.len == len
                } else {
                    room_for(n, after.len)
                }
            },
        }
    }
}

/// What a read into `len` bytes does to the read buffer: a rest in it is read on. Without a rest, a
/// message that fits goes past the buffer and leaves it as it was, as does a read that finds none;
/// a message that does not fit fills it and is read in part.
pub open spec fn reads_buffer(
    io: IoState,
    len: nat,
    before: ReadBuffer,
    after: ReadBuffer,
) -> bool {
    if io.buffered.len() > 0 {
        after == before.advanced(io.read_len(len))
    } else {
        match io.kcp@.next() {
            Ok(n) if n > len => {
                &&& fills_buffer(io, before, ReadBuffer { pos: 0, ..after })
                &&& after.pos == io.read_len(len)
            },
            _ => after == before,
        }
    }
}

/// The length that the read buffer grows to, given what a look at the next message says.
pub fn grown_len(peeked: Result<usize, KcpError>) -> (len: usize)
    ensures
        peeked matches Ok(n) ==> room_for(n as nat, len as nat),
        peeked is Err ==> room_for(0, len as nat),
{
    let size: usize = match peeked {
        Ok(n) => n,
        Err(_) => 0,
    };
    match size.checked_next_power_of_two() {
        Some(len) => len,
        None => size,
    }
}

/// What is put in front of both keeps a prefix a prefix.
proof fn lemma_prefix_behind(front: Seq<u8>, short: Seq<u8>, long: Seq<u8>)
    requires
        short.is_prefix_of(long),
    ensures
        (front + short).is_prefix_of(front + long),
{
    assert forall|i: int| 0 <= i < (front + short).len() implies (front + short)[i] == (front
        + long)[i] by {
        if i >= front.len() {
            assert(short[i - front.len()] == long.subrange(0, short.len() as int)[i - front.len()]);
        }
    }
    assert(front + short =~= (front + long).subrange(0, (front + short).len() as int));
}

/// What is left of a prefix and of the whole after the same number of bytes is such a pair again.
proof fn lemma_prefix_skip(short: Seq<u8>, long: Seq<u8>, n: int)
    requires
        short.is_prefix_of(long),
        0 <= n <= short.len(),
    ensures
        short.skip(n).is_prefix_of(long.skip(n)),
{
    assert forall|i: int| 0 <= i < short.skip(n).len() implies short.skip(n)[i] == long.skip(
        n,
    )[i] by {
        assert(short[i + n] == long.subrange(0, short.len() as int)[i + n]);
    }
    assert(short.skip(n) =~= long.skip(n).subrange(0, short.skip(n).len() as int));
}

/// Copies as many bytes from the front of `from` to the front of `to` as both have.
fn copy_front(from: &[u8], to: &mut [u8]) -> (n: usize)
    ensures
        n == (if from@.len() <= old(to)@.len() {
            from@.len()
        } else {
            old(to)@.len()
        }),
        final(to)@ == from@.take(n as int) + old(to)@.skip(n as int),
{
    let n: usize = if from.len() <= to.len() {
        from.len()
    } else {
        to.len()
    };
    let mut i: usize = 0;
    while i < n
        invariant
            i <= n,
            n <= from@.len(),
            n <= old(to)@.len(),
            to@ =~= from@.take(i as int) + old(to)@.skip(i as int),
        decreases n - i,
    {
        to[i] = from[i];
        i = i + 1;
    }
    n
}

/// An engine with a read buffer, so that a message can be read in pieces.
pub struct KcpIo {
    kcp: Kcp,
    read_buf: Vec<u8>,
    read_pos: usize,
    read_cap: usize,
}

impl View for KcpIo {
    type V = IoState;

    closed spec fn view(&self) -> IoState {
        IoState {
            kcp: self.kcp,
            buffered: self.read_buf@.subrange(self.read_pos as int, self.read_cap as int),
        }
    }
}

impl KcpIo {
    /// The positions lie in the buffer in their order, and the engine is one that can be used and
    /// keeps no segment behind its turn.
    pub closed spec fn wf(&self) -> bool {
        &&& self.read_pos <= self.read_cap <= self.read_buf@.len()
        &&& self.kcp@.ready()
        &&& self.kcp@.settled()
        &&& self@.coherent()
    }

    /// The read buffer.
    pub closed spec fn buffer(&self) -> ReadBuffer {
        ReadBuffer {
            len: self.read_buf@.len(),
            pos: self.read_pos as nat,
            cap: self.read_cap as nat,
        }
    }

    /// A well-formed `KcpIo` is coherent, and its engine can be used and is settled. The positions in its read
    /// buffer are in order, and what is buffered stands between them.
    pub proof fn lemma_wf(&self)
        requires
            self.wf(),
        ensures
            self@.coherent(),
            self@.kcp@.ready(),
            self@.kcp@.settled(),
            self.buffer().in_order(),
            self.buffer().remaining() == self@.buffered.len(),
    {
    }

    /// Reads from and writes to `kcp`; the buffer is empty.
    pub fn new(kcp: Kcp) -> (io: KcpIo)
        requires
            kcp@.ready(),
            kcp@.settled(),
        ensures
            io.wf(),
            io@ == (IoState { kcp, buffered: Seq::empty() }),
            io.buffer() == (ReadBuffer { len: 0, pos: 0, cap: 0 }),
    {
        let io = KcpIo { kcp, read_buf: Vec::new(), read_pos: 0, read_cap: 0 };
        assert(io@.buffered =~= Seq::empty());
        io
    }

    /// The transmission unit.
    pub fn mtu(&self) -> (mtu: usize)
        ensures
            mtu == self@.kcp@.mtu,
    {
        kcp_mtu(&self.kcp)
    }

    /// How many bytes of the buffer are not read.
    pub fn buf_remaining(&self) -> (n: usize)
        requires
            self.wf(),
        ensures
            n == self@.buffered.len(),
            n == self.buffer().remaining(),
            self.buffer().in_order(),
    {
        self.read_cap - self.read_pos
    }

    /// The bytes that are not read; where there are none, those of the next message, which then
    /// fills the buffer.
    pub fn fill_buf(&mut self) -> (r: Result<&[u8], KcpError>)
        requires
            old(self).wf(),
        ensures
            final(self).wf(),
            final(self)@ == old(self)@.filled(),
            old(self)@.unread().is_prefix_of(final(self)@.unread()),
            final(self)@.buffered.is_prefix_of(old(self)@.unread()),
            old(self)@.kcp@.received_into(final(self)@.kcp@),
            final(self)@.delivered() == old(self)@.delivered(),
            old(self)@.kcp@.still_agrees(final(self)@.kcp@),
            final(self)@.kcp@.due == old(self)@.kcp@.due,
            old(self)@.buffered.len() == 0 && old(self)@.fill_error() is None ==> old(
                self,
            )@.kcp@.took_message(final(self)@.kcp@),
            fills_buffer(old(self)@, old(self).buffer(), final(self).buffer()),
            fills(
                old(self)@,
                (match r {
                    Ok(bytes) => Ok(bytes@),
                    Err(e) => Err(e),
                }),
                final(self)@,
            ),
            match old(self)@.fill_error() {
                Some(e) => r == Err::<&[u8], _>(e) && nothing_to_read(e),
                None => r matches Ok(bytes) && bytes@ == final(self)@.buffered,
            },
    {
        if self.read_pos >= self.read_cap {
            if self.read_buf.is_empty() {
                let mtu: usize = kcp_mtu(&self.kcp);
                self.read_buf.resize(mtu, 0);
            }
            let ghost len = self.read_buf@.len();
            proof {
                self.kcp@.lemma_next();
            }
            loop
                invariant_except_break
                    self.wf(),
                    self.read_pos == self.read_cap,
                    self.kcp == old(self).kcp,
                    old(self)@.kcp == old(self).kcp,
                    old(self)@.buffered.len() == 0,
                    self@.buffered == old(self)@.buffered,
                    self.read_pos == old(self).read_pos,
                    self.read_cap == old(self).read_cap,
                    old(self).read_buf@.len() == 0 ==> len == old(self)@.kcp@.mtu,
                    old(self).read_buf@.len() > 0 ==> len == old(self).read_buf@.len(),
                    self.read_buf@.len() == len || (old(self)@.kcp@.next() matches Ok(n) && n > len
                        && room_for(n, self.read_buf@.len())),
                ensures
                    self.wf(),
                    self@.kcp@.due == old(self)@.kcp@.due,
                    self@ == old(self)@.filled(),
                    old(self)@.fill_error() is None,
                    old(self)@.unread().is_prefix_of(self@.unread()),
                    self@.buffered.is_prefix_of(old(self)@.unread()),
                    old(self)@.kcp@.received_into(self@.kcp@),
                    self@.delivered() == old(self)@.delivered(),
                    old(self)@.kcp@.still_agrees(self@.kcp@),
                    old(self)@.buffered.len() == 0,
                    old(self)@.kcp@.took_message(self@.kcp@),
                    fills_buffer(old(self)@, old(self).buffer(), self.buffer()),
                decreases
                    (match self.kcp@.next() {
                        Ok(n) => if n > self.read_buf@.len() {
                            1int
                        } else {
                            0int
                        },
                        Err(_) => 0int,
                    }),
            {
                match told_apart(kcp_recv(&mut self.kcp, self.read_buf.as_mut_slice())) {
                    Ok(n) => {
                        self.read_pos = 0;
                        self.read_cap = n;
                        proof {
                            let pre = old(self)@.kcp@;
                            let message = pre.received().take(n as int);
                            pre.lemma_next();
                            self.kcp@.lemma_took(pre);
                            assert(self@.buffered =~= message);
                            assert(old(self)@.unread() =~= message + pre.received().skip(n as int));
                            lemma_prefix_behind(
                                message,
                                pre.received().skip(n as int),
                                self@.kcp@.received(),
                            );
                            assert(self@.buffered =~= old(self)@.unread().subrange(0, n as int));
                            assert(self@.kcp@.read_out() =~= pre.read_out() + message);
                            assert(self@.buffered =~= self@.kcp@.read_out().subrange(
                                pre.read_out().len() as int,
                                self@.kcp@.read_out().len() as int,
                            ));
                            assert(self@.delivered() =~= old(self)@.delivered());
                        }
                        break;
                    },
                    Err(KcpError::UserBufTooSmall) => {
                        let len: usize = grown_len(told_apart(kcp_peeksize(&self.kcp)));
                        self.read_buf.resize(len, 0);
                        assert(self@.buffered =~= old(self)@.buffered);
                    },
                    Err(e) => {
                        return Err(e);
                    },
                }
            }
        }
        Ok(vstd::slice::slice_subrange(self.read_buf.as_slice(), self.read_pos, self.read_cap))
    }

    /// Marks the first `amt` bytes of the buffer as read, or all of them where they are fewer.
    pub fn consume(&mut self, amt: usize)
        requires
            old(self).wf(),
        ensures
            final(self).wf(),
            final(self)@.kcp == old(self)@.kcp,
            consumes(old(self)@, amt, final(self)@),
            ({
                let n = old(self)@.consumable(amt);
                &&& final(self).buffer() == old(self).buffer().advanced(n as nat)
                &&& final(self)@.buffered == old(self)@.buffered.skip(n)
                &&& final(self)@.delivered() == old(self)@.delivered() + old(self)@.buffered.take(n)
            }),
    {
        if amt <= self.read_cap - self.read_pos {
            self.read_pos = self.read_pos + amt;
        } else {
            self.read_pos = self.read_cap;
        }
        proof {
            let pre = old(self)@;
            let n = pre.consumable(amt);
            let taken = pre.kcp@.read_out();
            assert(self@.buffered =~= pre.buffered.skip(n));
            assert(pre.buffered =~= taken.subrange(
                taken.len() - pre.buffered.len(),
                taken.len() as int,
            ));
            assert(self@.delivered() =~= pre.delivered() + pre.buffered.take(n));
        }
    }

    /// Reads bytes into the front of `buf`: what is left of a message, or the next one. A message
    /// that does not fit stays in the buffer with the bytes that are not read.
    pub fn read(&mut self, buf: &mut [u8]) -> (r: Result<usize, KcpError>)
        requires
            old(self).wf(),
        ensures
            final(self).wf(),
            final(buf)@.len() == old(buf)@.len(),
            reads(old(self)@, old(buf)@, r, final(self)@, final(buf)@),
            reads_buffer(old(self)@, old(buf)@.len(), old(self).buffer(), final(self).buffer()),
    {
        proof {
            self.kcp@.lemma_next();
        }
        if self.buf_remaining() == 0 {
            // A message that fits goes straight into `buf`.
            match told_apart(kcp_recv(&mut self.kcp, buf)) {
                Ok(n) => {
                    proof {
                        let pre = old(self)@;
                        self.kcp@.lemma_took(pre.kcp@);
                        assert(pre.unread() =~= pre.kcp@.received());
                        assert(self@.buffered =~= pre.filled().buffered.skip(n as int));
                        assert(self@.unread() =~= self@.kcp@.received());
                        assert(self@.delivered() =~= pre.delivered() + pre.unread().take(n as int));
                    }
                    return Ok(n);
                },
                Err(KcpError::UserBufTooSmall) => {},
                Err(e) => {
                    return Err(e);
                },
            }
        }
        let nread: usize = match self.fill_buf() {
            Ok(available) => copy_front(available, buf),
            Err(e) => {
                return Err(e);
            },
        };
        self.consume(nread);
        proof {
            let pre = old(self)@;
            let mid = pre.filled();
            assert(self@.unread() =~= mid.unread().skip(nread as int));
            lemma_prefix_skip(pre.unread(), mid.unread(), nread as int);
            assert(mid.buffered =~= pre.unread().subrange(0, mid.buffered.len() as int));
            assert(pre.unread().take(nread as int) =~= mid.buffered.take(nread as int));
        }
        Ok(nread)
    }

    /// Takes in a datagram that came from the peer.
    pub fn input(&mut self, buf: &[u8]) -> (r: Result<usize, KcpError>)
        requires
            old(self).wf(),
        ensures
            final(self).wf(),
            r == input_result(old(self)@.kcp@.conv, buf@),
            takes_in(old(self)@, buf@, r, final(self)@),
            final(self)@ == old(self)@.taken_in(buf@),
            refused_at_once(old(self)@.kcp@.conv, buf@) ==> final(self)@ == old(self)@,
            old(self)@.unread().is_prefix_of(final(self)@.unread()),
            old(self)@.kcp@.received_into(final(self)@.kcp@),
            final(self)@.delivered() == old(self)@.delivered(),
            final(self)@.kcp@.taken == old(self)@.kcp@.taken,
            old(self)@.kcp@.joins_at_once(buf@, final(self)@.kcp@),
            old(self)@.kcp@.acknowledged(buf@, final(self)@.kcp@),
            old(self)@.kcp@.still_agrees_after(buf@, final(self)@.kcp@),
            final(self).buffer() == old(self).buffer(),
    {
        let r = told_apart(kcp_input(&mut self.kcp, buf));
        proof {
            let pre = old(self)@.kcp@;
            lemma_joined_prefix(pre.queue, self@.kcp@.queue);
            lemma_prefix_behind(self@.buffered, pre.received(), self@.kcp@.received());
        }
        r
    }

    /// Puts `buf` into the send queue as one message.
    pub fn write(&mut self, buf: &[u8]) -> (r: Result<usize, KcpError>)
        requires
            old(self).wf(),
        ensures
            final(self).wf(),
            final(self).buffer() == old(self).buffer(),
            r == (if old(self)@.kcp@.sendable(buf@.len()) {
                Ok(buf@.len() as usize)
            } else {
                Err(KcpError::UserBufTooBig)
            }),
            r is Err ==> final(self)@ == old(self)@,
            r is Ok ==> {
                &&& final(self)@ == old(self)@.with_message(buf@)
                &&& final(self)@.kcp@ == old(self)@.kcp@.with_message(buf@)
            },
            queues(old(self)@, buf@, r, final(self)@),
            r matches Ok(n) ==> final(self)@.kcp@.written() == old(self)@.kcp@.written() + buf@.take(
                n as int,
            ),
    {
        proof {
            lemma_pieces_joined(buf@, self.kcp@.mss());
            lemma_joined_concat(self.kcp@.segments, pieces(buf@, self.kcp@.mss()));
            assert(buf@.len() == buf.len());
            assert(buf@.take(buf@.len() as int) =~= buf@);
        }
        told_apart(kcp_send(&mut self.kcp, buf))
    }

    /// Sends what is due. The engine has to know the time.
    pub fn flush(&mut self) -> (r: Result<(), KcpError>)
        requires
            old(self).wf(),
        ensures
            final(self).wf(),
            final(self).buffer() == old(self).buffer(),
            r == (if old(self)@.kcp@.updated {
                Ok(())
            } else {
                Err(KcpError::NeedUpdate)
            }),
            r is Err ==> final(self)@ == old(self)@,
            r is Ok ==> {
                &&& final(self)@ == (IoState { kcp: after_flush(old(self)@.kcp), ..old(self)@ })
                &&& final(self)@.kcp@.updated
                &&& old(self)@.kcp@.pushed_out(final(self)@.kcp@)
                &&& old(self)@.kcp@.told(old(self)@.kcp@.current, final(self)@.kcp@)
            },
            flushes(old(self)@, r, final(self)@),
    {
        told_apart(kcp_flush(&mut self.kcp))
    }

    /// Does what is to be done every `TICK_MILLIS` milliseconds: reads the clock, tells the engine
    /// the time and sends what is due.
    pub fn tick(&mut self)
        requires
            old(self).wf(),
        ensures
            final(self).wf(),
            final(self).buffer() == old(self).buffer(),
            exists|now: u32| final(self)@ == #[trigger] old(self)@.ticked(now),
            final(self)@.kcp@.updated,
            old(self)@.kcp@.pushed_out(final(self)@.kcp@),
            exists|reading: (i64, i32)| #[trigger] ticks(old(self)@, reading, final(self)@),
    {
        let now: u32 = clock_for(&self.kcp);
        let ghost reading = choose|reading: (i64, i32)| #[trigger]
            read_at(self.kcp, reading) && now == time_of(reading);
        self.push_out(now);
        assert(ticks(old(self)@, reading, self@));
    }

    /// Tells the engine the time and sends what is due.
    pub fn push_out(&mut self, now: u32)
        requires
            old(self).wf(),
        ensures
            final(self).wf(),
            final(self).buffer() == old(self).buffer(),
            final(self)@ == old(self)@.ticked(now),
            final(self)@.kcp@.updated,
            old(self)@.kcp@.pushed_out(final(self)@.kcp@),
            old(self)@.kcp@.told(now, final(self)@.kcp@),
    {
        let _ = kcp_update(&mut self.kcp, now);
        let ghost updated = self.kcp@;
        let _ = kcp_flush(&mut self.kcp);
        proof {
            let pre = old(self)@.kcp@;
            pre.lemma_pushed_out_twice(updated, self@.kcp@);
            assert forall|number: u32| #[trigger]
                pre.due.dom().contains(number) && not_before(now, pre.due[number]) implies
                pre.sent_since(self@.kcp@, number) by {
                pre.lemma_sent_twice(updated, self@.kcp@, number);
                assert(updated.due.dom().contains(number));
            }
        }
    }
}

} // verus!
