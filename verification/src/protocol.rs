//! What the library knows of the protocol: datagrams, and the state of an engine.
use crate::datagram::{le_u32, PeerAddr, UdpDatagram};
use crate::error::KcpError;
use crate::output::handed;
use futures::sync::mpsc::UnboundedSender;
use vstd::prelude::*;

verus! {

/// The bytes of a segment header.
pub const HEADER_LEN: usize = 24;

/// A message takes fewer fragments than this.
pub const FRAGMENT_LIMIT: usize = 128;

/// The command of a segment that carries payload.
pub const CMD_PUSH: u8 = 81;

/// The command of a segment that acknowledges another.
pub const CMD_ACK: u8 = 82;

/// Sequence numbers go round at this count of segments.
pub const SEQUENCE_LIMIT: u64 = 0x1_0000_0000;

/// What a segment carries of a message.
pub struct Fragment {
    /// How many fragments of the message follow; 0 in the last one.
    pub left: u8,
    /// The payload.
    pub bytes: Seq<u8>,
}

/// The bytes of fragments, one after the other.
pub open spec fn joined(fragments: Seq<Fragment>) -> Seq<u8>
    decreases fragments.len(),
{
    if fragments.len() == 0 {
        Seq::empty()
    } else {
        joined(fragments.drop_last()) + fragments.last().bytes
    }
}

/// How many fragments the message in front takes: up to the first that none follows, or all where
/// there is no such fragment.
pub open spec fn message_count(fragments: Seq<Fragment>) -> nat
    decreases fragments.len(),
{
    if fragments.len() == 0 {
        0
    } else if fragments[0].left == 0 {
        1
    } else {
        1 + message_count(fragments.skip(1))
    }
}

/// The messages that fragments make up, the last one perhaps in part.
pub open spec fn messages(fragments: Seq<Fragment>) -> Seq<Seq<u8>>
    decreases fragments.len(),
    via messages_decreases
{
    if fragments.len() == 0 {
        Seq::empty()
    } else {
        let count = message_count(fragments) as int;
        seq![joined(fragments.take(count))] + messages(fragments.skip(count))
    }
}

#[via_fn]
proof fn messages_decreases(fragments: Seq<Fragment>) {
    lemma_message_count(fragments);
}

/// A message takes at least one fragment and at most all. Before its last one all are followed by
/// others, and the last one is not unless it is the last of all.
pub proof fn lemma_message_count(fragments: Seq<Fragment>)
    ensures
        message_count(fragments) <= fragments.len(),
        fragments.len() > 0 ==> message_count(fragments) >= 1,
        forall|i: int|
            0 <= i < message_count(fragments) - 1 ==> (#[trigger] fragments[i]).left > 0,
        0 < message_count(fragments) < fragments.len() ==> fragments[message_count(fragments)
            - 1].left == 0,
    decreases fragments.len(),
{
    if fragments.len() > 0 && fragments[0].left != 0 {
        let rest = fragments.skip(1);
        lemma_message_count(rest);
        assert forall|i: int| 0 <= i < message_count(fragments) - 1 implies (
        #[trigger] fragments[i]).left > 0 by {
            if i > 0 {
                assert(rest[i - 1].left > 0);
            }
        }
        if message_count(fragments) < fragments.len() {
            assert(rest[message_count(rest) - 1] == fragments[message_count(fragments) - 1]);
        }
    }
}

/// The bytes of two rows of fragments are those of the first, then those of the second.
pub proof fn lemma_joined_concat(a: Seq<Fragment>, b: Seq<Fragment>)
    ensures
        joined(a + b) == joined(a) + joined(b),
    decreases b.len(),
{
    if b.len() == 0 {
        assert(a + b =~= a);
        assert(joined(a) + joined(b) =~= joined(a));
    } else {
        lemma_joined_concat(a, b.drop_last());
        assert((a + b).drop_last() =~= a + b.drop_last());
        assert(joined(a + b) =~= joined(a) + joined(b));
    }
}

/// The bytes of a single fragment.
pub proof fn lemma_joined_one(fragment: Fragment)
    ensures
        joined(seq![fragment]) == fragment.bytes,
{
    let one = seq![fragment];
    assert(joined(one.drop_last()) =~= Seq::empty());
    assert(joined(one) =~= fragment.bytes);
}

/// The bytes of the first fragments are the first bytes.
pub proof fn lemma_joined_prefix(few: Seq<Fragment>, more: Seq<Fragment>)
    requires
        few.is_prefix_of(more),
    ensures
        joined(few).is_prefix_of(joined(more)),
{
    let rest = more.skip(few.len() as int);
    assert(few + rest =~= more) by {
        assert forall|i: int| 0 <= i < few.len() implies few[i] == more[i] by {
            assert(few[i] == more.subrange(0, few.len() as int)[i]);
        }
    }
    lemma_joined_concat(few, rest);
    assert(joined(few) =~= joined(more).subrange(0, joined(few).len() as int));
}

/// Where the first fragment that none follows is the `count`-th, the message in front ends there.
pub proof fn lemma_message_ends(fragments: Seq<Fragment>, count: int)
    requires
        0 < count <= fragments.len(),
        forall|i: int| 0 <= i < count - 1 ==> (#[trigger] fragments[i]).left > 0,
        fragments[count - 1].left == 0,
    ensures
        message_count(fragments) == count,
    decreases fragments.len(),
{
    if count > 1 {
        assert(fragments[0].left > 0);
        let rest = fragments.skip(1);
        assert forall|i: int| 0 <= i < count - 2 implies (#[trigger] rest[i]).left > 0 by {
            assert(fragments[i + 1].left > 0);
        }
        lemma_message_ends(rest, count - 1);
    }
}

/// Whether no message is there in part only.
pub open spec fn whole(fragments: Seq<Fragment>) -> bool {
    fragments.len() == 0 || fragments.last().left == 0
}

/// Whether every message is there with all its fragments, few enough, counted down to the last one.
pub open spec fn well_cut(fragments: Seq<Fragment>) -> bool {
    &&& forall|i: int|
        0 <= i < fragments.len() ==> (#[trigger] fragments[i]).left + 1 < FRAGMENT_LIMIT
    &&& forall|i: int, k: int|
        0 <= i < fragments.len() && i <= k <= i + fragments[i].left ==> k < fragments.len() && (
        #[trigger] fragments[k]).left == (#[trigger] fragments[i]).left - (k - i)
}

/// Messages that are all there come before those that follow.
pub proof fn lemma_messages_concat(a: Seq<Fragment>, b: Seq<Fragment>)
    requires
        whole(a),
    ensures
        messages(a + b) == messages(a) + messages(b),
    decreases a.len(),
{
    if a.len() == 0 {
        assert(a + b =~= b);
        assert(messages(a) + messages(b) =~= messages(b));
    } else {
        let count = message_count(a) as int;
        lemma_message_count(a);
        assert forall|i: int| 0 <= i < count - 1 implies (#[trigger] (a + b)[i]).left > 0 by {
            assert(a[i].left > 0);
        }
        assert((a + b)[count - 1] == a[count - 1]);
        lemma_message_ends(a + b, count);
        assert((a + b).take(count) =~= a.take(count));
        assert((a + b).skip(count) =~= a.skip(count) + b);
        lemma_messages_concat(a.skip(count), b);
        assert(messages(a + b) =~= messages(a) + messages(b));
    }
}

/// The length of the message in front of a receive queue, or why there is none to be read: nothing
/// is there, or fewer fragments than the first one announces. (The announced count is held in
/// a byte, and goes round.)
pub open spec fn next_of(queue: Seq<Fragment>) -> Result<nat, KcpError> {
    if queue.len() == 0 {
        Err(KcpError::RecvQueueEmpty)
    } else if queue.len() < (queue[0].left + 1) % 256 {
        Err(KcpError::ExpectingFragment)
    } else {
        Ok(joined(queue.take(message_count(queue) as int)).len())
    }
}

/// What the library relies on in the state of an engine.
pub struct KcpState {
    /// The conversation id; datagrams of other conversations are refused.
    pub conv: u32,
    /// The transmission unit: the longest datagram that is put together.
    pub mtu: usize,
    /// Whether writes are merged into one stream instead of being kept apart as messages.
    pub stream: bool,
    /// Whether the conversation id is still to be taken from the next datagram.
    pub waits_conv: bool,
    /// The send window, in segments.
    pub snd_wnd: u16,
    /// The receive window, in segments.
    pub rcv_wnd: u16,
    /// Whether lost segments are sent again without extra delay.
    pub nodelay: bool,
    /// The milliseconds between two flushes of the engine.
    pub interval: u32,
    /// The shortest retransmission timeout, in milliseconds.
    pub min_rto: u32,
    /// How often a segment is skipped by acknowledgements before it is sent again; 0 for never.
    pub fast_resend: u32,
    /// Whether congestion control is off.
    pub no_cwnd: bool,
    /// Whether the program that made the engine found its arithmetic to go round where a number does
    /// not fit.
    pub goes_round: bool,
    /// Whether the engine was told the time at least once.
    pub updated: bool,
    /// The time that the engine was told last.
    pub current: u32,
    /// The fragments that were taken out of the receive queue so far.
    pub taken: Seq<Fragment>,
    /// The receive queue: fragments whose turn has come.
    pub queue: Seq<Fragment>,
    /// The fragments that came ahead of their turn, with their sequence numbers.
    pub parked: Set<(u32, Fragment)>,
    /// The bytes of all fragments in the send queue, in order: written and not yet under way.
    pub queued: Seq<u8>,
    /// All fragments that messages were cut into so far. Their places are their sequence numbers.
    pub segments: Seq<Fragment>,
    /// The segments that are under way and not acknowledged: for the number of each, the time from
    /// which it is to be sent again.
    pub due: Map<u32, u32>,
    /// The address that the writer sends to.
    pub peer: PeerAddr,
    /// The sender that the writer was made with.
    pub sender: UnboundedSender<UdpDatagram>,
    /// The datagrams written so far.
    pub sent: Seq<(PeerAddr, Seq<u8>)>,
}

impl KcpState {
    /// An engine that keeps messages apart, knows its conversation, has a usable transmission unit
    /// and counts on where its numbers end.
    pub open spec fn ready(self) -> bool {
        &&& self.goes_round
        &&& !self.stream
        &&& !self.waits_conv
        &&& 50 <= self.mtu <= 0x7fff_ffff
    }

    /// The most bytes that a segment carries.
    pub open spec fn mss(self) -> int {
        self.mtu - HEADER_LEN
    }

    /// All bytes that were written so far.
    pub open spec fn written(self) -> Seq<u8> {
        joined(self.segments)
    }

    /// All bytes in the receive queue.
    pub open spec fn received(self) -> Seq<u8> {
        joined(self.queue)
    }

    /// All bytes that were taken out of the receive queue so far.
    pub open spec fn read_out(self) -> Seq<u8> {
        joined(self.taken)
    }

    /// The length of the next message, or why there is none to be read.
    pub open spec fn next(self) -> Result<nat, KcpError> {
        next_of(self.queue)
    }

    /// How many fragments the next message takes.
    pub open spec fn next_count(self) -> int {
        message_count(self.queue) as int
    }

    /// How many segments have joined the receive queue so far: the number of the next one.
    pub open spec fn arrived(self) -> nat {
        self.taken.len() + self.queue.len()
    }

    /// Whether all that came in so far is right, where `segments` are the segments of the other
    /// end: those that joined the receive queue are its first ones, in their order, and
    /// those that came early are what their numbers stand for.
    pub open spec fn agrees(self, segments: Seq<Fragment>) -> bool {
        &&& (self.taken + self.queue).is_prefix_of(segments)
        &&& forall|s: (u32, Fragment)| #[trigger]
            self.parked.contains(s) ==> s.0 < segments.len() && s.1 == segments[s.0 as int]
    }

    /// The sequence number of the segment that the receive queue waits for.
    pub open spec fn awaited(self) -> nat {
        self.arrived() % (SEQUENCE_LIMIT as nat)
    }

    /// Whether no segment waits ahead of its turn although its turn has come: with room in the
    /// window, the awaited segment is not there.
    pub open spec fn settled(self) -> bool {
        self.queue.len() < self.rcv_wnd ==> forall|s: (u32, Fragment)| #[trigger]
            self.parked.contains(s) ==> s.0 != self.awaited()
    }

    /// Whether the datagram opens with the very segment that the receive queue waits for, and there
    /// is room for it in the window.
    pub open spec fn awaits(self, data: Seq<u8>) -> bool {
        &&& !refused_at_once(self.conv, data)
        &&& data[4] == CMD_PUSH
        &&& number_at(data, 0) == self.awaited()
        &&& self.queue.len() < self.rcv_wnd
    }

    /// Where there is a next message, its bytes are in front of the receive queue.
    pub proof fn lemma_next(self)
        ensures
            self.next() matches Ok(n) ==> {
                &&& 0 < self.next_count() <= self.queue.len()
                &&& n <= self.received().len()
                &&& self.received().take(n as int) == joined(self.queue.take(self.next_count()))
                &&& self.received().skip(n as int) == joined(self.queue.skip(self.next_count()))
            },
            self.next() matches Err(e) ==> nothing_to_read(e),
    {
        if self.next() is Ok {
            let c = self.next_count();
            lemma_message_count(self.queue);
            assert(self.queue.take(c) + self.queue.skip(c) =~= self.queue);
            lemma_joined_concat(self.queue.take(c), self.queue.skip(c));
            let n = self.next()->Ok_0 as int;
            assert(self.received().take(n) =~= joined(self.queue.take(c)));
            assert(self.received().skip(n) =~= joined(self.queue.skip(c)));
        }
    }

    /// Where the next message of `pre` was taken out, its bytes are the last ones that were, and what
    /// waited behind it waits in front.
    pub proof fn lemma_took(self, pre: KcpState)
        requires
            pre.next() is Ok,
            pre.took_message(self),
        ensures
            ({
                let n = pre.next()->Ok_0 as int;
                &&& self.read_out() == pre.read_out() + pre.received().take(n)
                &&& pre.received().skip(n).is_prefix_of(self.received())
            }),
    {
        pre.lemma_next();
        lemma_joined_concat(pre.taken, pre.queue.take(pre.next_count()));
        lemma_joined_prefix(pre.queue.skip(pre.next_count()), self.queue);
    }

    /// The number of fragments that a message of `len` bytes is cut into.
    pub open spec fn fragments(self, len: nat) -> int {
        if len <= self.mss() {
            1
        } else {
            (len + self.mss() - 1) / self.mss()
        }
    }

    /// Whether a message of `len` bytes can be sent.
    pub open spec fn sendable(self, len: nat) -> bool {
        self.fragments(len) < FRAGMENT_LIMIT
    }

    /// Whether a datagram is one that this engine sends: it goes to the peer, is no longer than the
    /// transmission unit, opens with a header of the conversation, and carries segments that were
    /// cut from what was written, as long as sequence numbers do not go round.
    pub open spec fn sends(self, datagram: (PeerAddr, Seq<u8>)) -> bool {
        &&& datagram.0 == self.peer
        &&& HEADER_LEN <= datagram.1.len() <= self.mtu
        &&& le_u32(datagram.1) == self.conv
        &&& self.segments.len() < SEQUENCE_LIMIT ==> carries(
            self.conv,
            datagram.1,
            0,
            self.segments,
        )
    }

    /// Whether `later` differs from this state only in what sending changes: bytes left the front
    /// of the send queue, and datagrams were written.
    pub open spec fn pushed_out(self, later: KcpState) -> bool {
        &&& later == (KcpState {
            updated: later.updated,
            current: later.current,
            queued: later.queued,
            due: later.due,
            sent: later.sent,
            ..self
        })
        &&& self.keeps_under_way(later)
        &&& exists|n: int| 0 <= n <= self.queued.len() && later.queued == self.queued.skip(n)
        &&& self.sent.is_prefix_of(later.sent)
        &&& forall|i: int|
            self.sent.len() <= i < later.sent.len() ==> self.sends(#[trigger] later.sent[i])
    }

    /// Whether what was under way still is in `later`, and each segment that is new there, or has
    /// another time to be sent again, was sent in between.
    pub open spec fn keeps_under_way(self, later: KcpState) -> bool {
        &&& self.due.dom().subset_of(later.due.dom())
        &&& forall|number: u32| #[trigger]
            later.due.dom().contains(number) ==> self.due.dom().contains(number) && self.due[number]
                == later.due[number] || self.sent_since(later, number)
    }

    /// Whether a datagram that was sent between this state and `later` holds the segment of this
    /// number.
    pub open spec fn sent_since(self, later: KcpState, number: u32) -> bool {
        exists|i: int|
            self.sent.len() <= i < later.sent.len() && holds(
                self.conv,
                #[trigger] later.sent[i].1,
                0,
                number,
            )
    }

    /// Whether every segment that was to be sent again by the time `now` was sent again until
    /// `later`.
    pub open spec fn sends_again(self, now: u32, later: KcpState) -> bool {
        forall|number: u32| #[trigger]
            self.due.dom().contains(number) && not_before(now, self.due[number])
                ==> self.sent_since(later, number)
    }

    /// What telling the time and sending what is due does.
    pub open spec fn told(self, now: u32, later: KcpState) -> bool {
        &&& later.updated
        &&& later.current == now
        &&& self.pushed_out(later)
        &&& self.sends_again(now, later)
    }

    /// Whether each segment under way that the datagram does not acknowledge is still under way in
    /// `later`, with its time to be sent again, and no other is.
    pub open spec fn acknowledged(self, data: Seq<u8>, later: KcpState) -> bool {
        &&& later.due.submap_of(self.due)
        &&& forall|number: u32| #[trigger]
            self.due.dom().contains(number) && !acknowledges(self.conv, data, 0, number)
                ==> later.due.dom().contains(number)
    }

    /// Whether `later` differs from this state only in what receiving changes.
    pub open spec fn received_into(self, later: KcpState) -> bool {
        later == (KcpState {
            taken: later.taken,
            queue: later.queue,
            parked: later.parked,
            due: later.due,
            ..self
        })
    }

    /// Whether the next message, and no other, was taken out until `later`.
    pub open spec fn took_message(self, later: KcpState) -> bool {
        &&& later.taken == self.taken + self.queue.take(self.next_count())
        &&& self.queue.skip(self.next_count()).is_prefix_of(later.queue)
    }

    /// Whether the segment that the receive queue waits for has joined it until `later`, where the
    /// datagram opens with it.
    pub open spec fn joins_at_once(self, data: Seq<u8>, later: KcpState) -> bool {
        &&& self.queue.is_prefix_of(later.queue)
        &&& self.settled() && self.awaits(data) ==> self.queue.push(
            fragment_at(data, 0),
        ).is_prefix_of(later.queue)
    }

    /// Whether what came in until `later` agrees with the segments of the other end if what came in
    /// until now does.
    pub open spec fn still_agrees(self, later: KcpState) -> bool {
        forall|segments: Seq<Fragment>|
            segments.len() < SEQUENCE_LIMIT && self.agrees(segments) ==> #[trigger] later.agrees(
                segments,
            )
    }

    /// The same where the datagram `data` came in between, if it carries segments of the other end.
    pub open spec fn still_agrees_after(self, data: Seq<u8>, later: KcpState) -> bool {
        forall|segments: Seq<Fragment>|
            segments.len() < SEQUENCE_LIMIT && self.agrees(segments) && carries(
                self.conv,
                data,
                0,
                segments,
            ) ==> #[trigger] later.agrees(segments)
    }

    /// This state with a message at the end of the send queue.
    pub open spec fn with_message(self, data: Seq<u8>) -> KcpState {
        KcpState {
            queued: self.queued + data,
            segments: self.segments + pieces(data, self.mss()),
            ..self
        }
    }

    /// What was sent in either of two times in a row was sent in both together.
    pub proof fn lemma_sent_twice(self, then: KcpState, later: KcpState, number: u32)
        requires
            then.conv == self.conv,
            self.sent.is_prefix_of(then.sent),
            then.sent.is_prefix_of(later.sent),
        ensures
            self.sent_since(then, number) || then.sent_since(later, number) ==> self.sent_since(
                later,
                number,
            ),
    {
        if self.sent_since(then, number) {
            let i = choose|i: int|
                self.sent.len() <= i < then.sent.len() && holds(
                    self.conv,
                    #[trigger] then.sent[i].1,
                    0,
                    number,
                );
            assert(then.sent[i] == later.sent.subrange(0, then.sent.len() as int)[i]);
            assert(holds(self.conv, later.sent[i].1, 0, number));
        }
        if then.sent_since(later, number) {
            let i = choose|i: int|
                then.sent.len() <= i < later.sent.len() && holds(
                    then.conv,
                    #[trigger] later.sent[i].1,
                    0,
                    number,
                );
            assert(holds(self.conv, later.sent[i].1, 0, number));
        }
    }

    /// Sending twice in a row changes no more than sending changes.
    pub proof fn lemma_pushed_out_twice(self, then: KcpState, later: KcpState)
        requires
            self.pushed_out(then),
            then.pushed_out(later),
        ensures
            self.pushed_out(later),
    {
        let n = choose|n: int| 0 <= n <= self.queued.len() && then.queued == self.queued.skip(n);
        let m = choose|m: int| 0 <= m <= then.queued.len() && later.queued == then.queued.skip(m);
        assert(later.queued =~= self.queued.skip(n + m));
        assert forall|i: int| 0 <= i < then.sent.len() implies then.sent[i]
            == #[trigger] later.sent[i] by {
            assert(then.sent[i] == later.sent.subrange(0, then.sent.len() as int)[i]);
        }
        assert forall|i: int| 0 <= i < self.sent.len() implies self.sent[i]
            == #[trigger] later.sent[i] by {
            assert(self.sent[i] == then.sent.subrange(0, self.sent.len() as int)[i]);
        }
        assert(self.sent =~= later.sent.subrange(0, self.sent.len() as int));
        assert forall|number: u32| #[trigger] later.due.dom().contains(number) implies (
        self.due.dom().contains(number) && self.due[number] == later.due[number])
            || self.sent_since(later, number) by {
            self.lemma_sent_twice(then, later, number);
        }
        assert forall|i: int| self.sent.len() <= i < later.sent.len() implies self.sends(
            #[trigger] later.sent[i],
        ) by {
            if i < then.sent.len() {
                assert(self.sends(then.sent[i]));
            } else {
                assert(then.sends(later.sent[i]));
            }
        }
    }
}

/// The payload length that the header at `at` announces.
pub open spec fn payload_len(data: Seq<u8>, at: int) -> int {
    le_u32(data.subrange(at + 20, at + 24))
}

/// The sequence number in the header at `at`.
pub open spec fn number_at(data: Seq<u8>, at: int) -> int {
    le_u32(data.subrange(at + 12, at + 16))
}

/// The number in the header at `at` that is awaited at the other end: all before it came there.
pub open spec fn una_at(data: Seq<u8>, at: int) -> int {
    le_u32(data.subrange(at + 16, at + 20))
}

/// Whether one 32-bit number that goes round is not before another: it is less than half a round
/// ahead.
pub open spec fn not_before(a: u32, b: u32) -> bool {
    (a - b) % 0x1_0000_0000 < 0x8000_0000
}

/// Whether a segment from `at` on is the one of this number, up to the first segment that an engine of
/// conversation `conv` refuses.
pub open spec fn holds(conv: u32, data: Seq<u8>, at: int, number: u32) -> bool
    decreases data.len() - at,
{
    if data.len() - at < HEADER_LEN || segment_error(conv, data, at) is Some {
        false
    } else {
        ||| data[at + 4] == CMD_PUSH && number_at(data, at) == number
        ||| holds(conv, data, at + HEADER_LEN + payload_len(data, at), number)
    }
}

/// Whether a segment from `at` on says that the segment of this number came, up to the first segment
/// that an engine of conversation `conv` refuses: it acknowledges that one, or awaits a later one.
pub open spec fn acknowledges(conv: u32, data: Seq<u8>, at: int, number: u32) -> bool
    decreases data.len() - at,
{
    if data.len() - at < HEADER_LEN || segment_error(conv, data, at) is Some {
        false
    } else {
        ||| data[at + 4] == CMD_ACK && number_at(data, at) == number
        ||| una_at(data, at) != number && not_before(una_at(data, at) as u32, number)
        ||| acknowledges(conv, data, at + HEADER_LEN + payload_len(data, at), number)
    }
}

/// The fragment in the segment at `at`.
pub open spec fn fragment_at(data: Seq<u8>, at: int) -> Fragment {
    Fragment {
        left: data[at + 5],
        bytes: data.subrange(at + HEADER_LEN, at + HEADER_LEN + payload_len(data, at)),
    }
}

/// Why the segment at `at` is refused by an engine of conversation `conv`, where that is so: it
/// belongs to another conversation, announces more payload than follows, or has a command that
/// is not one of the four of the protocol.
pub open spec fn segment_error(conv: u32, data: Seq<u8>, at: int) -> Option<KcpError> {
    let found = le_u32(data.subrange(at, at + 4));
    let len = payload_len(data, at);
    let rest = data.len() - at - HEADER_LEN;
    if found != conv {
        Some(KcpError::ConvInconsistent(conv, found as u32))
    } else if len > rest {
        Some(KcpError::InvalidSegmentDataSize(len as usize, rest as usize))
    } else if !(81 <= data[at + 4] <= 84) {
        Some(KcpError::UnsupportedCmd(data[at + 4]))
    } else {
        None
    }
}

/// Whether every segment from `at` on that carries a fragment carries what its sequence number stands
/// for in `segments`, up to the first segment that an engine of conversation `conv` refuses.
pub open spec fn carries(conv: u32, data: Seq<u8>, at: int, segments: Seq<Fragment>) -> bool
    decreases data.len() - at,
{
    if data.len() - at < HEADER_LEN || segment_error(conv, data, at) is Some {
        true
    } else {
        &&& data[at + 4] == CMD_PUSH ==> {
            &&& number_at(data, at) < segments.len()
            &&& fragment_at(data, at) == segments[number_at(data, at)]
        }
        &&& carries(conv, data, at + HEADER_LEN + payload_len(data, at), segments)
    }
}

/// The fragments that a message is cut into: all of `mss` bytes but the last, which has the rest.
/// They are counted down.
pub open spec fn pieces(data: Seq<u8>, mss: int) -> Seq<Fragment>
    decreases data.len(),
{
    if data.len() <= mss || mss <= 0 {
        seq![Fragment { left: 0, bytes: data }]
    } else {
        let rest = pieces(data.skip(mss), mss);
        seq![Fragment { left: rest.len() as u8, bytes: data.take(mss) }] + rest
    }
}

/// The pieces of a message together are the message.
pub proof fn lemma_pieces_joined(data: Seq<u8>, mss: int)
    ensures
        joined(pieces(data, mss)) == data,
    decreases data.len(),
{
    let all = pieces(data, mss);
    lemma_joined_one(all[0]);
    if data.len() <= mss || mss <= 0 {
        assert(all =~= seq![all[0]]);
    } else {
        let rest = pieces(data.skip(mss), mss);
        lemma_pieces_joined(data.skip(mss), mss);
        lemma_joined_concat(seq![all[0]], rest);
        assert(data.take(mss) + data.skip(mss) =~= data);
    }
}

/// What taking in the segments from `at` on returns: the place behind the last one, or why one of
/// them is refused. Less than a header at the end is left alone.
pub open spec fn segments_result(conv: u32, data: Seq<u8>, at: int) -> Result<usize, KcpError>
    decreases data.len() - at,
{
    if data.len() - at < HEADER_LEN {
        Ok(at as usize)
    } else {
        match segment_error(conv, data, at) {
            Some(e) => Err(e),
            None => segments_result(conv, data, at + HEADER_LEN + payload_len(data, at)),
        }
    }
}

/// What taking in a datagram returns: it has to hold a segment.
pub open spec fn input_result(conv: u32, data: Seq<u8>) -> Result<usize, KcpError> {
    if data.len() < HEADER_LEN {
        Err(KcpError::InvalidSegmentSize(data.len() as usize))
    } else {
        segments_result(conv, data, 0)
    }
}

/// Whether a datagram is refused before anything of it is taken in.
pub open spec fn refused_at_once(conv: u32, data: Seq<u8>) -> bool {
    data.len() < HEADER_LEN || segment_error(conv, data, 0) is Some
}

/// The errors that only say that no whole message is there yet.
pub open spec fn nothing_to_read(e: KcpError) -> bool {
    e is RecvQueueEmpty || e is ExpectingFragment
}

/// The state of a new engine.
pub open spec fn new_state(
    conv: u32,
    peer: PeerAddr,
    sender: UnboundedSender<UdpDatagram>,
) -> KcpState {
    KcpState {
        conv,
        mtu: 1400,
        stream: false,
        waits_conv: false,
        snd_wnd: 32,
        rcv_wnd: 128,
        nodelay: false,
        interval: 100,
        min_rto: 100,
        fast_resend: 0,
        no_cwnd: false,
        goes_round: true,
        updated: false,
        current: 0,
        taken: Seq::empty(),
        queue: Seq::empty(),
        parked: Set::empty(),
        queued: Seq::empty(),
        segments: Seq::empty(),
        due: Map::empty(),
        peer,
        sender,
        sent: handed(sender),
    }
}

/// The state of an engine of this library: new, then tuned.
pub open spec fn tuned_state(
    conv: u32,
    peer: PeerAddr,
    sender: UnboundedSender<UdpDatagram>,
) -> KcpState {
    KcpState {
        mtu: 1000,
        snd_wnd: 1024,
        rcv_wnd: 1024,
        nodelay: true,
        interval: 10,
        min_rto: 30,
        fast_resend: 1,
        no_cwnd: false,
        ..new_state(conv, peer, sender)
    }
}

} // verus!
