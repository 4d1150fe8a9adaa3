use futures::executor::{spawn, Notify, Spawn};
use futures::sync::mpsc::{unbounded, UnboundedReceiver};
use futures::Async;
use kcptun::error::io_error;
use kcptun::io::grown_len;
use kcptun::{GoesRound, Kcp, KcpError, KcpIo, KcpOutput, PeerAddr, UdpDatagram};
use std::io::ErrorKind;
use std::sync::Arc;

const CONV: u32 = 0x0102_0304;
const PEER: PeerAddr = PeerAddr::V4(0x7f00_0001, 12345);

const PUSH: u8 = 81;
const ACK: u8 = 82;
const WASK: u8 = 83;

struct Quiet;

impl Notify for Quiet {
    fn notify(&self, _id: usize) {}
}

/// The datagrams that one end sends.
struct Wire(Spawn<UnboundedReceiver<UdpDatagram>>);

impl Wire {
    fn take(&mut self) -> Vec<Vec<u8>> {
        let mut all = Vec::new();
        while let Ok(Async::Ready(Some(datagram))) = self.0.poll_stream_notify(&Arc::new(Quiet), 0) {
            assert_eq!(datagram.peer, PEER);
            all.push(datagram.data);
        }
        all
    }
}

fn end(conv: u32) -> (KcpIo, Wire) {
    let (udp, datagrams) = unbounded();
    let found = GoesRound::found(false).unwrap();
    (KcpIo::new(Kcp::tuned(conv, KcpOutput::new(udp, PEER), found)), Wire(spawn(datagrams)))
}

fn segment(conv: u32, cmd: u8, frg: u8, sn: u32, payload: &[u8]) -> Vec<u8> {
    let mut bytes = Vec::new();
    bytes.extend_from_slice(&conv.to_le_bytes());
    bytes.push(cmd);
    bytes.push(frg);
    bytes.extend_from_slice(&128u16.to_le_bytes());
    bytes.extend_from_slice(&0u32.to_le_bytes());
    bytes.extend_from_slice(&sn.to_le_bytes());
    bytes.extend_from_slice(&0u32.to_le_bytes());
    bytes.extend_from_slice(&(payload.len() as u32).to_le_bytes());
    bytes.extend_from_slice(payload);
    bytes
}

#[test]
fn the_transmission_unit_is_tuned() {
    assert_eq!(end(CONV).0.mtu(), 1000);
}

#[test]
fn nothing_can_be_read_from_a_new_connection() {
    let (mut io, _wire) = end(CONV);
    let mut buf = [7u8; 4];
    assert!(matches!(io.read(&mut buf), Err(KcpError::RecvQueueEmpty)));
    assert_eq!(buf, [7; 4]);
    assert!(matches!(io.fill_buf(), Err(KcpError::RecvQueueEmpty)));
}

#[test]
fn short_datagrams_are_refused() {
    let (mut io, _wire) = end(CONV);
    assert!(matches!(io.input(&[]), Err(KcpError::InvalidSegmentSize(0))));
    assert!(matches!(io.input(&[0; 23]), Err(KcpError::InvalidSegmentSize(23))));
}

#[test]
fn other_conversations_are_refused() {
    let (mut io, _wire) = end(CONV);
    let data = segment(5, PUSH, 0, 0, b"x");
    assert!(matches!(io.input(&data), Err(KcpError::ConvInconsistent(CONV, 5))));
    assert!(matches!(io.read(&mut [0; 4]), Err(KcpError::RecvQueueEmpty)));
}

#[test]
fn cut_off_segments_are_refused() {
    let (mut io, _wire) = end(CONV);
    let data = segment(CONV, PUSH, 0, 0, b"hello");
    assert!(matches!(io.input(&data[..27]), Err(KcpError::InvalidSegmentDataSize(5, 3))));
    assert!(matches!(io.read(&mut [0; 4]), Err(KcpError::RecvQueueEmpty)));
}

#[test]
fn unknown_commands_are_refused() {
    let (mut io, _wire) = end(CONV);
    assert!(matches!(io.input(&segment(CONV, 80, 0, 0, b"")), Err(KcpError::UnsupportedCmd(80))));
    assert!(matches!(io.input(&segment(CONV, 85, 0, 0, b"")), Err(KcpError::UnsupportedCmd(85))));
}

#[test]
fn segments_before_a_refused_one_are_taken_in() {
    let (mut io, _wire) = end(CONV);
    let mut data = segment(CONV, PUSH, 0, 0, b"kept");
    data.extend_from_slice(&segment(CONV, 99, 0, 1, b"lost"));
    assert!(matches!(io.input(&data), Err(KcpError::UnsupportedCmd(99))));
    let mut buf = [0; 8];
    assert_eq!(io.read(&mut buf).unwrap(), 4);
    assert_eq!(&buf[..4], b"kept");
}

#[test]
fn input_tells_how_far_it_read() {
    let (mut io, _wire) = end(CONV);
    let mut data = segment(CONV, PUSH, 0, 0, b"abc");
    data.extend_from_slice(&segment(CONV, WASK, 0, 0, b""));
    assert_eq!(io.input(&data).unwrap(), 51);
    data.extend_from_slice(&[1, 2, 3]);
    assert_eq!(io.input(&data).unwrap(), 51);
    assert_eq!(io.input(&segment(CONV, ACK, 0, 7, b"")).unwrap(), 24);
}

#[test]
fn a_message_is_read_whole_or_in_pieces() {
    let (mut io, _wire) = end(CONV);
    io.input(&segment(CONV, PUSH, 0, 0, b"hello world")).unwrap();
    io.input(&segment(CONV, PUSH, 0, 1, b"next")).unwrap();
    let mut buf = [0u8; 4];
    assert_eq!(io.read(&mut buf).unwrap(), 4);
    assert_eq!(&buf, b"hell");
    assert_eq!(io.read(&mut buf).unwrap(), 4);
    assert_eq!(&buf, b"o wo");
    // The rest of the message comes alone, though the next one is there.
    assert_eq!(io.read(&mut buf).unwrap(), 3);
    assert_eq!(&buf, b"rldo");
    let mut large = [9u8; 6];
    assert_eq!(io.read(&mut large).unwrap(), 4);
    assert_eq!(&large, &[b'n', b'e', b'x', b't', 9, 9]);
    assert!(matches!(io.read(&mut large), Err(KcpError::RecvQueueEmpty)));
}

#[test]
fn an_empty_buffer_reads_nothing_of_a_message() {
    let (mut io, _wire) = end(CONV);
    io.input(&segment(CONV, PUSH, 0, 0, b"ab")).unwrap();
    assert_eq!(io.read(&mut []).unwrap(), 0);
    let mut buf = [0u8; 2];
    assert_eq!(io.read(&mut buf).unwrap(), 2);
    assert_eq!(&buf, b"ab");
}

#[test]
fn filling_and_consuming_the_buffer() {
    let (mut io, _wire) = end(CONV);
    io.input(&segment(CONV, PUSH, 0, 0, b"abcdef")).unwrap();
    io.input(&segment(CONV, PUSH, 0, 1, b"gh")).unwrap();
    assert_eq!(io.fill_buf().unwrap(), b"abcdef");
    assert_eq!(io.fill_buf().unwrap(), b"abcdef");
    io.consume(2);
    assert_eq!(io.fill_buf().unwrap(), b"cdef");
    io.consume(100);
    assert_eq!(io.fill_buf().unwrap(), b"gh");
    io.consume(usize::MAX);
    assert!(matches!(io.fill_buf(), Err(KcpError::RecvQueueEmpty)));
}

#[test]
fn a_message_longer_than_the_buffer_makes_it_grow() {
    let (mut io, _wire) = end(CONV);
    let parts: Vec<Vec<u8>> = (0..5u8).map(|i| vec![i; 900]).collect();
    for (i, part) in parts.iter().enumerate() {
        io.input(&segment(CONV, PUSH, 4 - i as u8, i as u32, part)).unwrap();
    }
    assert_eq!(io.fill_buf().unwrap(), parts.concat().as_slice());
    let mut buf = vec![0u8; 5000];
    assert_eq!(io.read(&mut buf).unwrap(), 4500);
    assert_eq!(&buf[..4500], parts.concat().as_slice());
}

#[test]
fn lengths_that_the_buffer_grows_to() {
    assert_eq!(grown_len(Ok(1001)), 1024);
    assert_eq!(grown_len(Ok(1024)), 1024);
    assert_eq!(grown_len(Ok(1025)), 2048);
    assert_eq!(grown_len(Ok(0)), 1);
    assert_eq!(grown_len(Err(KcpError::RecvQueueEmpty)), 1);
    assert_eq!(grown_len(Ok(usize::MAX)), usize::MAX);
}

#[test]
fn a_message_is_not_read_before_all_of_it_is_there() {
    let (mut io, _wire) = end(CONV);
    io.input(&segment(CONV, PUSH, 1, 0, b"first ")).unwrap();
    let mut buf = [0u8; 16];
    assert!(matches!(io.read(&mut buf), Err(KcpError::ExpectingFragment)));
    io.input(&segment(CONV, PUSH, 0, 1, b"second")).unwrap();
    assert_eq!(io.read(&mut buf).unwrap(), 12);
    assert_eq!(&buf[..12], b"first second");
}

#[test]
fn segments_are_put_in_order_and_taken_once() {
    let (mut io, _wire) = end(CONV);
    io.input(&segment(CONV, PUSH, 0, 2, b"c")).unwrap();
    io.input(&segment(CONV, PUSH, 0, 1, b"b")).unwrap();
    io.input(&segment(CONV, PUSH, 0, 1, b"b")).unwrap();
    assert!(matches!(io.read(&mut [0; 4]), Err(KcpError::RecvQueueEmpty)));
    io.input(&segment(CONV, PUSH, 0, 0, b"a")).unwrap();
    io.input(&segment(CONV, PUSH, 0, 0, b"a")).unwrap();
    let mut got = Vec::new();
    let mut buf = [0u8; 4];
    while let Ok(n) = io.read(&mut buf) {
        got.extend_from_slice(&buf[..n]);
    }
    assert_eq!(got, b"abc");
}

#[test]
fn flushing_needs_the_time() {
    let (mut io, mut wire) = end(CONV);
    assert_eq!(io.write(b"abc").unwrap(), 3);
    assert!(matches!(io.flush(), Err(KcpError::NeedUpdate)));
    io.push_out(100);
    assert!(io.flush().is_ok());
    assert_eq!(wire.take().len(), 1);
}

#[test]
fn a_message_goes_out_as_numbered_segments_of_the_conversation() {
    let (mut io, mut wire) = end(CONV);
    io.write(b"abc").unwrap();
    io.push_out(100);
    let sent = wire.take();
    assert_eq!(sent.len(), 1);
    assert_eq!(sent[0].len(), 27);
    assert_eq!(&sent[0][..6], &[4, 3, 2, 1, PUSH, 0]);
    assert_eq!(&sent[0][12..16], &[0, 0, 0, 0]);
    assert_eq!(&sent[0][20..], &[3, 0, 0, 0, b'a', b'b', b'c']);
}

#[test]
fn messages_of_too_many_fragments_are_refused() {
    let (mut io, mut wire) = end(CONV);
    assert!(matches!(io.write(&vec![0; 976 * 127 + 1]), Err(KcpError::UserBufTooBig)));
    io.push_out(100);
    assert_eq!(wire.take().len(), 0);
    assert_eq!(io.write(&vec![0; 976 * 127]).unwrap(), 976 * 127);
    assert_eq!(io.write(&[]).unwrap(), 0);
}

#[test]
fn a_tick_sends_what_is_due() {
    let (mut io, mut wire) = end(CONV);
    io.write(b"abc").unwrap();
    io.tick();
    io.tick();
    assert!(!wire.take().is_empty());
}

#[test]
fn a_long_message_is_cut_into_pieces() {
    let (mut client, mut up) = end(CONV);
    let (mut server, mut down) = end(CONV);
    let message: Vec<u8> = (0..2000u32).map(|i| (i % 251) as u8).collect();
    client.write(&message).unwrap();
    let mut pieces: Vec<Vec<u8>> = Vec::new();
    for round in 0..20u32 {
        client.push_out(1000 + 10 * round);
        for data in up.take() {
            let mut at = 0;
            while at + 24 <= data.len() {
                let len = data[at + 20] as usize + 256 * data[at + 21] as usize;
                if data[at + 4] == PUSH && data[at + 12] as usize == pieces.len() {
                    assert_eq!(data[at + 5] as usize, 2 - pieces.len());
                    pieces.push(data[at + 24..at + 24 + len].to_vec());
                }
                at += 24 + len;
            }
            server.input(&data).unwrap();
        }
        server.push_out(1000 + 10 * round);
        for data in down.take() {
            client.input(&data).unwrap();
        }
    }
    let lengths: Vec<usize> = pieces.iter().map(|piece| piece.len()).collect();
    assert_eq!(lengths, vec![976, 976, 48]);
    assert_eq!(pieces.concat(), message);
    let mut buf = vec![0u8; 2000];
    assert_eq!(server.read(&mut buf).unwrap(), 2000);
    assert_eq!(buf, message);
}

/// Sends messages over a network that drops every third datagram, repeats every fourth and turns
/// the order of each batch round. What is read is at all times the beginning of what was written.
#[test]
fn what_is_read_is_the_beginning_of_what_was_written() {
    let (mut client, mut up) = end(CONV);
    let (mut server, mut down) = end(CONV);
    let mut written: Vec<u8> = Vec::new();
    let mut read: Vec<u8> = Vec::new();
    let mut count = 0usize;
    for round in 0..4000u32 {
        let now = 1000 + 10 * round;
        if round < 40 {
            let message: Vec<u8> = (0..997u32 * (round % 4)).map(|i| (i * 7 + round) as u8).collect();
            assert_eq!(client.write(&message).unwrap(), message.len());
            written.extend_from_slice(&message);
        }
        client.push_out(now);
        let mut batch = up.take();
        batch.reverse();
        for data in batch {
            assert!(24 <= data.len() && data.len() <= 1000);
            assert_eq!(&data[..4], &CONV.to_le_bytes());
            count += 1;
            if count % 3 != 0 {
                server.input(&data).unwrap();
            }
            if count % 4 == 0 {
                server.input(&data).unwrap();
            }
        }
        let mut buf = [0u8; 700];
        while let Ok(n) = server.read(&mut buf) {
            read.extend_from_slice(&buf[..n]);
            assert!(written.starts_with(&read));
        }
        server.push_out(now);
        for data in down.take() {
            client.input(&data).unwrap();
        }
        if round >= 40 && read.len() == written.len() {
            break;
        }
    }
    assert_eq!(read, written);
}

#[test]
fn what_is_left_in_the_buffer_is_counted() {
    let (mut io, _wire) = end(CONV);
    assert_eq!(io.buf_remaining(), 0);
    io.input(&segment(CONV, PUSH, 0, 0, b"abcdef")).unwrap();
    io.input(&segment(CONV, PUSH, 0, 1, b"gh")).unwrap();
    assert_eq!(io.buf_remaining(), 0);
    assert_eq!(io.read(&mut [0; 4]).unwrap(), 4);
    assert_eq!(io.buf_remaining(), 2);
    io.consume(1);
    assert_eq!(io.buf_remaining(), 1);
    assert_eq!(io.read(&mut [0; 4]).unwrap(), 1);
    assert_eq!(io.buf_remaining(), 0);
    // A message that fits goes past the buffer.
    assert_eq!(io.read(&mut [0; 4]).unwrap(), 2);
    assert_eq!(io.buf_remaining(), 0);
}

#[test]
fn an_awaited_message_can_be_read_at_once() {
    let (mut io, _wire) = end(CONV);
    io.input(&segment(CONV, PUSH, 0, 1, b"early")).unwrap();
    io.input(&segment(CONV, PUSH, 0, 0, b"now")).unwrap();
    let mut buf = [0u8; 8];
    assert_eq!(io.read(&mut buf).unwrap(), 3);
    assert_eq!(&buf[..3], b"now");
    assert_eq!(io.read(&mut buf).unwrap(), 5);
    assert_eq!(&buf[..5], b"early");
}

#[test]
fn a_full_window_holds_back() {
    let (mut io, _wire) = end(CONV);
    for sn in 0..1024u32 {
        io.input(&segment(CONV, PUSH, 0, sn, &sn.to_le_bytes())).unwrap();
    }
    // There is no room for one more until one is read.
    io.input(&segment(CONV, PUSH, 0, 1024, &1024u32.to_le_bytes())).unwrap();
    let mut buf = [0u8; 4];
    for sn in 0..1025u32 {
        assert_eq!(io.read(&mut buf).unwrap(), 4);
        assert_eq!(u32::from_le_bytes(buf), sn);
    }
    assert!(matches!(io.read(&mut buf), Err(KcpError::RecvQueueEmpty)));
}

/// Sends messages of all sizes, empty ones too, over a network that drops every third datagram and
/// turns the order of each batch round. Each message is read by itself and whole.
#[test]
fn messages_are_preserved() {
    let (mut client, mut up) = end(CONV);
    let (mut server, mut down) = end(CONV);
    let messages: Vec<Vec<u8>> =
        (0..30usize).map(|i| vec![i as u8; (i % 7) * 600]).collect();
    let mut read: Vec<Vec<u8>> = Vec::new();
    let mut count = 0usize;
    for message in &messages {
        assert_eq!(client.write(message).unwrap(), message.len());
    }
    for round in 0..4000u32 {
        client.push_out(1000 + 10 * round);
        let mut batch = up.take();
        batch.reverse();
        for data in batch {
            count += 1;
            if count % 3 != 0 {
                server.input(&data).unwrap();
            }
        }
        let mut buf = [0u8; 4000];
        while let Ok(n) = server.read(&mut buf) {
            read.push(buf[..n].to_vec());
        }
        server.push_out(1000 + 10 * round);
        for data in down.take() {
            client.input(&data).unwrap();
        }
        if read.len() == messages.len() {
            break;
        }
    }
    assert_eq!(read, messages);
}

#[test]
fn engine_errors_have_a_kind() {
    assert_eq!(io_error(KcpError::RecvQueueEmpty).kind(), ErrorKind::WouldBlock);
    assert_eq!(io_error(KcpError::ExpectingFragment).kind(), ErrorKind::WouldBlock);
    for e in vec![
        KcpError::ConvInconsistent(1, 2),
        KcpError::InvalidMtu(3),
        KcpError::InvalidSegmentSize(4),
        KcpError::InvalidSegmentDataSize(5, 6),
        KcpError::NeedUpdate,
        KcpError::UnsupportedCmd(7),
        KcpError::UserBufTooBig,
        KcpError::UserBufTooSmall,
    ] {
        assert_eq!(io_error(e).kind(), ErrorKind::Other);
    }
    let inner = std::io::Error::from(ErrorKind::BrokenPipe);
    assert_eq!(io_error(KcpError::IoError(inner)).kind(), ErrorKind::BrokenPipe);
    assert_eq!(
        io_error(KcpError::ConvInconsistent(1, 2)).to_string(),
        "conv inconsistent, expected 1, found 2"
    );
}

#[test]
fn engine_errors_are_told_apart_by_what_is_reported() {
    assert_eq!(io_error(KcpError::UserBufTooBig).to_string(), "user's send buffer is too big");
    assert_eq!(io_error(KcpError::NeedUpdate).to_string(), "need to call update() once");
    assert_eq!(io_error(KcpError::RecvQueueEmpty).to_string(), "recv queue is empty");
    assert_eq!(io_error(KcpError::ExpectingFragment).to_string(), "expecting fragment");
}

/// Reads messages with buffers of all lengths, with datagrams coming in between. What the reads gave,
/// then what is buffered, are whole messages, and no read gives bytes of two.
#[test]
fn reads_of_any_length_give_whole_messages() {
    let (mut io, _wire) = end(CONV);
    let messages: Vec<Vec<u8>> = (0..50u8).map(|i| vec![i; (i as usize * 13) % 40]).collect();
    let mut given: Vec<u8> = Vec::new();
    for (sn, message) in messages.iter().enumerate() {
        io.input(&segment(CONV, PUSH, 0, sn as u32, message)).unwrap();
        let mut buf = vec![99u8; (sn * 7) % 23];
        let len = buf.len();
        let n = io.read(&mut buf).unwrap();
        assert!(n <= len);
        assert!(buf[..n].iter().all(|byte| *byte == buf[0]));
        given.extend_from_slice(&buf[..n]);
        let so_far = given.len() + io.buf_remaining();
        let ends: Vec<usize> = (0..=messages.len()).map(|j| messages[..j].concat().len()).collect();
        assert!(ends.contains(&so_far));
        assert!(messages.concat().starts_with(&given));
    }
}

#[test]
fn an_engine_counts_on_where_its_numbers_end() {
    let (mut io, mut wire) = end(CONV);
    io.push_out(0x7fff_fffe);
    io.write(b"abc").unwrap();
    io.push_out(0x8000_0008);
    assert_eq!(wire.take().len(), 1);
    io.push_out(0xffff_fffe);
    io.push_out(7);
    io.input(&segment(CONV, PUSH, 255, 0, b"x")).unwrap();
    io.input(&segment(CONV, PUSH, 0, 0x8000_0000, b"far")).unwrap();
    let mut buf = [0u8; 4];
    assert_eq!(io.read(&mut buf).unwrap(), 1);
    assert_eq!(buf[0], b'x');
    assert!(matches!(io.read(&mut buf), Err(KcpError::RecvQueueEmpty)));
}
