use futures::executor::{spawn, Notify, Spawn};
use futures::sync::mpsc::{unbounded, UnboundedReceiver};
use futures::Async;
use kcptun::stream::{read_outcome, Polled, ReadStep};
use kcptun::{GoesRound, KcpError, KcpOutput, KcpServerStream, KcpStream, PeerAddr, UdpDatagram};
use std::sync::Arc;

const SERVER: PeerAddr = PeerAddr::V4(0x7f00_0001, 12345);
const CLIENT: PeerAddr = PeerAddr::V4(0x7f00_0001, 40000);

struct Quiet;

impl Notify for Quiet {
    fn notify(&self, _id: usize) {}
}

struct Wire(Spawn<UnboundedReceiver<UdpDatagram>>);

impl Wire {
    fn next(&mut self) -> Option<UdpDatagram> {
        match self.0.poll_stream_notify(&Arc::new(Quiet), 0) {
            Ok(Async::Ready(datagram)) => datagram,
            _ => None,
        }
    }
}

fn output(peer: PeerAddr) -> (KcpOutput, Wire) {
    let (udp, datagrams) = unbounded();
    (KcpOutput::new(udp, peer), Wire(spawn(datagrams)))
}

fn found() -> GoesRound {
    GoesRound::found(false).unwrap()
}

fn client() -> (KcpStream, Wire) {
    let (output, wire) = output(SERVER);
    (KcpStream::connect(output, found()).poll(), wire)
}

#[test]
fn what_a_read_does_after_reading_the_buffer() {
    assert_eq!(read_outcome(Ok(3)), ReadStep::Done(3));
    assert_eq!(read_outcome(Ok(0)), ReadStep::Done(0));
    assert_eq!(read_outcome(Err(KcpError::RecvQueueEmpty)), ReadStep::Again);
    assert_eq!(read_outcome(Err(KcpError::UserBufTooBig)), ReadStep::Again);
}

#[test]
fn a_read_without_a_datagram_would_block() {
    let (mut stream, _wire) = client();
    let mut buf = [5u8; 3];
    assert_eq!(stream.read(Polled::Nothing, &mut buf), ReadStep::WouldBlock);
    assert_eq!(buf, [5; 3]);
}

#[test]
fn a_read_goes_on_after_a_datagram_that_is_refused() {
    let (mut stream, _wire) = client();
    let mut buf = [5u8; 3];
    assert_eq!(stream.read(Polled::Datagram(vec![1, 2]), &mut buf), ReadStep::Again);
    assert_eq!(buf, [5; 3]);
}

#[test]
fn a_client_and_a_server_talk() {
    let (mut stream, mut up) = client();
    assert_eq!(stream.write(b"ping").unwrap(), 4);
    let datagram = up.next().unwrap();
    assert_eq!(datagram.peer, SERVER);
    assert_eq!(&datagram.data[..4], &[0, 0, 0, 0]);

    let (output, mut down) = output(CLIENT);
    let mut server = KcpServerStream::accept(&datagram, output, found());
    let mut buf = [0u8; 16];
    assert_eq!(server.read(Polled::Datagram(datagram.data), &mut buf), ReadStep::Done(4));
    assert_eq!(&buf[..4], b"ping");
    assert_eq!(server.read(Polled::Nothing, &mut buf), ReadStep::WouldBlock);

    assert_eq!(server.write(b"pong!").unwrap(), 5);
    let mut answer = None;
    while let Some(datagram) = down.next() {
        assert_eq!(datagram.peer, CLIENT);
        match stream.read(Polled::Datagram(datagram.data), &mut buf) {
            ReadStep::Done(n) => answer = Some(buf[..n].to_vec()),
            step => assert_eq!(step, ReadStep::Again),
        }
    }
    assert_eq!(answer, Some(b"pong!".to_vec()));
}

#[test]
fn a_write_at_a_time_sends_at_once() {
    let (mut stream, mut wire) = client();
    assert_eq!(stream.write_at(b"abc", 1000).unwrap(), 3);
    assert_eq!(&wire.next().unwrap().data[24..], b"abc");
    assert!(wire.next().is_none());
    assert!(matches!(stream.write_at(&vec![0; 200_000], 1010), Err(KcpError::UserBufTooBig)));
    assert!(wire.next().is_none());
}

#[test]
fn a_server_writes_at_a_time_too() {
    let (output, mut wire) = output(CLIENT);
    let first = UdpDatagram { peer: CLIENT, data: vec![9, 0, 0, 0] };
    let mut server = KcpServerStream::accept(&first, output, found());
    assert_eq!(server.write_at(b"xy", 1000).unwrap(), 2);
    let sent = wire.next().unwrap();
    assert_eq!(&sent.data[..4], &[9, 0, 0, 0]);
    assert_eq!(&sent.data[24..], b"xy");
}

#[test]
fn flushing_and_shutting_down_do_nothing() {
    let (mut stream, mut wire) = client();
    assert!(stream.flush().is_ok());
    assert!(stream.shutdown().is_ok());
    assert!(wire.next().is_none());
    let (output, mut wire) = output(CLIENT);
    let first = UdpDatagram { peer: CLIENT, data: vec![9, 0, 0, 0] };
    let mut server = KcpServerStream::accept(&first, output, found());
    assert!(server.flush().is_ok());
    assert!(server.shutdown().is_ok());
    assert!(wire.next().is_none());
}

#[test]
fn ticks_acknowledge_what_came() {
    let (mut stream, mut up) = client();
    stream.write_at(b"abc", 1000).unwrap();
    stream.tick();
    let datagram = up.next().unwrap();
    let (output, mut down) = output(CLIENT);
    let mut server = KcpServerStream::accept(&datagram, output, found());
    let mut buf = [0u8; 2];
    assert_eq!(server.read(Polled::Datagram(datagram.data), &mut buf), ReadStep::Done(2));
    server.tick();
    let answer = down.next().unwrap();
    assert_eq!(answer.data[4], 82);
}
