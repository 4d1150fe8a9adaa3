use futures::sync::mpsc::{unbounded, UnboundedReceiver};
use futures::Stream;
use kcptun::listener::{Action, Event};
use kcptun::stream::{Polled, ReadStep};
use kcptun::{GoesRound, Incoming, KcpListener, PeerAddr, UdpDatagram};
use std::io::ErrorKind;

const ALICE: PeerAddr = PeerAddr::V4(0x0a00_0001, 1);
const BOB: PeerAddr = PeerAddr::V6(0x0a00_0001, 1, 0, 0);

fn server() -> (Incoming<u64>, UnboundedReceiver<UdpDatagram>) {
    let (udp, datagrams) = unbounded();
    let listener = KcpListener::bind(udp, GoesRound::found(false).unwrap());
    assert!(!listener.contains_key(ALICE));
    (listener.incoming(), datagrams)
}

fn from(peer: PeerAddr, data: &[u8]) -> Event<u64> {
    Event::Datagram(UdpDatagram { peer, data: data.to_vec() })
}

fn open(incoming: &mut Incoming<u64>, peer: PeerAddr, channel: u64) {
    assert!(matches!(incoming.poll(from(peer, &[1, 0, 0, 0])), Action::Open(_)));
    assert!(matches!(incoming.poll(Event::Sent(channel)), Action::Accept(_)));
}

#[test]
fn without_datagrams_nothing_happens() {
    let (mut incoming, _datagrams) = server();
    assert!(matches!(incoming.poll(Event::NotReady), Action::NotReady));
    match incoming.poll(Event::Failed(std::io::Error::from(ErrorKind::BrokenPipe))) {
        Action::Fail(e) => assert_eq!(e.kind(), ErrorKind::BrokenPipe),
        _ => panic!("a failure was not passed on"),
    }
    assert!(!incoming.is_pending());
}

#[test]
fn a_stranger_opens_a_connection() {
    let (mut incoming, datagrams) = server();
    match incoming.poll(from(ALICE, &[7, 1, 0, 0, 9])) {
        Action::Open(datagram) => {
            assert_eq!(datagram, UdpDatagram { peer: ALICE, data: vec![7, 1, 0, 0, 9] });
        }
        _ => panic!("a stranger was not let in"),
    }
    assert!(incoming.is_pending());
    assert!(!incoming.contains_key(ALICE));
    let mut stream = match incoming.poll(Event::Sent(5)) {
        Action::Accept(stream) => stream,
        _ => panic!("no connection was handed out"),
    };
    assert!(!incoming.is_pending());
    assert!(incoming.contains_key(ALICE));
    assert_eq!(stream.write_at(b"hi", 1000).unwrap(), 2);
    drop(stream);
    drop(incoming);
    let sent: Vec<UdpDatagram> = datagrams.wait().map(|d| d.unwrap()).collect();
    assert_eq!(sent.len(), 1);
    assert_eq!(sent[0].peer, ALICE);
    assert_eq!(&sent[0].data[..4], &[7, 1, 0, 0]);
}

#[test]
fn datagrams_of_a_known_peer_go_to_its_channel() {
    let (mut incoming, _datagrams) = server();
    open(&mut incoming, ALICE, 5);
    open(&mut incoming, BOB, 6);
    for _ in 0..3 {
        match incoming.poll(from(ALICE, &[1])) {
            Action::Send(channel, datagram) => {
                assert_eq!(channel, 5);
                assert_eq!(datagram, UdpDatagram { peer: ALICE, data: vec![1] });
            }
            _ => panic!("a known peer was not recognised"),
        }
        assert!(!incoming.contains_key(ALICE));
        assert!(matches!(incoming.poll(Event::Sent(5)), Action::Poll));
    }
    assert!(matches!(incoming.poll(from(BOB, &[])), Action::Send(6, _)));
    assert!(matches!(incoming.poll(Event::Sent(6)), Action::Poll));
}

#[test]
fn a_lost_connection_is_forgotten() {
    let (mut incoming, _datagrams) = server();
    open(&mut incoming, ALICE, 5);
    open(&mut incoming, BOB, 6);
    assert!(matches!(incoming.poll(from(ALICE, &[1, 0, 0, 0])), Action::Send(5, _)));
    assert!(matches!(incoming.poll(Event::NotSent), Action::Poll));
    assert!(!incoming.contains_key(ALICE));
    assert!(incoming.contains_key(BOB));
    open(&mut incoming, ALICE, 7);
    assert!(matches!(incoming.poll(from(ALICE, &[])), Action::Send(7, _)));
}

#[test]
fn a_failed_opening_leaves_no_trace() {
    let (mut incoming, _datagrams) = server();
    assert!(matches!(incoming.poll(from(ALICE, &[1, 0, 0, 0])), Action::Open(_)));
    assert!(matches!(incoming.poll(Event::NotSent), Action::NotReady));
    assert!(!incoming.contains_key(ALICE));
    assert!(!incoming.is_pending());
}

#[test]
fn a_connection_reads_the_datagram_that_opened_it() {
    let (mut incoming, _datagrams) = server();
    let mut data = vec![3, 0, 0, 0, 81, 0, 128, 0, 0, 0, 0, 0, 0, 0, 0, 0, 0, 0, 0, 0, 2, 0, 0, 0];
    data.extend_from_slice(b"ok");
    let datagram = match incoming.poll(from(BOB, &data)) {
        Action::Open(datagram) => datagram,
        _ => panic!("a stranger was not let in"),
    };
    let mut stream = match incoming.poll(Event::Sent(1)) {
        Action::Accept(stream) => stream,
        _ => panic!("no connection was handed out"),
    };
    let mut buf = [0u8; 8];
    assert_eq!(stream.read(Polled::Datagram(datagram.data), &mut buf), ReadStep::Done(2));
    assert_eq!(&buf[..2], b"ok");
}

#[test]
fn a_run_of_datagrams_ends_with_the_first_stranger() {
    let (mut incoming, _datagrams) = server();
    open(&mut incoming, ALICE, 5);
    let mut alice: Vec<u8> = Vec::new();
    for i in 0..10u8 {
        match incoming.poll(from(ALICE, &[i])) {
            Action::Send(5, datagram) => alice.extend_from_slice(&datagram.data),
            _ => panic!("a known peer was not recognised"),
        }
        assert!(matches!(incoming.poll(Event::Sent(5)), Action::Poll));
    }
    assert_eq!(alice, (0..10).collect::<Vec<u8>>());
    assert!(matches!(incoming.poll(from(BOB, &[1, 0, 0, 0])), Action::Open(_)));
    assert!(matches!(incoming.poll(Event::Sent(6)), Action::Accept(_)));
    assert!(incoming.contains_key(ALICE) && incoming.contains_key(BOB));
}

#[test]
fn each_channel_gets_the_datagrams_of_its_peer_in_order() {
    let (mut incoming, _datagrams) = server();
    open(&mut incoming, ALICE, 5);
    open(&mut incoming, BOB, 6);
    let mut queues: Vec<Vec<u8>> = vec![Vec::new(), Vec::new()];
    for i in 0..20u8 {
        let peer = if i % 3 == 0 { ALICE } else { BOB };
        match incoming.poll(from(peer, &[i])) {
            Action::Send(channel, datagram) => {
                queues[channel as usize - 5].extend_from_slice(&datagram.data);
                assert!(matches!(incoming.poll(Event::Sent(channel)), Action::Poll));
            }
            _ => panic!("a known peer was not recognised"),
        }
    }
    assert!(matches!(incoming.poll(Event::NotReady), Action::NotReady));
    assert_eq!(queues[0], (0..20).filter(|i| i % 3 == 0).collect::<Vec<u8>>());
    assert_eq!(queues[1], (0..20).filter(|i| i % 3 != 0).collect::<Vec<u8>>());
}
