use futures::sync::mpsc::unbounded;
use futures::Stream;
use kcptun::{KcpOutput, PeerAddr, UdpDatagram};
use std::io::Write;

const PEER: PeerAddr = PeerAddr::V4(0x7f00_0001, 12345);

#[test]
fn the_conversation_id_comes_first_lowest_byte_first() {
    let datagram = UdpDatagram { peer: PEER, data: vec![0x78, 0x56, 0x34, 0x12, 0xff] };
    assert_eq!(datagram.conv(), 0x1234_5678);
    let datagram = UdpDatagram { peer: PEER, data: vec![1, 0, 0, 0] };
    assert_eq!(datagram.conv(), 1);
    let datagram = UdpDatagram { peer: PEER, data: vec![0xff; 4] };
    assert_eq!(datagram.conv(), u32::MAX);
}

#[test]
fn each_write_is_one_datagram_to_the_peer() {
    let (udp, datagrams) = unbounded();
    let mut output = KcpOutput::new(udp, PEER);
    assert_eq!(output.write(&[1, 2, 3]).unwrap(), 3);
    assert_eq!(output.write(&[]).unwrap(), 0);
    output.write_all(&[4]).unwrap();
    output.flush().unwrap();
    drop(output);
    let sent: Vec<UdpDatagram> = datagrams.wait().map(|d| d.unwrap()).collect();
    assert_eq!(
        sent,
        vec![
            UdpDatagram { peer: PEER, data: vec![1, 2, 3] },
            UdpDatagram { peer: PEER, data: vec![] },
            UdpDatagram { peer: PEER, data: vec![4] },
        ]
    );
}

#[test]
fn writers_beside_each_other_share_a_channel() {
    let (udp, datagrams) = unbounded();
    let other = PeerAddr::V6(1, 53, 0, 0);
    let mut first = KcpOutput::beside(&udp, PEER);
    let mut second = KcpOutput::beside(&udp, other);
    first.write_all(&[1]).unwrap();
    second.write_all(&[2]).unwrap();
    drop(first);
    drop(second);
    drop(udp);
    let sent: Vec<UdpDatagram> = datagrams.wait().map(|d| d.unwrap()).collect();
    assert_eq!(
        sent,
        vec![
            UdpDatagram { peer: PEER, data: vec![1] },
            UdpDatagram { peer: other, data: vec![2] },
        ]
    );
}

#[test]
fn a_write_succeeds_though_nobody_takes_the_datagram() {
    let (udp, datagrams) = unbounded();
    drop(datagrams);
    let mut output = KcpOutput::new(udp, PEER);
    assert_eq!(output.write(&[1, 2]).unwrap(), 2);
}
