//! Datagrams and the addresses they come from and go to.
use bytes::{ByteOrder, LittleEndian};
use vstd::prelude::*;

verus! {

/// The bytes that a socket takes of one datagram; what is longer is cut off.
pub const MAX_MESSAGE_LENGTH: usize = 1024;

/// The address of a peer, with its fields as plain integers.
#[derive(Debug, Clone, Copy, PartialEq, Eq, Structural)]
pub enum PeerAddr {
    /// An IPv4 address, its first octet highest, and a port.
    V4(u32, u16),
    /// An IPv6 address, its first octet highest, a port, the flow information and the scope id.
    V6(u128, u16, u32, u32),
}

/// One datagram and its peer: the source of one that was received, the destination of one
/// that is to be sent.
#[derive(Debug, PartialEq, Eq)]
pub struct UdpDatagram {
    pub peer: PeerAddr,
    pub data: Vec<u8>,
}

impl View for UdpDatagram {
    type V = (PeerAddr, Seq<u8>);

    open spec fn view(&self) -> (PeerAddr, Seq<u8>) {
        (self.peer, self.data@)
    }
}

/// The unsigned number in the first four bytes, lowest byte first.
pub open spec fn le_u32(bytes: Seq<u8>) -> int {
    bytes[0] + 0x100 * bytes[1] + 0x1_0000 * bytes[2] + 0x100_0000 * bytes[3]
}

/// Calls `byteorder`'s `LittleEndian::read_u32`, which `bytes` exports.
///
/// Believed: it reads the first four bytes as a number, lowest byte first. It panics on fewer
/// than four bytes, which `requires` leaves out.
#[verifier::external_body]
fn read_u32_le(bytes: &[u8]) -> (r: u32)
    requires
        bytes@.len() >= 4,
    ensures
        r == le_u32(bytes@),
{
    LittleEndian::read_u32(bytes)
}

impl UdpDatagram {
    /// The conversation id that the datagram opens with. It has to hold at least four bytes.
    pub fn conv(&self) -> (conv: u32)
        requires
            self.data@.len() >= 4,
        ensures
            conv == le_u32(self.data@),
    {
        read_u32_le(vstd::slice::slice_subrange(self.data.as_slice(), 0, 4))
    }
}

} // verus!
