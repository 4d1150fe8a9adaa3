//! A KCP tunnel: reliable, message-preserving streams over UDP datagrams.
//!
//! The library holds everything that can be decided in memory. A `Kcp` turns datagrams
//! into received bytes and written bytes into datagrams, a `KcpIo` puts a read buffer in front of
//! it, the two stream types say what a read or a write does next, and the listener keeps the
//! table that sends each datagram to the connection of its peer. Sockets, timers and
//! tasks live in the program around the library, which hands it plain values.
pub mod clock;
pub mod console;
pub mod datagram;
pub mod delay;
pub mod engine;
pub mod error;
pub mod io;
pub mod laws;
pub mod listener;
pub mod output;
pub mod protocol;
pub mod server_laws;
pub mod stream;
pub mod time_laws;
pub mod transfer_laws;

pub use datagram::{PeerAddr, UdpDatagram};
pub use engine::{GoesRound, Kcp};
pub use error::KcpError;
pub use io::KcpIo;
pub use listener::{Incoming, KcpListener};
pub use output::KcpOutput;
pub use stream::{KcpServerStream, KcpStream, KcpStreamWrapper};
