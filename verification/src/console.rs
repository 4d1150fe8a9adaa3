//! What the program makes of its command line and its standard input.
use vstd::prelude::*;

verus! {

/// Which end of the tunnel the program is.
#[derive(Debug, Clone, Copy, PartialEq, Eq, Structural)]
pub enum Role {
    Server,
    Client,
}

/// The role that a command line asks for, given its first argument.
pub open spec fn role_of(arg: Option<Seq<char>>) -> Role {
    match arg {
        Some(word) => if word == "server"@ {
            Role::Server
        } else {
            Role::Client
        },
        None => Role::Client,
    }
}

/// What a read of the standard input brought that filled `n` bytes of a buffer.
pub open spec fn chunk_of(buf: Seq<u8>, n: Option<usize>) -> Option<Seq<u8>> {
    match n {
        None => None,
        Some(n) => if n == 0 {
            None
        } else if n <= buf.len() {
            Some(buf.take(n as int))
        } else {
            Some(buf)
        },
    }
}

/// The role that the first argument asks for: the server where it is `server`, else the client.
pub fn role(arg: Option<String>) -> (role: Role)
    ensures
        role == (if arg matches Some(word) && word@ == "server"@ {
            Role::Server
        } else {
            Role::Client
        }),
        role == role_of(match arg {
            Some(word) => Some(word@),
            None => None,
        }),
{
    match arg {
        Some(word) => if word == "server".to_string() {
            Role::Server
        } else {
            Role::Client
        },
        None => Role::Client,
    }
}

/// The bytes that one read of the standard input brought: the first `n` of `buf`. There are none,
/// and the input is over, where the read failed or brought no byte.
pub fn stdin_chunk(buf: Vec<u8>, n: Option<usize>) -> (chunk: Option<Vec<u8>>)
    ensures
        chunk is None <==> n is None || n == Some(0usize),
        chunk matches Some(bytes) ==> bytes@ == (if n.unwrap() <= buf@.len() {
            buf@.take(n.unwrap() as int)
        } else {
            buf@
        }),
        chunk_of(buf@, n) == (match chunk {
            Some(bytes) => Some(bytes@),
            None => None,
        }),
{
    match n {
        None => None,
        Some(n) => {
            if n == 0 {
                None
            } else {
                let mut bytes = buf;
                bytes.truncate(n);
                Some(bytes)
            }
        },
    }
}

} // verus!
