//! The connection extractor: from a raw socket snapshot to a normalized
//! 4-tuple, or nothing.
//!
//! The exit probe reads a handful of fields out of the socket the
//! correlation table handed it; any field it cannot read arrives here as
//! `None`.  Extraction fails closed: a non-IPv4 family or an unreadable
//! field yields no connection and no error.  The remote port is observed
//! in wire (big-endian) byte order and is normalized exactly once, here;
//! the locally bound port and the addresses are already plain numbers.

use vstd::prelude::*;

use crate::aggs::Connection;
use crate::aggs::Direction;
use crate::aggs::Message;

verus! {

/// The address-family tag of an IPv4 socket.
pub const AF_INET: u16 = 2;

/// A 16-bit value read in wire byte order, reinterpreted as a number:
/// its two bytes swapped.
pub open spec fn be16_to_host(x: u16) -> u16 {
    ((x % 0x100) * 0x100 + x / 0x100) as u16
}

/// Swap the two bytes of a 16-bit value.
pub fn swap_u16(x: u16) -> (r: u16)
    ensures
        r == be16_to_host(x),
{
    (x % 0x100) * 0x100 + x / 0x100
}

/// Normalizing a wire-order port twice gives the original value back.
pub proof fn lemma_be16_involutes(x: u16)
    ensures
        be16_to_host(be16_to_host(x)) == x,
{
    let y = be16_to_host(x);
    assert(y == (x % 0x100) * 0x100 + x / 0x100);
    assert(y % 0x100 == x / 0x100 && y / 0x100 == x % 0x100) by {
        vstd::arithmetic::div_mod::lemma_fundamental_div_mod_converse(
            y as int,
            0x100,
            x as int % 0x100,
            x as int / 0x100,
        );
    }
    vstd::arithmetic::div_mod::lemma_fundamental_div_mod(x as int, 0x100);
}

/// What the exit probe could read from the socket: the address family
/// and, where readable, the two addresses, the remote port in wire byte
/// order, and the locally bound port.
#[derive(Clone, Copy, Debug, PartialEq, Eq, Structural)]
pub struct SocketSnapshot {
    pub family: u16,
    pub daddr: Option<u32>,
    pub saddr: Option<u32>,
    pub dport_be: Option<u16>,
    pub sport: Option<u16>,
}

/// The connection a snapshot denotes: present exactly when the family is
/// IPv4 and every field was readable, with the remote port normalized
/// from wire byte order.
pub open spec fn extracted(s: SocketSnapshot) -> Option<Connection> {
    if s.family == AF_INET && s.daddr is Some && s.saddr is Some && s.dport_be is Some
        && s.sport is Some {
        Some(
            Connection {
                sport: s.sport->0,
                dport: be16_to_host(s.dport_be->0),
                saddr: s.saddr->0,
                daddr: s.daddr->0,
            },
        )
    } else {
        None
    }
}

/// Turn a socket snapshot into a normalized connection, or nothing.
pub fn extract_connection(s: &SocketSnapshot) -> (r: Option<Connection>)
    ensures
        r == extracted(*s),
{
    if s.family != AF_INET {
        return None;
    }
    let daddr = match s.daddr {
        Some(v) => v,
        None => {
            return None;
        },
    };
    let saddr = match s.saddr {
        Some(v) => v,
        None => {
            return None;
        },
    };
    let dport_be = match s.dport_be {
        Some(v) => v,
        None => {
            return None;
        },
    };
    let sport = match s.sport {
        Some(v) => v,
        None => {
            return None;
        },
    };
    Some(Connection { sport, dport: swap_u16(dport_be), saddr, daddr })
}

/// The traffic event an exit probe reports, if the snapshot yields a
/// connection: the direction is decided at the probe site and passed as
/// a plain discriminant, and the call's observed length rides along.
pub fn exit_event(direction: Direction, s: &SocketSnapshot, bits: u16) -> (r: Option<Message>)
    ensures
        extracted(*s) is None ==> r is None,
        extracted(*s) matches Some(c) ==> r == Some(
            match direction {
                Direction::Upload => Message::Send(c, bits),
                Direction::Download => Message::Receive(c, bits),
            },
        ),
{
    match extract_connection(s) {
        None => None,
        Some(c) => match direction {
            Direction::Upload => Some(Message::Send(c, bits)),
            Direction::Download => Some(Message::Receive(c, bits)),
        },
    }
}

} // verus!
