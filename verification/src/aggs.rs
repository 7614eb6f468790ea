//! The record types shared between the probe side and the drain side.

use vstd::prelude::*;

verus! {

/// Running aggregate for one port: how many events were attributed to it.
#[derive(Clone, Copy, Debug, PartialEq, Eq, Structural)]
pub struct PortAggs {
    pub count: u32,
}

/// Running aggregate for one address: how many events were attributed to
/// it and the cumulative traffic volume, in bits.
#[derive(Clone, Copy, Debug, PartialEq, Eq, Structural)]
pub struct IPAggs {
    pub count: u32,
    pub usage: u32,
}

/// A normalized connection 4-tuple.  Ports and addresses are stored as
/// plain, numerically comparable integers; byte-order conversion happens
/// once, at extraction time.
#[derive(Clone, Copy, Debug, PartialEq, Eq, Structural)]
pub struct Connection {
    pub sport: u16,
    pub dport: u16,
    pub saddr: u32,
    pub daddr: u32,
}

/// One completed send or receive call, with the observed length in bits.
#[derive(Clone, Copy, Debug, PartialEq, Eq, Structural)]
pub enum Message {
    Receive(Connection, u16),
    Send(Connection, u16),
}

/// Traffic direction from the perspective of the traced host.
#[derive(Clone, Copy, Debug, PartialEq, Eq, Structural)]
pub enum Direction {
    Upload,
    Download,
}

/// The direction a message's traffic is credited to: sends count as
/// upload, receives as download.
pub open spec fn direction_of(m: Message) -> Direction {
    match m {
        Message::Send(_, _) => Direction::Upload,
        Message::Receive(_, _) => Direction::Download,
    }
}

impl Message {
    /// The direction this message is credited to.
    pub fn direction(&self) -> (r: Direction)
        ensures
            r == direction_of(*self),
    {
        match self {
            Message::Send(_, _) => Direction::Upload,
            Message::Receive(_, _) => Direction::Download,
        }
    }
}

} // verus!
