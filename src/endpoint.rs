//! Endpoint data: addresses of peers and the demultiplexer of received datagrams.
use vstd::prelude::*;

pub mod demux;

verus! {

/// Address of a peer: an IP address and a port.
#[derive(Clone, Copy, Debug, PartialEq, Eq, Hash)]
pub enum Address {
    /// An IPv4 address and port.
    V4([u8; 4], u16),
    /// An IPv6 address and port.
    V6([u8; 16], u16),
}

} // verus!
