//! Helper structs and functions to interpret and modify packet data.
//!
//! A packet is an indexable datagram sent over the network. Packets consist of a fixed 24-byte
//! little-endian header with technical information and a payload with user data. The payload
//! holds parcel bytes immediately followed by stream bytes.
use vstd::prelude::*;
use vstd::bytes::{
    spec_u16_from_le_bytes, spec_u16_to_le_bytes, spec_u32_from_le_bytes, spec_u32_to_le_bytes,
    spec_u64_from_le_bytes, spec_u64_to_le_bytes, u16_from_le_bytes, u16_to_le_bytes,
    u32_from_le_bytes, u32_to_le_bytes, u64_from_le_bytes, u64_to_le_bytes,
    lemma_auto_spec_u16_to_from_le_bytes, lemma_auto_spec_u32_to_from_le_bytes,
    lemma_auto_spec_u64_to_from_le_bytes,
};
use vstd::slice::slice_subrange;

use crate::connection::ack::AckMask;
use crate::connection::parcel::ParcelIndex;
use crate::connection::parcel::index::index_dist;
use crate::id::ConnectionId;

verus! {

broadcast use vstd::array::group_array_axioms;

/// Networked data is preluded with this fixed-size user-data.
pub type DataPrelude = [u8; 4];

/// Number of bytes of a packet header on the wire.
pub const HEADER_SIZE: usize = 24;

/// Largest datagram the transport is expected to carry (a conservative MTU).
pub const MAX_FRAME_LENGTH: usize = 1200;

/// Number of payload bytes of a packet built by a connection.
pub const PAYLOAD_SIZE: usize = 1024;

/// Number of bytes of a packet built by a connection.
pub const PACKET_SIZE: usize = 1048;

/// Largest byte count a signal can record for the parcel or the stream segment.
pub const MAX_SEGMENT_BYTE_COUNT: u16 = 0x7FF;

const CONNECTION_REQUEST_BIT: u32 = 0x0040_0000;

const CONNECTION_CLOSED_BIT: u32 = 0x0080_0000;

const SYNCHRONIZED_BIT: u32 = 0x0100_0000;

const BYTE_COUNT_BITS: u32 = 0x7FF;

const FULL_BYTE_COUNT_BITS: u32 = 0x003F_FFFF;

const CRITICAL_BITS: u32 = 0xFFC0_0000;

/// An identifying index of the packet, used to order packets.
#[derive(Debug, Default, Clone, Copy, PartialEq, Eq, Structural)]
pub struct PacketIndex(pub u8);

/// Possible signals sent in the packet protocol.
#[derive(Debug, Clone, Copy, PartialEq, Eq, Structural)]
pub enum Signal {
    /// The packet is a request for a new connection.
    ConnectionRequest,
    /// The connection is about to be closed (or the request was rejected).
    ConnectionClosed,
    /// This packet's id field is valid and should be acknowledged.
    Synchronized,
}

/// Compacted bitpatterns for signalling protocol-level information.
///
/// | bit(s) | 31-25      | 24           | 23                | 22                 | 21-11           | 10-0         |
/// |--------|------------|--------------|-------------------|--------------------|-----------------|--------------|
/// | value  | `[zeroes]` | synchronized | connection_closed | connection_request | parcel(s) bytes | stream bytes |
#[derive(Debug, Default, Clone, Copy, PartialEq, Eq, Structural)]
pub struct SignalBits(pub u32);

/// The bit that records a signal.
pub open spec fn signal_bit(signal: Signal) -> u32 {
    match signal {
        Signal::ConnectionRequest => 0x0040_0000u32,
        Signal::ConnectionClosed => 0x0080_0000u32,
        Signal::Synchronized => 0x0100_0000u32,
    }
}

impl SignalBits {
    /// The byte count of the stream segment.
    pub open spec fn stream_count(self) -> u32 {
        self.0 & 0x7FFu32
    }

    /// The byte count of the parcel segment.
    pub open spec fn parcel_count(self) -> u32 {
        (self.0 >> 11u32) & 0x7FFu32
    }

    /// Whether the flag of `signal` is set.
    pub open spec fn flag(self, signal: Signal) -> bool {
        self.0 & signal_bit(signal) != 0
    }

    /// Whether the bits that must be zero are zero.
    pub open spec fn reserved_clear(self) -> bool {
        self.0 >> 25u32 == 0
    }

    /// Whether this bitpattern is the one with the given flags and byte counts.
    pub open spec fn has_parts(self, request: bool, closed: bool, sync: bool, parcel: u32, stream: u32) -> bool {
        &&& self.flag(Signal::ConnectionRequest) == request
        &&& self.flag(Signal::ConnectionClosed) == closed
        &&& self.flag(Signal::Synchronized) == sync
        &&& self.parcel_count() == parcel
        &&& self.stream_count() == stream
        &&& self.reserved_clear()
    }

    /// Validity of a bitpattern on its own: reserved bits clear and at most one flag set.
    pub open spec fn spec_is_valid(self) -> bool {
        &&& self.reserved_clear()
        &&& !(self.flag(Signal::ConnectionRequest) && self.flag(Signal::ConnectionClosed))
        &&& !(self.flag(Signal::ConnectionRequest) && self.flag(Signal::Synchronized))
        &&& !(self.flag(Signal::ConnectionClosed) && self.flag(Signal::Synchronized))
    }

    /// Validity of the bitpattern of a connectionless packet: reserved bits clear, exactly one of
    /// the request and closed flags, not synchronized, and no parcel bytes.
    pub open spec fn spec_is_valid_connectionless(self) -> bool {
        &&& self.reserved_clear()
        &&& self.flag(Signal::ConnectionRequest) != self.flag(Signal::ConnectionClosed)
        &&& !self.flag(Signal::Synchronized)
        &&& self.parcel_count() == 0
    }

    /// Sets the signal flags associated with given signal.
    #[inline]
    pub fn set_signal(&mut self, signal: Signal)
        ensures
            final(self).0 == old(self).0 | signal_bit(signal),
            final(self).flag(signal),
            forall|s: Signal| s != signal ==> final(self).flag(s) == old(self).flag(s),
            final(self).parcel_count() == old(self).parcel_count(),
            final(self).stream_count() == old(self).stream_count(),
            final(self).reserved_clear() == old(self).reserved_clear(),
    {
        let bit = match signal {
            Signal::ConnectionRequest => CONNECTION_REQUEST_BIT,
            Signal::ConnectionClosed => CONNECTION_CLOSED_BIT,
            Signal::Synchronized => SYNCHRONIZED_BIT,
        };
        self.0 = self.0 | bit;
        proof {
            lemma_signal_parts(old(self).0);
            lemma_signal_parts(self.0);
            lemma_or_flag(old(self).0, bit);
        }
    }

    /// Clears the signal flags associated with given signal.
    #[inline]
    pub fn clear_signal(&mut self, signal: Signal)
        ensures
            final(self).0 == old(self).0 & !signal_bit(signal),
            !final(self).flag(signal),
            forall|s: Signal| s != signal ==> final(self).flag(s) == old(self).flag(s),
            final(self).parcel_count() == old(self).parcel_count(),
            final(self).stream_count() == old(self).stream_count(),
            final(self).reserved_clear() == old(self).reserved_clear(),
    {
        let bit = match signal {
            Signal::ConnectionRequest => CONNECTION_REQUEST_BIT,
            Signal::ConnectionClosed => CONNECTION_CLOSED_BIT,
            Signal::Synchronized => SYNCHRONIZED_BIT,
        };
        self.0 = self.0 & !bit;
        proof {
            lemma_signal_parts(old(self).0);
            lemma_signal_parts(self.0);
            lemma_and_not_flag(old(self).0, bit);
        }
    }

    /// Checks if the signal flags associated with given signal have been set.
    #[inline]
    pub fn is_signal_set(&self, signal: Signal) -> (r: bool)
        ensures
            r == self.flag(signal),
    {
        let bit = match signal {
            Signal::ConnectionRequest => CONNECTION_REQUEST_BIT,
            Signal::ConnectionClosed => CONNECTION_CLOSED_BIT,
            Signal::Synchronized => SYNCHRONIZED_BIT,
        };
        self.0 & bit != 0
    }

    /// Set the byte-count of the parcel portion of the packet to given value.
    #[inline]
    pub fn set_parcel_byte_count(&mut self, count: u16)
        requires
            count <= MAX_SEGMENT_BYTE_COUNT,
        ensures
            final(self).parcel_count() == count as u32,
            final(self).0 & 0x7FFu32 == old(self).0 & 0x7FFu32,
            final(self).0 >> 22u32 == old(self).0 >> 22u32,
            final(self).stream_count() == old(self).stream_count(),
            forall|s: Signal| final(self).flag(s) == old(self).flag(s),
            final(self).reserved_clear() == old(self).reserved_clear(),
    {
        let c = count as u32;
        self.0 = (self.0 & !(BYTE_COUNT_BITS << 11u32)) | (c << 11u32);
        proof {
            lemma_signal_parts(old(self).0);
            lemma_signal_parts(self.0);
            lemma_replace_parcel_count(old(self).0, c);
            lemma_other_bits_kept(old(self).0, c);
        }
    }

    /// Get the byte-count of the parcel potion of the packet
    #[inline]
    pub fn get_parcel_byte_count(&self) -> (r: u16)
        ensures
            r as u32 == self.parcel_count(),
    {
        proof {
            lemma_signal_parts(self.0);
        }
        ((self.0 >> 11u32) & BYTE_COUNT_BITS) as u16
    }

    /// Set the byte-count of the stream portion of the packet to given value.
    #[inline]
    pub fn set_stream_byte_count(&mut self, count: u16)
        requires
            count <= MAX_SEGMENT_BYTE_COUNT,
        ensures
            final(self).stream_count() == count as u32,
            final(self).0 >> 11u32 == old(self).0 >> 11u32,
            final(self).parcel_count() == old(self).parcel_count(),
            forall|s: Signal| final(self).flag(s) == old(self).flag(s),
            final(self).reserved_clear() == old(self).reserved_clear(),
    {
        let c = count as u32;
        self.0 = (self.0 & !BYTE_COUNT_BITS) | c;
        proof {
            lemma_signal_parts(old(self).0);
            lemma_signal_parts(self.0);
            lemma_replace_stream_count(old(self).0, c);
            lemma_other_bits_kept(old(self).0, c);
        }
    }

    /// Get the byte-count of the stream potion of the packet
    #[inline]
    pub fn get_stream_byte_count(&self) -> (r: u16)
        ensures
            r as u32 == self.stream_count(),
    {
        proof {
            lemma_signal_parts(self.0);
        }
        (self.0 & BYTE_COUNT_BITS) as u16
    }

    /// Check whether the byte_count is 0 for both the stream and parcel segments.
    #[inline]
    pub fn is_empty(&self) -> (r: bool)
        ensures
            r == (self.parcel_count() == 0 && self.stream_count() == 0),
    {
        proof {
            lemma_counts_empty(self.0);
        }
        (self.0 & FULL_BYTE_COUNT_BITS) == 0
    }

    /// Create a *KeepAlive* protocol bitpattern.
    ///
    /// KeepAlive packets contain no payload, they simply signal update the connection timing.
    #[inline]
    pub fn keep_alive() -> (r: Self)
        ensures
            r.has_parts(false, false, false, 0, 0),
    {
        SignalBits(compose(0, 0, 0, 0, 0))
    }

    /// Create a bitpattern associated with a connection request.
    #[inline]
    pub fn request_connection(payload_byte_count: u16) -> (r: Self)
        requires
            payload_byte_count <= MAX_SEGMENT_BYTE_COUNT,
        ensures
            r.has_parts(true, false, false, 0, payload_byte_count as u32),
    {
        SignalBits(compose(CONNECTION_REQUEST_BIT, 0, 0, 0, payload_byte_count as u32))
    }

    /// Create a bitpattern associated with an volatile (unsynchronized) packet with given parcel length.
    #[inline]
    pub fn volatile(parcel_byte_count: u16) -> (r: Self)
        requires
            parcel_byte_count <= MAX_SEGMENT_BYTE_COUNT,
        ensures
            r.has_parts(false, false, false, parcel_byte_count as u32, 0),
    {
        SignalBits(compose(0, 0, 0, parcel_byte_count as u32, 0))
    }

    /// Create a bitpattern associated with a synchronized packet with given parcel and stream lengths.
    #[inline]
    pub fn synchronized(parcel_byte_count: u16, stream_byte_count: u16) -> (r: Self)
        requires
            parcel_byte_count <= MAX_SEGMENT_BYTE_COUNT,
            stream_byte_count <= MAX_SEGMENT_BYTE_COUNT,
        ensures
            r.has_parts(false, false, true, parcel_byte_count as u32, stream_byte_count as u32),
    {
        SignalBits(
            compose(0, 0, SYNCHRONIZED_BIT, parcel_byte_count as u32, stream_byte_count as u32),
        )
    }

    /// Create a bitpattern associated with a packet that is informing of the connection being rejected.
    #[inline]
    pub fn reject(payload_byte_count: u16) -> (r: Self)
        requires
            payload_byte_count <= MAX_SEGMENT_BYTE_COUNT,
        ensures
            r.has_parts(false, true, false, 0, payload_byte_count as u32),
    {
        SignalBits(compose(0, CONNECTION_CLOSED_BIT, 0, 0, payload_byte_count as u32))
    }

    /// Create a bitpattern that informs the other end that the connection is closed.
    #[inline]
    pub fn closed() -> (r: Self)
        ensures
            r.has_parts(false, true, false, 0, 0),
    {
        SignalBits(compose(0, CONNECTION_CLOSED_BIT, 0, 0, 0))
    }

    /// Check that a given bitpattern is a valid one for a connectionless packet.
    #[inline]
    pub fn is_valid_connectionless(&self) -> (r: bool)
        ensures
            r == self.spec_is_valid_connectionless(),
    {
        proof {
            lemma_signal_parts(self.0);
            lemma_critical(self.0);
        }
        let critical = self.0 & CRITICAL_BITS;
        (critical == CONNECTION_REQUEST_BIT || critical == CONNECTION_CLOSED_BIT)
            && self.get_parcel_byte_count() == 0
    }

    /// Check that a given bitpattern is a valid one in the packet protocol.
    #[inline]
    pub fn is_valid(&self) -> (r: bool)
        ensures
            r == self.spec_is_valid(),
    {
        proof {
            lemma_signal_parts(self.0);
            lemma_critical(self.0);
        }
        let critical = self.0 & CRITICAL_BITS;
        critical == 0 || critical == SYNCHRONIZED_BIT || critical == CONNECTION_CLOSED_BIT
            || critical == CONNECTION_REQUEST_BIT
    }
}

proof fn lemma_signal_parts(b: u32)
    ensures
        b & 0x7FFu32 <= 0x7FF,
        (b >> 11u32) & 0x7FFu32 <= 0x7FF,
{
    assert(b & 0x7FFu32 <= 0x7FF && (b >> 11u32) & 0x7FFu32 <= 0x7FF) by (bit_vector);
}

proof fn lemma_or_flag(b: u32, bit: u32)
    requires
        bit == 0x0040_0000u32 || bit == 0x0080_0000u32 || bit == 0x0100_0000u32,
    ensures
        (b | bit) & bit != 0,
        forall|other: u32|
            (other == 0x0040_0000u32 || other == 0x0080_0000u32 || other == 0x0100_0000u32)
                && other != bit ==> (((b | bit) & other != 0) == (b & other != 0)),
        (b | bit) & 0x7FFu32 == b & 0x7FFu32,
        ((b | bit) >> 11u32) & 0x7FFu32 == (b >> 11u32) & 0x7FFu32,
        ((b | bit) >> 25u32 == 0) == (b >> 25u32 == 0),
{
    assert((b | bit) & bit != 0 && (b | bit) & 0x7FFu32 == b & 0x7FFu32 && ((b | bit) >> 11u32)
        & 0x7FFu32 == (b >> 11u32) & 0x7FFu32 && (((b | bit) >> 25u32 == 0) == (b >> 25u32 == 0))
        && (forall|other: u32|
        (other == 0x0040_0000u32 || other == 0x0080_0000u32 || other == 0x0100_0000u32) && other
            != bit ==> (((b | bit) & other != 0) == (b & other != 0)))) by (bit_vector)
        requires
            bit == 0x0040_0000u32 || bit == 0x0080_0000u32 || bit == 0x0100_0000u32,
    ;
}

proof fn lemma_and_not_flag(b: u32, bit: u32)
    requires
        bit == 0x0040_0000u32 || bit == 0x0080_0000u32 || bit == 0x0100_0000u32,
    ensures
        (b & !bit) & bit == 0,
        forall|other: u32|
            (other == 0x0040_0000u32 || other == 0x0080_0000u32 || other == 0x0100_0000u32)
                && other != bit ==> (((b & !bit) & other != 0) == (b & other != 0)),
        (b & !bit) & 0x7FFu32 == b & 0x7FFu32,
        ((b & !bit) >> 11u32) & 0x7FFu32 == (b >> 11u32) & 0x7FFu32,
        ((b & !bit) >> 25u32 == 0) == (b >> 25u32 == 0),
{
    assert((b & !bit) & bit == 0 && (b & !bit) & 0x7FFu32 == b & 0x7FFu32 && ((b & !bit)
        >> 11u32) & 0x7FFu32 == (b >> 11u32) & 0x7FFu32 && (((b & !bit) >> 25u32 == 0) == (b
        >> 25u32 == 0)) && (forall|other: u32|
        (other == 0x0040_0000u32 || other == 0x0080_0000u32 || other == 0x0100_0000u32) && other
            != bit ==> (((b & !bit) & other != 0) == (b & other != 0)))) by (bit_vector)
        requires
            bit == 0x0040_0000u32 || bit == 0x0080_0000u32 || bit == 0x0100_0000u32,
    ;
}

proof fn lemma_other_bits_kept(b: u32, c: u32)
    requires
        c <= 0x7FF,
    ensures
        ((b & !(0x7FFu32 << 11u32)) | (c << 11u32)) & 0x7FFu32 == b & 0x7FFu32,
        ((b & !(0x7FFu32 << 11u32)) | (c << 11u32)) >> 22u32 == b >> 22u32,
        ((b & !0x7FFu32) | c) >> 11u32 == b >> 11u32,
{
    assert(((b & !(0x7FFu32 << 11u32)) | (c << 11u32)) & 0x7FFu32 == b & 0x7FFu32 && ((b & !(
    0x7FFu32 << 11u32)) | (c << 11u32)) >> 22u32 == b >> 22u32 && ((b & !0x7FFu32) | c) >> 11u32
        == b >> 11u32) by (bit_vector)
        requires
            c <= 0x7FF,
    ;
}

proof fn lemma_replace_parcel_count(b: u32, c: u32)
    requires
        c <= 0x7FF,
    ensures
        (((b & !(0x7FFu32 << 11u32)) | (c << 11u32)) >> 11u32) & 0x7FFu32 == c,
        ((b & !(0x7FFu32 << 11u32)) | (c << 11u32)) & 0x7FFu32 == b & 0x7FFu32,
        ((b & !(0x7FFu32 << 11u32)) | (c << 11u32)) & 0x0040_0000u32 == b & 0x0040_0000u32,
        ((b & !(0x7FFu32 << 11u32)) | (c << 11u32)) & 0x0080_0000u32 == b & 0x0080_0000u32,
        ((b & !(0x7FFu32 << 11u32)) | (c << 11u32)) & 0x0100_0000u32 == b & 0x0100_0000u32,
        ((b & !(0x7FFu32 << 11u32)) | (c << 11u32)) >> 25u32 == b >> 25u32,
{
    assert((((b & !(0x7FFu32 << 11u32)) | (c << 11u32)) >> 11u32) & 0x7FFu32 == c && ((b & !(
    0x7FFu32 << 11u32)) | (c << 11u32)) & 0x7FFu32 == b & 0x7FFu32 && ((b & !(0x7FFu32 << 11u32))
        | (c << 11u32)) & 0x0040_0000u32 == b & 0x0040_0000u32 && ((b & !(0x7FFu32 << 11u32)) | (c
        << 11u32)) & 0x0080_0000u32 == b & 0x0080_0000u32 && ((b & !(0x7FFu32 << 11u32)) | (c
        << 11u32)) & 0x0100_0000u32 == b & 0x0100_0000u32 && ((b & !(0x7FFu32 << 11u32)) | (c
        << 11u32)) >> 25u32 == b >> 25u32) by (bit_vector)
        requires
            c <= 0x7FF,
    ;
}

proof fn lemma_replace_stream_count(b: u32, c: u32)
    requires
        c <= 0x7FF,
    ensures
        ((b & !0x7FFu32) | c) & 0x7FFu32 == c,
        (((b & !0x7FFu32) | c) >> 11u32) & 0x7FFu32 == (b >> 11u32) & 0x7FFu32,
        ((b & !0x7FFu32) | c) & 0x0040_0000u32 == b & 0x0040_0000u32,
        ((b & !0x7FFu32) | c) & 0x0080_0000u32 == b & 0x0080_0000u32,
        ((b & !0x7FFu32) | c) & 0x0100_0000u32 == b & 0x0100_0000u32,
        ((b & !0x7FFu32) | c) >> 25u32 == b >> 25u32,
{
    assert(((b & !0x7FFu32) | c) & 0x7FFu32 == c && (((b & !0x7FFu32) | c) >> 11u32) & 0x7FFu32
        == (b >> 11u32) & 0x7FFu32 && ((b & !0x7FFu32) | c) & 0x0040_0000u32 == b & 0x0040_0000u32
        && ((b & !0x7FFu32) | c) & 0x0080_0000u32 == b & 0x0080_0000u32 && ((b & !0x7FFu32) | c)
        & 0x0100_0000u32 == b & 0x0100_0000u32 && ((b & !0x7FFu32) | c) >> 25u32 == b >> 25u32)
        by (bit_vector)
        requires
            c <= 0x7FF,
    ;
}

proof fn lemma_counts_empty(b: u32)
    ensures
        (b & 0x003F_FFFFu32 == 0) == ((b >> 11u32) & 0x7FFu32 == 0 && b & 0x7FFu32 == 0),
{
    assert((b & 0x003F_FFFFu32 == 0) == ((b >> 11u32) & 0x7FFu32 == 0 && b & 0x7FFu32 == 0))
        by (bit_vector);
}

proof fn lemma_critical(b: u32)
    ensures
        (b & 0xFFC0_0000u32 == 0x0040_0000u32) == (b >> 25u32 == 0 && b & 0x0040_0000u32 != 0 && b
            & 0x0080_0000u32 == 0 && b & 0x0100_0000u32 == 0),
        (b & 0xFFC0_0000u32 == 0x0080_0000u32) == (b >> 25u32 == 0 && b & 0x0040_0000u32 == 0 && b
            & 0x0080_0000u32 != 0 && b & 0x0100_0000u32 == 0),
        (b & 0xFFC0_0000u32 == 0x0100_0000u32) == (b >> 25u32 == 0 && b & 0x0040_0000u32 == 0 && b
            & 0x0080_0000u32 == 0 && b & 0x0100_0000u32 != 0),
        (b & 0xFFC0_0000u32 == 0) == (b >> 25u32 == 0 && b & 0x0040_0000u32 == 0 && b
            & 0x0080_0000u32 == 0 && b & 0x0100_0000u32 == 0),
{
    assert(((b & 0xFFC0_0000u32 == 0x0040_0000u32) == (b >> 25u32 == 0 && b & 0x0040_0000u32 != 0
        && b & 0x0080_0000u32 == 0 && b & 0x0100_0000u32 == 0)) && ((b & 0xFFC0_0000u32
        == 0x0080_0000u32) == (b >> 25u32 == 0 && b & 0x0040_0000u32 == 0 && b & 0x0080_0000u32
        != 0 && b & 0x0100_0000u32 == 0)) && ((b & 0xFFC0_0000u32 == 0x0100_0000u32) == (b >> 25u32
        == 0 && b & 0x0040_0000u32 == 0 && b & 0x0080_0000u32 == 0 && b & 0x0100_0000u32 != 0))
        && ((b & 0xFFC0_0000u32 == 0) == (b >> 25u32 == 0 && b & 0x0040_0000u32 == 0 && b
        & 0x0080_0000u32 == 0 && b & 0x0100_0000u32 == 0))) by (bit_vector);
}

impl PacketIndex {
    /// Get the next index.
    #[inline]
    pub fn next(self) -> (r: Self)
        ensures
            r.0 == crate::connection::parcel::index::index_plus(self.0, 1),
    {
        PacketIndex(self.0.wrapping_add(1))
    }

    /// Get the number of indices between to and from (to - from).
    #[inline]
    pub fn distance(to: Self, from: Self) -> (r: u8)
        ensures
            r == index_dist(to.0, from.0),
    {
        to.0.wrapping_sub(from.0)
    }
}

impl From<u8> for PacketIndex {
    #[inline]
    fn from(item: u8) -> (r: Self)
        ensures
            r.0 == item,
    {
        PacketIndex(item)
    }
}

impl vstd::std_specs::convert::FromSpecImpl<u8> for PacketIndex {
    open spec fn obeys_from_spec() -> bool {
        true
    }

    open spec fn from_spec(v: u8) -> Self {
        PacketIndex(v)
    }
}

/// The modular order of packet indices: `a < b` iff `b - a` (mod 256) lies in `1..=127`.
///
/// Two indices 128 apart are not comparable.
pub open spec fn index_order(a: u8, b: u8) -> Option<core::cmp::Ordering> {
    if a == b {
        Some(core::cmp::Ordering::Equal)
    } else if 1 <= index_dist(b, a) <= 127 {
        Some(core::cmp::Ordering::Less)
    } else if 1 <= index_dist(a, b) <= 127 {
        Some(core::cmp::Ordering::Greater)
    } else {
        None
    }
}

impl PartialOrd for PacketIndex {
    #[inline]
    fn partial_cmp(&self, other: &Self) -> (r: Option<core::cmp::Ordering>)
        ensures
            r == index_order(self.0, other.0),
    {
        let up = PacketIndex::distance(*other, *self);
        let down = PacketIndex::distance(*self, *other);
        if up == 0 {
            Some(core::cmp::Ordering::Equal)
        } else if up <= 127 {
            Some(core::cmp::Ordering::Less)
        } else if down <= 127 {
            Some(core::cmp::Ordering::Greater)
        } else {
            None
        }
    }
}

impl vstd::std_specs::cmp::PartialOrdSpecImpl for PacketIndex {
    open spec fn obeys_partial_cmp_spec() -> bool {
        true
    }

    open spec fn partial_cmp_spec(&self, other: &Self) -> Option<core::cmp::Ordering> {
        index_order(self.0, other.0)
    }
}

/// Header associated with each sent network packet.
#[derive(Debug, Clone, Copy, Eq)]
pub struct PacketHeader {
    /// Id of the owning connection.
    pub connection_id: ConnectionId,
    /// Sequential index of the packet.
    pub packet_id: PacketIndex,
    /// Id of the latest acknowledged packet by the other end.
    pub ack_packet_id: PacketIndex,
    /// Bitmask of 64 acks for preceding packets (64 packets before `ack_packet_id`).
    pub ack_packet_mask: u64,
    /// Control signals for the connection.
    pub signal: SignalBits,
    /// User-provided prelude.
    pub prelude: DataPrelude,
}

impl PartialEq for PacketHeader {
    fn eq(&self, other: &Self) -> (r: bool)
        ensures
            r == (*self == *other),
    {
        let r = self.connection_id == other.connection_id && self.packet_id.0 == other.packet_id.0
            && self.ack_packet_id.0 == other.ack_packet_id.0 && self.ack_packet_mask
            == other.ack_packet_mask && self.signal.0 == other.signal.0 && self.prelude[0]
            == other.prelude[0] && self.prelude[1] == other.prelude[1] && self.prelude[2]
            == other.prelude[2] && self.prelude[3] == other.prelude[3];
        proof {
            if r {
                assert(self.prelude =~= other.prelude);
                assert(self.packet_id == other.packet_id);
                assert(self.ack_packet_id == other.ack_packet_id);
                assert(self.signal == other.signal);
            }
            if *self == *other {
                assert(self.prelude@ == other.prelude@);
            }
        }
        r
    }
}

impl vstd::std_specs::cmp::PartialEqSpecImpl for PacketHeader {
    open spec fn obeys_eq_spec() -> bool {
        true
    }

    open spec fn eq_spec(&self, other: &Self) -> bool {
        *self == *other
    }
}

/// Error reading a packet header.
#[derive(Debug, Clone, Copy, PartialEq, Eq, Structural)]
pub enum HeaderError {
    /// Bits that must be zero (signal bits 25-31 or the 4 padding bytes) are not.
    ReservedBitsNonZero,
    /// The signal flags do not form a valid combination for the kind of packet.
    InvalidSignalCombination,
    /// The packet is shorter than the header and the payload that the header declares.
    PayloadLengthMismatch,
}

/// The 24 bytes of a header on the wire.
pub open spec fn header_bytes(h: PacketHeader) -> Seq<u8> {
    spec_u16_to_le_bytes(h.connection_id) + seq![h.packet_id.0, h.ack_packet_id.0]
        + spec_u64_to_le_bytes(h.ack_packet_mask) + spec_u32_to_le_bytes(h.signal.0) + h.prelude@
        + seq![0u8, 0u8, 0u8, 0u8]
}

/// The header that the first 24 bytes of `s` describe.
pub open spec fn parse_header(s: Seq<u8>) -> PacketHeader {
    PacketHeader {
        connection_id: spec_u16_from_le_bytes(s.subrange(0, 2)),
        packet_id: PacketIndex(s[2]),
        ack_packet_id: PacketIndex(s[3]),
        ack_packet_mask: spec_u64_from_le_bytes(s.subrange(4, 12)),
        signal: SignalBits(spec_u32_from_le_bytes(s.subrange(12, 16))),
        prelude: [s[16], s[17], s[18], s[19]],
    }
}

/// What reading a header from the packet `s` gives.
pub open spec fn spec_read_header(s: Seq<u8>) -> Result<PacketHeader, HeaderError> {
    if s.len() < 24 {
        Err(HeaderError::PayloadLengthMismatch)
    } else {
        let h = parse_header(s);
        if !h.signal.reserved_clear() || s[20] != 0 || s[21] != 0 || s[22] != 0 || s[23] != 0 {
            Err(HeaderError::ReservedBitsNonZero)
        } else if !h.spec_valid() {
            Err(HeaderError::InvalidSignalCombination)
        } else if h.payload_count() > s.len() - 24 {
            Err(HeaderError::PayloadLengthMismatch)
        } else {
            Ok(h)
        }
    }
}

impl PacketHeader {
    /// Whether the signal is valid for the kind of packet: a connectionless packet (id 0) must
    /// request a connection or reject one; a connected packet may be synchronized or closing,
    /// not both, and never requests a connection.
    pub open spec fn spec_valid(self) -> bool {
        if self.connection_id == 0 {
            self.signal.spec_is_valid_connectionless()
        } else {
            self.signal.spec_is_valid()
        }
    }

    /// Number of payload bytes the header accounts for.
    pub open spec fn payload_count(self) -> int {
        self.signal.parcel_count() + self.signal.stream_count()
    }

    /// The acknowledgement window that the header carries.
    pub open spec fn ack_view(self) -> AckMask {
        AckMask { last_index: ParcelIndex(self.ack_packet_id.0), mask: self.ack_packet_mask }
    }

    /// Whether the header acknowledges the packet index `idx`.
    pub open spec fn spec_acknowledges(self, idx: u8) -> bool {
        !self.signal.flag(Signal::ConnectionRequest) && self.ack_view().acks(idx)
    }

    /// The header with all fields zero.
    #[inline]
    pub fn zero() -> (r: Self)
        ensures
            r.connection_id == 0,
            r.packet_id.0 == 0,
            r.ack_packet_id.0 == 0,
            r.ack_packet_mask == 0,
            r.signal.0 == 0,
            r.prelude@ == seq![0u8, 0u8, 0u8, 0u8],
    {
        let r = Self {
            connection_id: 0,
            signal: SignalBits(0),
            packet_id: PacketIndex(0),
            ack_packet_id: PacketIndex(0),
            ack_packet_mask: 0,
            prelude: [0; 4],
        };
        assert(r.prelude@ =~= seq![0u8, 0u8, 0u8, 0u8]);
        r
    }

    /// Create a packet header associated with a connection request.
    #[inline]
    pub fn request_connection(payload_byte_count: u16) -> (r: Self)
        requires
            payload_byte_count <= MAX_SEGMENT_BYTE_COUNT,
        ensures
            r.signal.has_parts(true, false, false, 0, payload_byte_count as u32),
            r.connection_id == 0,
            r.packet_id.0 == 0,
            r.ack_packet_id.0 == 0,
            r.ack_packet_mask == 0,
            r.prelude@ == seq![0u8, 0u8, 0u8, 0u8],
            r.spec_valid(),
    {
        Self { signal: SignalBits::request_connection(payload_byte_count), ..Self::zero() }
    }

    /// Create a packet header for a connection-rejecting packet.
    #[inline]
    pub fn reject(payload_byte_count: u16) -> (r: Self)
        requires
            payload_byte_count <= MAX_SEGMENT_BYTE_COUNT,
        ensures
            r.signal.has_parts(false, true, false, 0, payload_byte_count as u32),
            r.connection_id == 0,
            r.packet_id.0 == 0,
            r.ack_packet_id.0 == 0,
            r.ack_packet_mask == 0,
            r.prelude@ == seq![0u8, 0u8, 0u8, 0u8],
            r.spec_valid(),
    {
        Self { signal: SignalBits::reject(payload_byte_count), ..Self::zero() }
    }

    /// Check whether the header acknowledges provided packet id.
    pub fn acknowledges(&self, packet_id: PacketIndex) -> (r: bool)
        ensures
            r == self.spec_acknowledges(packet_id.0),
    {
        if self.signal.is_signal_set(Signal::ConnectionRequest) {
            false
        } else {
            let mask = AckMask { last_index: ParcelIndex(self.ack_packet_id.0), mask: self.ack_packet_mask };
            mask.acknowledges(ParcelIndex(packet_id.0))
        }
    }

    /// Check that the signal of the header is valid for its kind of packet.
    #[inline]
    pub fn is_valid(&self) -> (r: bool)
        ensures
            r == self.spec_valid(),
    {
        if self.connection_id == 0 {
            self.signal.is_valid_connectionless()
        } else {
            self.signal.is_valid()
        }
    }

    /// Get the total number of data payload bytes that the packet header accounts for.
    #[inline]
    pub fn get_payload_byte_count(&self) -> (r: u16)
        ensures
            r == self.payload_count(),
    {
        proof {
            lemma_signal_parts(self.signal.0);
        }
        self.signal.get_parcel_byte_count() + self.signal.get_stream_byte_count()
    }
}

/// Copy `data` into `packet` starting at `start`.
pub(crate) fn copy_into(packet: &mut [u8], start: usize, data: &[u8])
    requires
        start + data@.len() <= old(packet)@.len(),
    ensures
        final(packet)@ == old(packet)@.take(start as int) + data@ + old(packet)@.skip(
            start + data@.len(),
        ),
{
    let n = packet.len();
    let mut i: usize = 0;
    while i < data.len()
        invariant
            n == packet@.len(),
            start + data@.len() <= packet@.len(),
            packet@.len() == old(packet)@.len(),
            i <= data@.len(),
            packet@ == old(packet)@.take(start as int) + data@.take(i as int) + old(packet)@.skip(
                start + i,
            ),
        decreases data@.len() - i,
    {
        packet[start + i] = data[i];
        i = i + 1;
        assert(packet@ =~= old(packet)@.take(start as int) + data@.take(i as int) + old(packet)@.skip(
            start + i,
        ));
    }
    assert(data@.take(i as int) =~= data@);
}

/// Write the provided packet header into the first 24 bytes of provided packet.
pub fn write_header(packet: &mut [u8], header: PacketHeader)
    requires
        old(packet)@.len() >= HEADER_SIZE,
    ensures
        final(packet)@ == header_bytes(header) + old(packet)@.skip(24),
{
    proof {
        lemma_auto_spec_u16_to_from_le_bytes();
        lemma_auto_spec_u32_to_from_le_bytes();
        lemma_auto_spec_u64_to_from_le_bytes();
    }
    let cid = u16_to_le_bytes(header.connection_id);
    let mask = u64_to_le_bytes(header.ack_packet_mask);
    let signal = u32_to_le_bytes(header.signal.0);
    let ids = [header.packet_id.0, header.ack_packet_id.0];
    let padding = [0u8; 4];
    assert(padding@ =~= seq![0u8, 0u8, 0u8, 0u8]);
    assert(ids@ =~= seq![header.packet_id.0, header.ack_packet_id.0]);
    copy_into(packet, 0, cid.as_slice());
    copy_into(packet, 2, &ids);
    copy_into(packet, 4, mask.as_slice());
    copy_into(packet, 12, signal.as_slice());
    copy_into(packet, 16, &header.prelude);
    copy_into(packet, 20, &padding);
    assert(packet@ =~= header_bytes(header) + old(packet)@.skip(24));
}

/// Read the header from the first 24 bytes of the provided packet, without validating it.
pub fn get_header(packet: &[u8]) -> (r: PacketHeader)
    requires
        packet@.len() >= HEADER_SIZE,
    ensures
        r == parse_header(packet@),
{
    let connection_id = u16_from_le_bytes(slice_subrange(packet, 0, 2));
    let ack_packet_mask = u64_from_le_bytes(slice_subrange(packet, 4, 12));
    let signal = u32_from_le_bytes(slice_subrange(packet, 12, 16));
    let r = PacketHeader {
        connection_id,
        packet_id: PacketIndex(packet[2]),
        ack_packet_id: PacketIndex(packet[3]),
        ack_packet_mask,
        signal: SignalBits(signal),
        prelude: [packet[16], packet[17], packet[18], packet[19]],
    };
    assert(r.prelude@ =~= parse_header(packet@).prelude@);
    r
}

/// Read and validate the header at the beginning of the provided packet.
pub fn read_header(packet: &[u8]) -> (r: Result<PacketHeader, HeaderError>)
    ensures
        r == spec_read_header(packet@),
{
    if packet.len() < HEADER_SIZE {
        return Err(HeaderError::PayloadLengthMismatch);
    }
    let header = get_header(packet);
    if header.signal.0 >> 25u32 != 0 || packet[20] != 0 || packet[21] != 0 || packet[22] != 0
        || packet[23] != 0 {
        Err(HeaderError::ReservedBitsNonZero)
    } else if !header.is_valid() {
        Err(HeaderError::InvalidSignalCombination)
    } else if header.get_payload_byte_count() as usize > packet.len() - HEADER_SIZE {
        Err(HeaderError::PayloadLengthMismatch)
    } else {
        Ok(header)
    }
}

/// Check that the packet starts with a valid header whose payload fits in the packet.
#[inline]
pub fn is_valid(packet: &[u8]) -> (r: bool)
    ensures
        r == spec_read_header(packet@) is Ok,
{
    read_header(packet).is_ok()
}

/// Read the connection id from the provided packet.
pub fn read_connection_id(packet: &[u8]) -> (r: ConnectionId)
    requires
        packet@.len() >= 2,
    ensures
        r == spec_u16_from_le_bytes(packet@.subrange(0, 2)),
{
    u16_from_le_bytes(slice_subrange(packet, 0, 2))
}

/// Get the data segment of a packet.
#[inline]
pub fn get_data_segment(packet: &[u8]) -> (r: &[u8])
    requires
        packet@.len() >= HEADER_SIZE,
    ensures
        r@ == packet@.skip(24),
{
    slice_subrange(packet, HEADER_SIZE, packet.len())
}

/// Get the parcel portion of the packet.
#[inline]
pub fn get_parcel_segment(packet: &[u8]) -> (r: &[u8])
    requires
        spec_read_header(packet@) is Ok,
    ensures
        r@ == packet@.subrange(24, 24 + parse_header(packet@).signal.parcel_count()),
{
    let header = get_header(packet);
    let end = HEADER_SIZE + header.signal.get_parcel_byte_count() as usize;
    slice_subrange(packet, HEADER_SIZE, end)
}

/// Get the stream portion of the packet.
#[inline]
pub fn get_stream_segment(packet: &[u8]) -> (r: &[u8])
    requires
        spec_read_header(packet@) is Ok,
    ensures
        r@ == packet@.subrange(
            24 + parse_header(packet@).signal.parcel_count(),
            24 + parse_header(packet@).payload_count(),
        ),
{
    let header = get_header(packet);
    let start = HEADER_SIZE + header.signal.get_parcel_byte_count() as usize;
    let end = start + header.signal.get_stream_byte_count() as usize;
    slice_subrange(packet, start, end)
}

/// Write the provided data into the provided packet data segment at `offset`.
#[inline]
pub fn write_data(packet: &mut [u8], data: &[u8], offset: usize)
    requires
        HEADER_SIZE + offset + data@.len() <= old(packet)@.len(),
    ensures
        final(packet)@ == old(packet)@.take(24 + offset) + data@ + old(packet)@.skip(
            24 + offset + data@.len(),
        ),
{
    let n = packet.len();
    assert(n >= HEADER_SIZE + offset);
    copy_into(packet, HEADER_SIZE + offset, data);
}

/// Clear the remainder of the data segment of the packet starting at provided offset.
pub fn clear_remaining_data(packet: &mut [u8], offset: usize)
    requires
        HEADER_SIZE + offset <= old(packet)@.len(),
    ensures
        final(packet)@.len() == old(packet)@.len(),
        final(packet)@.take(24 + offset) == old(packet)@.take(24 + offset),
        forall|i: int| 24 + offset <= i < final(packet)@.len() ==> #[trigger] final(packet)@[i] == 0,
{
    let n = packet.len();
    assert(n >= HEADER_SIZE + offset);
    let mut i: usize = HEADER_SIZE + offset;
    while i < packet.len()
        invariant
            HEADER_SIZE + offset <= i <= packet@.len(),
            packet@.len() == old(packet)@.len(),
            packet@.take(24 + offset) == old(packet)@.take(24 + offset),
            forall|j: int| 24 + offset <= j < i ==> #[trigger] packet@[j] == 0,
        decreases packet@.len() - i,
    {
        packet[i] = 0;
        i = i + 1;
        assert(packet@.take(24 + offset) =~= old(packet)@.take(24 + offset));
    }
}

/// Writing a valid header and reading it back gives the same header, provided the packet holds
/// the payload that the header declares.
pub proof fn lemma_header_round_trip(h: PacketHeader, rest: Seq<u8>)
    requires
        h.spec_valid(),
        h.signal.reserved_clear(),
        h.payload_count() <= rest.len(),
    ensures
        spec_read_header(header_bytes(h) + rest) == Ok::<PacketHeader, HeaderError>(h),
{
    lemma_auto_spec_u16_to_from_le_bytes();
    lemma_auto_spec_u32_to_from_le_bytes();
    lemma_auto_spec_u64_to_from_le_bytes();
    let s = header_bytes(h) + rest;
    assert(s.subrange(0, 2) =~= spec_u16_to_le_bytes(h.connection_id));
    assert(s.subrange(4, 12) =~= spec_u64_to_le_bytes(h.ack_packet_mask));
    assert(s.subrange(12, 16) =~= spec_u32_to_le_bytes(h.signal.0));
    let p = parse_header(s);
    assert(p.prelude =~= h.prelude);
    assert(p.connection_id == h.connection_id);
    assert(p.packet_id == h.packet_id);
    assert(p.ack_packet_id == h.ack_packet_id);
    assert(p.ack_packet_mask == h.ack_packet_mask);
    assert(p.signal == h.signal);
    assert(p == h);
}

/// The bitpattern with the given flag bits and byte counts.
fn compose(r: u32, c: u32, s: u32, parcel: u32, stream: u32) -> (b: u32)
    requires
        r == 0x0040_0000u32 || r == 0,
        c == 0x0080_0000u32 || c == 0,
        s == 0x0100_0000u32 || s == 0,
        parcel <= 0x7FF,
        stream <= 0x7FF,
    ensures
        SignalBits(b).has_parts(r != 0, c != 0, s != 0, parcel, stream),
{
    let b = r | c | s | (parcel << 11u32) | stream;
    assert((b & 0x7FFu32 == stream) && ((b >> 11u32) & 0x7FFu32 == parcel) && ((b
        & 0x0040_0000u32 != 0) == (r != 0)) && ((b & 0x0080_0000u32 != 0) == (c != 0)) && ((b
        & 0x0100_0000u32 != 0) == (s != 0)) && (b >> 25u32 == 0)) by (bit_vector)
        requires
            r == 0x0040_0000u32 || r == 0,
            c == 0x0080_0000u32 || c == 0,
            s == 0x0100_0000u32 || s == 0,
            parcel <= 0x7FF,
            stream <= 0x7FF,
            b == r | c | s | (parcel << 11u32) | stream,
    ;
    b
}

} // verus!
