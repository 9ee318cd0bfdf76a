//! Signalling bitmask that is used by parcel [`Headers`](super::Header).
use vstd::prelude::*;

verus! {

/// Signalling bitpattern.
#[derive(Debug, Clone, Copy, PartialEq, Eq, Structural, PartialOrd, Ord)]
pub struct Signal {
    pub bits: u8,
}

/// Error when validating a Signal bitpattern.
#[derive(Debug, Clone, Copy, PartialEq, Eq, Structural)]
pub enum SignalValidationError {
    /// **Index** bit was set without **connection** bit being set.
    DisconnectedIndex,
    /// **Acknowledge** bit was set without **connection** bit being set.
    DisconnectedAcknowledge,
    /// **Stream** bit was set without **connection** bit being set.
    DisconnectedStream,
    /// **Stream** bit was set without **index** bit being set.
    UnreliableStream,
    /// The bitpattern has even parity.
    InvalidParity,
}

pub const CONNECTION_MASK: u8 = 0x01;

pub const ANSWER_MASK: u8 = 0x02;

pub const RESERVED_MASK: u8 = 0x04;

pub const INDEX_MASK: u8 = 0x08;

pub const ACKNOWLEDGE_MASK: u8 = 0x10;

pub const MESSAGE_MASK: u8 = 0x20;

pub const STREAM_MASK: u8 = 0x40;

pub const PARITY_MASK: u8 = 0x80;

/// Whether all bits of `mask` are set in `bits`.
pub open spec fn has_bits(bits: u8, mask: u8) -> bool {
    bits & mask == mask
}

/// Whether `bits` has an odd number of set bits (the exclusive or of its eight bits is 1).
pub open spec fn odd_parity(bits: u8) -> bool {
    (bits ^ (bits >> 1u8) ^ (bits >> 2u8) ^ (bits >> 3u8) ^ (bits >> 4u8) ^ (bits >> 5u8) ^ (bits
        >> 6u8) ^ (bits >> 7u8)) & 1u8 == 1u8
}

/// The error that validating `bits` gives, if any.
pub open spec fn validation_error(bits: u8) -> Option<SignalValidationError> {
    let connected = has_bits(bits, 0x01u8);
    let indexed = has_bits(bits, 0x08u8);
    let acked = has_bits(bits, 0x10u8);
    let stream = has_bits(bits, 0x40u8);
    if connected && stream && !indexed {
        Some(SignalValidationError::UnreliableStream)
    } else if !connected && indexed {
        Some(SignalValidationError::DisconnectedIndex)
    } else if !connected && acked {
        Some(SignalValidationError::DisconnectedAcknowledge)
    } else if !connected && stream {
        Some(SignalValidationError::DisconnectedStream)
    } else if !odd_parity(bits) {
        Some(SignalValidationError::InvalidParity)
    } else {
        None
    }
}

/// `bits` with the parity bit chosen so that the number of set bits is odd.
pub open spec fn parity_fixed(bits: u8) -> u8 {
    if odd_parity(bits) {
        bits
    } else {
        bits ^ 0x80u8
    }
}

impl Signal {
    /// Construct a new instance that signals a request for a connection.
    #[inline]
    pub fn request_connection() -> (r: Self)
        ensures
            r.bits == PARITY_MASK,
    {
        Self { bits: PARITY_MASK }
    }

    /// Construct a new instance that signals that the requested connection was accepted.
    #[inline]
    pub fn accept_connection() -> (r: Self)
        ensures
            r.bits == 0x83u8,
    {
        Self { bits: 0x83u8 }
    }

    /// Construct a new instance that signals that the requested connection was rejected.
    #[inline]
    pub fn reject_connection() -> (r: Self)
        ensures
            r.bits == ANSWER_MASK,
    {
        Self { bits: ANSWER_MASK }
    }

    /// Construct a new instance that signals that the containing parcel is associated with an
    /// existent connection.
    #[inline]
    pub fn connected() -> (r: Self)
        ensures
            r.bits == CONNECTION_MASK,
    {
        Self { bits: CONNECTION_MASK }
    }

    /// Check that the bitpattern is valid.
    pub fn validate(self) -> (r: Result<(), SignalValidationError>)
        ensures
            r is Ok <==> validation_error(self.bits) is None,
            r matches Err(e) ==> validation_error(self.bits) == Some(e),
    {
        let index_bit = self.bits & INDEX_MASK == INDEX_MASK;
        let ack_bit = self.bits & ACKNOWLEDGE_MASK == ACKNOWLEDGE_MASK;
        let stream_bit = self.bits & STREAM_MASK == STREAM_MASK;
        if self.is_connected() {
            if stream_bit && !index_bit {
                return Err(SignalValidationError::UnreliableStream);
            }
        } else {
            if index_bit {
                return Err(SignalValidationError::DisconnectedIndex);
            }
            if ack_bit {
                return Err(SignalValidationError::DisconnectedAcknowledge);
            }
            if stream_bit {
                return Err(SignalValidationError::DisconnectedStream);
            }
        }
        if !self.has_correct_parity() {
            return Err(SignalValidationError::InvalidParity);
        }
        Ok(())
    }

    /// Check whether the given signal bitpattern is valid.
    #[inline]
    pub fn is_valid(self) -> (r: bool)
        ensures
            r == (validation_error(self.bits) is None),
    {
        self.validate().is_ok()
    }

    /// Check whether the parcel is associated with an established connection.
    #[inline]
    pub fn is_connected(self) -> (r: bool)
        ensures
            r == has_bits(self.bits, 0x01u8),
    {
        self.bits & CONNECTION_MASK == CONNECTION_MASK
    }

    /// Check whether the parcel is answering a requested connection.
    #[inline]
    pub fn is_answer(self) -> (r: bool)
        ensures
            r == has_bits(self.bits, 0x02u8),
    {
        self.bits & ANSWER_MASK == ANSWER_MASK
    }

    /// Check whether the parcel is indexed (and connected).
    #[inline]
    pub fn is_indexed(self) -> (r: bool)
        ensures
            r == has_bits(self.bits, 0x09u8),
    {
        self.bits & 0x09u8 == 0x09u8
    }

    /// Signal that the parcel is indexed and should be acknowledged.
    #[inline]
    pub fn indexed(self) -> (r: Self)
        requires
            has_bits(self.bits, 0x01u8),
        ensures
            r.bits == parity_fixed(self.bits | 0x08u8),
    {
        Self { bits: self.bits | INDEX_MASK }.with_correct_parity()
    }

    /// Check whether parcel contains an acknowledgement mask (and is connected).
    #[inline]
    pub fn has_ack_mask(self) -> (r: bool)
        ensures
            r == has_bits(self.bits, 0x11u8),
    {
        self.bits & 0x11u8 == 0x11u8
    }

    /// Signal that the parcel contains an acknowledgement mask.
    #[inline]
    pub fn with_ack_mask(self) -> (r: Self)
        requires
            has_bits(self.bits, 0x01u8),
        ensures
            r.bits == parity_fixed(self.bits | 0x10u8),
    {
        Self { bits: self.bits | ACKNOWLEDGE_MASK }.with_correct_parity()
    }

    /// Check whether parcel contains user-application message bytes.
    #[inline]
    pub fn has_message(self) -> (r: bool)
        ensures
            r == has_bits(self.bits, 0x20u8),
    {
        self.bits & MESSAGE_MASK == MESSAGE_MASK
    }

    /// Signal that the parcel contains user-application message bytes.
    #[inline]
    pub fn with_message(self) -> (r: Self)
        ensures
            r.bits == parity_fixed(self.bits | 0x20u8),
    {
        Self { bits: self.bits | MESSAGE_MASK }.with_correct_parity()
    }

    /// Check whether parcel contains user-application data stream slice (and is connected and
    /// indexed).
    #[inline]
    pub fn has_stream(self) -> (r: bool)
        ensures
            r == has_bits(self.bits, 0x49u8),
    {
        self.bits & 0x49u8 == 0x49u8
    }

    /// Signal that the parcel contains user-application data stream slice.
    pub fn with_stream(self) -> (r: Self)
        requires
            has_bits(self.bits, 0x09u8),
        ensures
            r.bits == parity_fixed(self.bits | 0x40u8),
    {
        Self { bits: self.bits | STREAM_MASK }.with_correct_parity()
    }

    /// Check whether the signal is of odd parity.
    #[inline]
    pub fn has_correct_parity(self) -> (r: bool)
        ensures
            r == odd_parity(self.bits),
    {
        let b = self.bits;
        (b ^ (b >> 1u8) ^ (b >> 2u8) ^ (b >> 3u8) ^ (b >> 4u8) ^ (b >> 5u8) ^ (b >> 6u8) ^ (b
            >> 7u8)) & 1u8 == 1u8
    }

    /// Set the parity bit to correct state, assuming other bits do not change.
    #[inline]
    pub fn with_correct_parity(self) -> (r: Self)
        ensures
            r.bits == parity_fixed(self.bits),
    {
        if self.has_correct_parity() {
            Self { bits: self.bits }
        } else {
            Self { bits: self.bits ^ PARITY_MASK }
        }
    }

    /// Check whether the parcel is requesting a new connection.
    #[inline]
    pub fn is_connection_request(self) -> (r: bool)
        ensures
            r == (self.bits & 0x4Bu8 == 0),
    {
        self.bits & 0x4Bu8 == 0
    }

    /// Check whether the parcel is accepting a connection request.
    #[inline]
    pub fn is_accept(self) -> (r: bool)
        ensures
            r == has_bits(self.bits, 0x03u8),
    {
        self.bits & 0x03u8 == 0x03u8
    }
}

impl From<u8> for Signal {
    #[inline]
    fn from(bits: u8) -> (r: Self)
        ensures
            r.bits == bits,
    {
        Self { bits }
    }
}

impl vstd::std_specs::convert::FromSpecImpl<u8> for Signal {
    open spec fn obeys_from_spec() -> bool {
        true
    }

    open spec fn from_spec(v: u8) -> Self {
        Signal { bits: v }
    }
}

impl From<Signal> for u8 {
    #[inline]
    fn from(signal: Signal) -> (r: u8)
        ensures
            r == signal.bits,
    {
        signal.bits
    }
}

impl vstd::std_specs::convert::FromSpecImpl<Signal> for u8 {
    open spec fn obeys_from_spec() -> bool {
        true
    }

    open spec fn from_spec(v: Signal) -> Self {
        v.bits
    }
}

} // verus!
