//! Errors of connection operations.
use vstd::prelude::*;

use crate::byte::SerializationError;

verus! {

/// An error during the operation of a connection.
#[derive(Debug, Clone, Copy, PartialEq, Eq, Structural)]
pub enum ConnectionError {
    /// The connection has no pending parcels to pop.
    NoPendingParcels,
    /// An error during (de)serialization of a parcel.
    Serialization(SerializationError),
    /// The connection was in an invalid state.
    InvalidState,
}

impl From<SerializationError> for ConnectionError {
    fn from(error: SerializationError) -> (r: Self)
        ensures
            r == ConnectionError::Serialization(error),
    {
        Self::Serialization(error)
    }
}

impl vstd::std_specs::convert::FromSpecImpl<SerializationError> for ConnectionError {
    open spec fn obeys_from_spec() -> bool {
        true
    }

    open spec fn from_spec(v: SerializationError) -> Self {
        ConnectionError::Serialization(v)
    }
}

/// An error while building a packet.
#[derive(Debug, Clone, Copy, PartialEq, Eq, Structural)]
pub enum BuildPacketError {
    /// The provided buffer was too small to build a packet.
    InsufficientBuffer,
    /// An error during serialization of a parcel.
    Serialization(SerializationError),
    /// The connection was in an invalid state.
    InvalidState,
}

} // verus!
