//! Definitions of atomic messages.
use vstd::prelude::*;

use crate::byte::ByteSerialize;

verus! {

/// Number of allowed bytes per single serialized message payload.
pub const MAX_MESSAGE_BYTE_COUNT: usize = 256;

/// A serializable message.
pub trait Message: ByteSerialize {

}

} // verus!
