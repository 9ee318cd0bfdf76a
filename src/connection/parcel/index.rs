//! Wrapping 8-bit indices of parcels.
use vstd::prelude::*;

verus! {

/// Identifying index of the parcel.
///
/// Indices wrap around: the index after `255` is `0`.
#[derive(Debug, Clone, Copy, PartialEq, Eq, Structural, PartialOrd, Ord)]
pub struct ParcelIndex(pub u8);

/// The number of indices from `from` forward to `to`, modulo 256.
pub open spec fn index_dist(to: u8, from: u8) -> u8 {
    ((to as int - from as int) % 256) as u8
}

/// The index `k` positions after `i`, modulo 256.
pub open spec fn index_plus(i: u8, k: u8) -> u8 {
    ((i as int + k as int) % 256) as u8
}

/// The index `k` positions before `i`, modulo 256.
pub open spec fn index_minus(i: u8, k: u8) -> u8 {
    ((i as int - k as int) % 256) as u8
}

impl ParcelIndex {
    /// Get the next index.
    #[inline]
    pub fn next(self) -> (r: Self)
        ensures
            r.0 == index_plus(self.0, 1),
    {
        ParcelIndex(self.0.wrapping_add(1))
    }

    /// Get the number of indices between to and from (to - from).
    #[inline]
    pub fn dist(to: Self, from: Self) -> (r: u8)
        ensures
            r == index_dist(to.0, from.0),
    {
        to.0.wrapping_sub(from.0)
    }

    /// The index `k` positions after this one.
    #[inline]
    pub fn plus(self, k: u8) -> (r: Self)
        ensures
            r.0 == index_plus(self.0, k),
    {
        ParcelIndex(self.0.wrapping_add(k))
    }

    /// The index `k` positions before this one.
    #[inline]
    pub fn minus(self, k: u8) -> (r: Self)
        ensures
            r.0 == index_minus(self.0, k),
    {
        ParcelIndex(self.0.wrapping_sub(k))
    }

    /// Return the memory representation of this integer as a byte array in little-endian byte
    /// order.
    #[inline]
    pub fn to_le_bytes(self) -> (r: [u8; 1])
        ensures
            r@ == seq![self.0],
    {
        [self.0]
    }

    /// Construct a new integer from a byte array in little-endian byte order.
    #[inline]
    pub fn from_le_bytes(bytes: [u8; 1]) -> (r: Self)
        ensures
            r.0 == bytes@[0],
    {
        ParcelIndex(bytes[0])
    }

    /// Return the memory representation of this integer as a byte array in big-endian byte order.
    #[inline]
    pub fn to_be_bytes(self) -> (r: [u8; 1])
        ensures
            r@ == seq![self.0],
    {
        [self.0]
    }

    /// Construct a new integer from a byte array in big-endian byte order.
    #[inline]
    pub fn from_be_bytes(bytes: [u8; 1]) -> (r: Self)
        ensures
            r.0 == bytes@[0],
    {
        ParcelIndex(bytes[0])
    }
}

impl From<u8> for ParcelIndex {
    #[inline]
    fn from(idx: u8) -> (r: Self)
        ensures
            r.0 == idx,
    {
        ParcelIndex(idx)
    }
}

impl vstd::std_specs::convert::FromSpecImpl<u8> for ParcelIndex {
    open spec fn obeys_from_spec() -> bool {
        true
    }

    open spec fn from_spec(v: u8) -> Self {
        ParcelIndex(v)
    }
}

impl From<ParcelIndex> for u8 {
    #[inline]
    fn from(idx: ParcelIndex) -> (r: u8)
        ensures
            r == idx.0,
    {
        idx.0
    }
}

impl vstd::std_specs::convert::FromSpecImpl<ParcelIndex> for u8 {
    open spec fn obeys_from_spec() -> bool {
        true
    }

    open spec fn from_spec(v: ParcelIndex) -> Self {
        v.0
    }
}

/// Walking `k` indices forward from `i` leaves `i` exactly `k` indices behind.
pub proof fn lemma_dist_of_plus(i: ParcelIndex, k: u8)
    ensures
        index_dist(index_plus(i.0, k), i.0) == k,
{
}

} // verus!
