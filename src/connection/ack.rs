//! Mechanism for acknowledging received parcels.
use vstd::prelude::*;
use vstd::bytes::{
    spec_u64_from_le_bytes, spec_u64_to_le_bytes, u64_from_le_bytes, u64_to_le_bytes,
    lemma_auto_spec_u64_to_from_le_bytes,
};

use super::parcel::ParcelIndex;
use super::parcel::index::index_dist;

verus! {

/// Number of indices preceding the last index that a mask can acknowledge.
pub const ACK_WINDOW: u8 = 64;

/// Mask that acknowledges received parcels.
///
/// Acknowledges `last_index`, and for each `i` in `1..=64` the index `last_index - i` when bit
/// `i - 1` of `mask` is set.
#[derive(Debug, Clone, Copy, PartialEq, Eq, Structural, PartialOrd, Ord)]
pub struct AckMask {
    pub last_index: ParcelIndex,
    pub mask: u64,
}

/// Acknowledging provided parcel index would result in skipping (missing) a parcel.
#[derive(Debug, Clone, Copy, PartialEq, Eq, Structural)]
pub struct AckError;

/// Whether bit `i` of `bits` is set.
pub open spec fn bit_set(bits: u64, i: u64) -> bool {
    bits & (1u64 << i) != 0
}

/// Whether the `n` most significant bits of `bits` are all set.
pub open spec fn top_bits_set(bits: u64, n: u64) -> bool {
    if n == 0 {
        true
    } else if n < 64 {
        (!bits) >> ((64 - n) as u64) == 0
    } else {
        n == 64 && bits == 0xFFFF_FFFF_FFFF_FFFFu64
    }
}

/// `bits` moved `s` positions towards the most significant end, with bit `s - 1` set: the mask of
/// a window whose last index moved forward by `s`, the previous last index now acknowledged by a
/// bit.
pub open spec fn slid(bits: u64, s: u64) -> u64 {
    let moved = if s < 64 { bits << s } else { 0u64 };
    if 1 <= s <= 64 { moved | (1u64 << ((s - 1) as u64)) } else { moved }
}

/// The 9-byte little-endian serialization of a mask: the bits, then the last index.
pub open spec fn ack_mask_le_bytes(m: AckMask) -> Seq<u8> {
    spec_u64_to_le_bytes(m.mask) + seq![m.last_index.0]
}

/// The 9-byte big-endian serialization of a mask: the last index, then the bits.
pub open spec fn ack_mask_be_bytes(m: AckMask) -> Seq<u8> {
    seq![m.last_index.0] + spec_u64_to_le_bytes(m.mask).reverse()
}

impl AckMask {
    /// Whether the mask acknowledges the index `idx`.
    pub open spec fn acks(self, idx: u8) -> bool {
        let d = index_dist(self.last_index.0, idx);
        d == 0 || (1 <= d <= 64 && bit_set(self.mask, (d - 1) as u64))
    }

    /// The mask after acknowledging `idx`, or `None` where that would push an unacknowledged
    /// index out of the window.
    pub open spec fn spec_ack(self, idx: u8) -> Option<AckMask> {
        let d = index_dist(self.last_index.0, idx);
        if d == 0 {
            Some(self)
        } else if d <= 64 {
            Some(AckMask { mask: self.mask | (1u64 << ((d - 1) as u64)), ..self })
        } else if d <= 127 {
            Some(self)
        } else if top_bits_set(self.mask, (256 - d) as u64) {
            Some(AckMask { last_index: ParcelIndex(idx), mask: slid(self.mask, (256 - d) as u64) })
        } else {
            None
        }
    }

    /// The mask after acknowledging `idx` without the check of `spec_ack`.
    pub open spec fn spec_unchecked_ack(self, idx: u8) -> AckMask {
        let d = index_dist(self.last_index.0, idx);
        if 1 <= d <= 64 {
            AckMask { mask: self.mask | (1u64 << ((d - 1) as u64)), ..self }
        } else if d >= 128 {
            AckMask { last_index: ParcelIndex(idx), mask: slid(self.mask, (256 - d) as u64) }
        } else {
            self
        }
    }

    /// Construct a new **AckMask** that only acknowledges provided parcel index.
    pub fn new(acknowledged_parcel: ParcelIndex) -> (r: Self)
        ensures
            r.last_index == acknowledged_parcel,
            r.mask == 0,
            forall|i: u8| #[trigger] r.acks(i) <==> i == acknowledged_parcel.0,
    {
        let r = Self { last_index: acknowledged_parcel, mask: 0 };
        assert forall|i: u8| #[trigger] r.acks(i) <==> i == acknowledged_parcel.0 by {
            let d = index_dist(acknowledged_parcel.0, i);
            if 1 <= d <= 64 {
                lemma_zero_has_no_bits((d - 1) as u64);
            }
        }
        r
    }

    /// Construct a mask that acknowledges provided parcel index and the 64 indices before it.
    pub fn saturated(last: ParcelIndex) -> (r: Self)
        ensures
            r.last_index == last,
            r.mask == 0xFFFF_FFFF_FFFF_FFFFu64,
    {
        Self { last_index: last, mask: 0xFFFF_FFFF_FFFF_FFFFu64 }
    }

    /// Check whether the mask acknowledges provided parcel index.
    #[inline]
    pub fn acknowledges(&self, index: ParcelIndex) -> (r: bool)
        ensures
            r == self.acks(index.0),
    {
        let dist = ParcelIndex::dist(self.last_index, index);
        if dist == 0 {
            true
        } else if dist <= 64 {
            let bit: u64 = 1u64 << ((dist - 1) as u64);
            self.mask & bit != 0
        } else {
            false
        }
    }

    /// Acknowledge provided parcel index without checking bounds.
    ///
    /// # Note
    /// Using this function directly may cause reliable parcels to be skipped. Prefer using
    /// [`ack`](Self::ack) instead.
    pub fn unchecked_ack(&mut self, index: ParcelIndex)
        ensures
            *final(self) == old(self).spec_unchecked_ack(index.0),
    {
        let dist = ParcelIndex::dist(self.last_index, index);
        if 1 <= dist && dist <= 64 {
            self.mask = self.mask | (1u64 << ((dist - 1) as u64));
        } else if dist >= 128 {
            let shift: u64 = (256 - dist as u64) as u64;
            self.mask = slide(self.mask, shift);
            self.last_index = index;
        }
    }

    /// Acknowledge provided parcel index.
    ///
    /// # Returns
    /// Error if acknowledging provided parcel index would cause an unacknowledged previous
    /// index to go out of range, which may result in missed reliable parcels.
    pub fn ack(&mut self, index: ParcelIndex) -> (r: Result<(), AckError>)
        ensures
            old(self).spec_ack(index.0) matches Some(m) ==> r is Ok && *final(self) == m,
            old(self).spec_ack(index.0) is None ==> r is Err && *final(self) == *old(self),
            r is Ok && !(65 <= index_dist(old(self).last_index.0, index.0) <= 127)
                ==> final(self).acks(index.0),
    {
        let dist = ParcelIndex::dist(self.last_index, index);
        if dist == 0 {
            Ok(())
        } else if dist <= 64 {
            let k: u64 = (dist - 1) as u64;
            self.mask = self.mask | (1u64 << k);
            proof {
                lemma_or_sets_bit(old(self).mask, k);
            }
            Ok(())
        } else if dist <= 127 {
            Ok(())
        } else {
            let shift: u64 = (256 - dist as u64) as u64;
            if leading_bits_set(self.mask, shift) {
                self.mask = slide(self.mask, shift);
                self.last_index = index;
                Ok(())
            } else {
                Err(AckError)
            }
        }
    }

    /// Return little-endian serialization of Self.
    #[inline]
    pub fn to_le_bytes(&self) -> (r: [u8; 9])
        ensures
            r@ == ack_mask_le_bytes(*self),
    {
        let m = u64_to_le_bytes(self.mask);
        let r = [m[0], m[1], m[2], m[3], m[4], m[5], m[6], m[7], self.last_index.0];
        assert(r@ =~= ack_mask_le_bytes(*self));
        r
    }

    /// Deserialize Self from little-endian serialization.
    #[inline]
    pub fn from_le_bytes(bytes: [u8; 9]) -> (r: Self)
        ensures
            r.mask == spec_u64_from_le_bytes(bytes@.take(8)),
            r.last_index.0 == bytes@[8],
    {
        let mut mask_bytes: Vec<u8> = Vec::new();
        let mut i: usize = 0;
        while i < 8
            invariant
                i <= 8,
                mask_bytes@ == bytes@.take(i as int),
            decreases 8 - i,
        {
            mask_bytes.push(bytes[i]);
            i = i + 1;
            assert(mask_bytes@ =~= bytes@.take(i as int));
        }
        let mask = u64_from_le_bytes(mask_bytes.as_slice());
        Self { last_index: ParcelIndex(bytes[8]), mask }
    }

    /// Return big-endian serialization of Self.
    #[inline]
    pub fn to_be_bytes(&self) -> (r: [u8; 9])
        ensures
            r@ == ack_mask_be_bytes(*self),
    {
        let m = u64_to_le_bytes(self.mask);
        let r = [self.last_index.0, m[7], m[6], m[5], m[4], m[3], m[2], m[1], m[0]];
        assert(r@ =~= ack_mask_be_bytes(*self));
        r
    }

    /// Deserialize Self from big-endian serialization.
    #[inline]
    pub fn from_be_bytes(bytes: [u8; 9]) -> (r: Self)
        ensures
            r.mask == spec_u64_from_le_bytes(bytes@.skip(1).reverse()),
            r.last_index.0 == bytes@[0],
    {
        let mut mask_bytes: Vec<u8> = Vec::new();
        let mut i: usize = 0;
        while i < 8
            invariant
                i <= 8,
                mask_bytes@ == bytes@.skip(1).reverse().take(i as int),
            decreases 8 - i,
        {
            mask_bytes.push(bytes[8 - i]);
            i = i + 1;
            assert(mask_bytes@ =~= bytes@.skip(1).reverse().take(i as int));
        }
        assert(mask_bytes@ =~= bytes@.skip(1).reverse());
        let mask = u64_from_le_bytes(mask_bytes.as_slice());
        Self { last_index: ParcelIndex(bytes[0]), mask }
    }
}

/// Whether the `n` most significant bits of `bits` are all set.
fn leading_bits_set(bits: u64, n: u64) -> (r: bool)
    ensures
        r == top_bits_set(bits, n),
{
    if n == 0 {
        true
    } else if n < 64 {
        (!bits) >> (64 - n) == 0
    } else {
        n == 64 && bits == 0xFFFF_FFFF_FFFF_FFFFu64
    }
}

/// Move `bits` by `s` positions towards the most significant end and set bit `s - 1`.
fn slide(bits: u64, s: u64) -> (r: u64)
    ensures
        r == slid(bits, s),
{
    let moved = if s < 64 { bits << s } else { 0u64 };
    if 1 <= s && s <= 64 {
        moved | (1u64 << (s - 1))
    } else {
        moved
    }
}

proof fn lemma_zero_has_no_bits(k: u64)
    requires
        k < 64,
    ensures
        !bit_set(0, k),
{
    assert(0u64 & (1u64 << k) == 0) by (bit_vector)
        requires
            k < 64,
    ;
}

proof fn lemma_or_sets_bit(bits: u64, k: u64)
    requires
        k < 64,
    ensures
        bit_set(bits | (1u64 << k), k),
{
    assert((bits | (1u64 << k)) & (1u64 << k) != 0) by (bit_vector)
        requires
            k < 64,
    ;
}

/// An index that a mask accepted within its window is acknowledged by the resulting mask, so
/// a datagram with that index counts as already received from then on.
pub proof fn lemma_accepted_index_is_acknowledged(m: AckMask, idx: u8)
    requires
        m.spec_ack(idx) is Some,
        !(65 <= index_dist(m.last_index.0, idx) <= 127),
    ensures
        m.spec_ack(idx).unwrap().acks(idx),
{
    let d = index_dist(m.last_index.0, idx);
    if 1 <= d <= 64 {
        lemma_or_sets_bit(m.mask, (d - 1) as u64);
    }
}

/// Serializing a mask to little-endian bytes and reading it back gives the same mask, and so
/// the same set of acknowledged indices.
pub proof fn lemma_le_bytes_round_trip(m: AckMask, bytes: [u8; 9])
    requires
        bytes@ == ack_mask_le_bytes(m),
    ensures
        spec_u64_from_le_bytes(bytes@.take(8)) == m.mask,
        bytes@[8] == m.last_index.0,
        (AckMask {
            last_index: ParcelIndex(bytes@[8]),
            mask: spec_u64_from_le_bytes(bytes@.take(8)),
        }) == m,
{
    lemma_auto_spec_u64_to_from_le_bytes();
    assert(bytes@.take(8) =~= spec_u64_to_le_bytes(m.mask));
}

} // verus!
