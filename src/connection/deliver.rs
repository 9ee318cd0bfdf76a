//! Utilities for providing reliability to delivered parcels.
use vstd::prelude::*;

use super::ack::AckMask;
use super::parcel::ParcelIndex;
use super::parcel::index::{index_minus, index_plus};

verus! {

/// Manager responsible for making sure the user-app data is delivered reliably.
///
/// Hands out parcel indices only as long as the other end will be able to acknowledge all
/// pending ones.
#[derive(Clone, Copy, Debug)]
pub struct DeliveryManager {
    pub next_index: ParcelIndex,
    pub ack_mask: Option<AckMask>,
}

impl DeliveryManager {
    /// The index that `next_index` hands out, if any.
    pub open spec fn spec_next_index(self) -> Option<ParcelIndex> {
        match self.ack_mask {
            Some(mask) => if mask.acks(index_minus(self.next_index.0, 64)) {
                Some(self.next_index)
            } else {
                None
            },
            None => if self.next_index.0 <= 64 {
                Some(self.next_index)
            } else {
                None
            },
        }
    }

    /// Construct a manager whose first index is 0 and that has no acknowledgement yet.
    pub fn new() -> (r: Self)
        ensures
            r.next_index.0 == 0,
            r.ack_mask is None,
    {
        DeliveryManager { next_index: ParcelIndex(0), ack_mask: None }
    }

    /// Get the next free parcel index.
    ///
    /// # Returns
    /// The first unused parcel index if it can be acknowledged by the other end or `None` if
    /// the other end of the connection will not be able to acknowledge all pending parcels.
    pub fn next_index(&mut self) -> (r: Option<ParcelIndex>)
        ensures
            r == old(self).spec_next_index(),
            final(self).ack_mask == old(self).ack_mask,
            r is Some ==> final(self).next_index.0 == index_plus(old(self).next_index.0, 1),
            r is None ==> final(self).next_index == old(self).next_index,
    {
        let available = match &self.ack_mask {
            Some(mask) => mask.acknowledges(self.next_index.minus(64)),
            None => self.next_index.0 <= 64,
        };
        if available {
            let index = self.next_index;
            self.next_index = self.next_index.next();
            Some(index)
        } else {
            None
        }
    }

    /// Acknowledge delivered parcels according to provided mask.
    ///
    /// # Note
    /// The provided mask should come from the other end of the connection, ie signal parcels
    /// received by it.
    pub fn acknowledge(&mut self, ack_mask: &AckMask)
        ensures
            final(self).ack_mask == Some(*ack_mask),
            final(self).next_index == old(self).next_index,
    {
        self.ack_mask = Some(*ack_mask);
    }
}

impl Default for DeliveryManager {
    fn default() -> (r: Self)
        ensures
            r.next_index.0 == 0,
            r.ack_mask is None,
    {
        DeliveryManager::new()
    }
}

} // verus!
