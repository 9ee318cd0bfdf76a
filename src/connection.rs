//! High level connection functionality.
use vstd::prelude::*;

use crate::byte::ByteSerialize;

pub mod ack;
pub mod context;
pub mod deliver;
pub mod error;
pub mod parcel;

verus! {

/// Possible message that is passed by connections.
pub trait Parcel: ByteSerialize {

}

impl Parcel for u8 {

}

impl Parcel for u16 {

}

impl Parcel for u32 {

}

impl Parcel for u64 {

}

impl Parcel for bool {

}

impl Parcel for () {

}

impl Parcel for usize {

}

impl Parcel for isize {

}

impl Parcel for u128 {

}

impl Parcel for i128 {

}

impl Parcel for i8 {

}

impl Parcel for i16 {

}

impl Parcel for i32 {

}

impl Parcel for i64 {

}

} // verus!
