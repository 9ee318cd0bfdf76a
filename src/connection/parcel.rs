//! Helper structs and functions to interpret and modify parcel data.
//!
//! A parcel is an indexable datagram sent over the network. Parcels consist of a header with
//! technical information and a payload with user data.
pub mod index;

pub use index::ParcelIndex;
pub mod signal;
pub mod header;

pub use header::Header;
