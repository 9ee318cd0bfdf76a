//! Message-based networking over an unreliable datagram transport.
//!
//! The library provides virtual connections between two endpoints, with reliable unordered
//! parcels, volatile parcels and a reliable ordered byte stream, all carried by datagrams of a
//! fixed little-endian wire format.
pub mod byte;
pub mod connection;
pub mod endpoint;
pub mod id;
pub mod listen;
pub mod message;
pub mod packet;
