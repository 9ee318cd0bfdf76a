//! Parcel header manipulation utilities.
//!
//! The header provides metadata about parcels, such as which connections they are associated
//! with or the message content type. Its layout depends on its signal: only the fields that the
//! signal announces are present.
use vstd::prelude::*;
use vstd::bytes::{
    spec_u16_from_le_bytes, spec_u16_to_le_bytes, spec_u32_from_le_bytes, spec_u32_to_le_bytes,
    spec_u64_from_le_bytes, u16_from_le_bytes, u16_to_le_bytes, u32_from_le_bytes, u32_to_le_bytes,
    u64_from_le_bytes, lemma_auto_spec_u16_to_from_le_bytes, lemma_auto_spec_u32_to_from_le_bytes,
};
use vstd::slice::slice_subrange;

use super::index::ParcelIndex;
use super::signal::{has_bits, validation_error, parity_fixed, Signal};
use crate::connection::ack::{ack_mask_le_bytes, AckMask};
use crate::id::ConnectionId;
use crate::packet::copy_into;

verus! {

/// Random identifier that ties a connection request to its answer.
pub type HandshakeId = u32;

/// Parcel header.
///
/// Contains parcel metadata, such as the connection id.
#[derive(Debug, Clone, Copy, PartialEq, Eq, Structural)]
pub struct Header {
    pub signal: Signal,
    pub connection_id: ConnectionId,
    pub handshake_id: HandshakeId,
    pub index: ParcelIndex,
    pub ack_mask: AckMask,
    pub message_size: u16,
    pub stream_size: u16,
}

/// Error attempting to read a parcel header.
#[derive(Debug, Clone, Copy, PartialEq, Eq, Structural)]
pub enum ReadError {
    /// The signal bitmask inside the parcel was invalid.
    InvalidSignal,
    /// The header takes up more bytes than the provided buffer.
    InsufficientBufferLen,
}

/// Error attempting to slice a parcel.
#[derive(Debug, Clone, Copy, PartialEq, Eq, Structural)]
pub enum SliceError {
    /// The sliced part of the parcel does not exist in the provided parcel.
    ElementDoesNotExist,
    /// The slice goes out of bounds of the provided parcel.
    OutOfBounds,
}

/// `s` where `present` holds, nothing otherwise.
pub open spec fn opt(present: bool, s: Seq<u8>) -> Seq<u8> {
    if present {
        s
    } else {
        Seq::empty()
    }
}

/// Offset of the parcel index in a header with signal `b`.
pub open spec fn index_offset(b: u8) -> int {
    1 + if has_bits(b, 0x01u8) {
        2 + if has_bits(b, 0x02u8) {
            4int
        } else {
            0int
        }
    } else {
        4int
    }
}

/// Offset of the acknowledgement mask in a header with signal `b`.
pub open spec fn ack_offset(b: u8) -> int {
    index_offset(b) + if has_bits(b, 0x09u8) {
        1int
    } else {
        0int
    }
}

/// Offset of the message size in a header with signal `b`.
pub open spec fn message_size_offset(b: u8) -> int {
    ack_offset(b) + if has_bits(b, 0x11u8) {
        9int
    } else {
        0int
    }
}

/// Offset of the stream size in a header with signal `b`.
pub open spec fn stream_size_offset(b: u8) -> int {
    message_size_offset(b) + if has_bits(b, 0x20u8) {
        2int
    } else {
        0int
    }
}

/// Number of bytes a header with signal `b` takes up, the signal byte included.
pub open spec fn spec_signalled_size(b: u8) -> int {
    stream_size_offset(b) + if has_bits(b, 0x49u8) {
        2int
    } else {
        0int
    }
}

/// The bytes of a header on the wire.
pub open spec fn header_encoding(h: Header) -> Seq<u8> {
    let b = h.signal.bits;
    seq![b] + (if has_bits(b, 0x01u8) {
        spec_u16_to_le_bytes(h.connection_id) + opt(
            has_bits(b, 0x02u8),
            spec_u32_to_le_bytes(h.handshake_id),
        )
    } else {
        spec_u32_to_le_bytes(h.handshake_id)
    }) + opt(has_bits(b, 0x09u8), seq![h.index.0]) + opt(
        has_bits(b, 0x11u8),
        ack_mask_le_bytes(h.ack_mask),
    ) + opt(has_bits(b, 0x20u8), spec_u16_to_le_bytes(h.message_size)) + opt(
        has_bits(b, 0x49u8),
        spec_u16_to_le_bytes(h.stream_size),
    )
}

/// The header that `s` begins with, fields that its signal does not announce being zero.
pub open spec fn parse_parcel_header(s: Seq<u8>) -> Header {
    let b = s[0];
    let a = ack_offset(b);
    let m = message_size_offset(b);
    let t = stream_size_offset(b);
    Header {
        signal: Signal { bits: b },
        connection_id: if has_bits(b, 0x01u8) {
            spec_u16_from_le_bytes(s.subrange(1, 3))
        } else {
            0
        },
        handshake_id: if !has_bits(b, 0x01u8) {
            spec_u32_from_le_bytes(s.subrange(1, 5))
        } else if has_bits(b, 0x02u8) {
            spec_u32_from_le_bytes(s.subrange(3, 7))
        } else {
            0
        },
        index: ParcelIndex(
            if has_bits(b, 0x09u8) {
                s[index_offset(b)]
            } else {
                0
            },
        ),
        ack_mask: if has_bits(b, 0x11u8) {
            AckMask {
                last_index: ParcelIndex(s[a + 8]),
                mask: spec_u64_from_le_bytes(s.subrange(a, a + 8)),
            }
        } else {
            AckMask { last_index: ParcelIndex(0), mask: 0 }
        },
        message_size: if has_bits(b, 0x20u8) {
            spec_u16_from_le_bytes(s.subrange(m, m + 2))
        } else {
            0
        },
        stream_size: if has_bits(b, 0x49u8) {
            spec_u16_from_le_bytes(s.subrange(t, t + 2))
        } else {
            0
        },
    }
}

/// What reading a header from `s` gives: the header and its size.
pub open spec fn spec_read_from(s: Seq<u8>) -> Result<(Header, usize), ReadError> {
    if s.len() == 0 {
        Err(ReadError::InsufficientBufferLen)
    } else if validation_error(s[0]) is Some {
        Err(ReadError::InvalidSignal)
    } else if s.len() < spec_signalled_size(s[0]) {
        Err(ReadError::InsufficientBufferLen)
    } else {
        Ok((parse_parcel_header(s), spec_signalled_size(s[0]) as usize))
    }
}

/// Get the number of bytes the signal-implied header takes up in a parcel.
///
/// # Note
/// The size includes the signal byte.
fn signalled_size(signal: Signal) -> (r: usize)
    ensures
        r == spec_signalled_size(signal.bits),
{
    let mut size: usize = 1;
    if signal.is_connected() {
        size = size + 2;
        if signal.is_answer() {
            size = size + 4;
        }
    } else {
        size = size + 4;
    }
    if signal.is_indexed() {
        size = size + 1;
    }
    if signal.has_ack_mask() {
        size = size + 9;
    }
    if signal.has_message() {
        size = size + 2;
    }
    if signal.has_stream() {
        size = size + 2;
    }
    size
}

/// Copy `data` into `buffer` right after the `written` bytes that stand before `pos`.
fn put(
    buffer: &mut [u8],
    pos: usize,
    data: &[u8],
    Ghost(written): Ghost<Seq<u8>>,
    Ghost(orig): Ghost<Seq<u8>>,
) -> (r: usize)
    requires
        old(buffer)@ == written + orig.skip(pos as int),
        written.len() == pos,
        pos + data@.len() <= orig.len(),
    ensures
        r == pos + data@.len(),
        final(buffer)@ == (written + data@) + orig.skip(r as int),
{
    let n = buffer.len();
    copy_into(buffer, pos, data);
    assert(buffer@ =~= (written + data@) + orig.skip(pos + data@.len()));
    pos + data.len()
}

impl Header {
    /// The header with all fields zero.
    pub open spec fn spec_default() -> Header {
        Header {
            signal: Signal { bits: 0 },
            connection_id: 0,
            handshake_id: 0,
            index: ParcelIndex(0),
            ack_mask: AckMask { last_index: ParcelIndex(0), mask: 0 },
            message_size: 0,
            stream_size: 0,
        }
    }

    /// Construct a new instance that requests a new connection.
    ///
    /// # Note
    /// The provided handshake id should be unique to each connection request.
    #[inline]
    pub fn request_connection(handshake_id: HandshakeId) -> (r: Self)
        ensures
            r == (Header {
                signal: Signal { bits: 0x80u8 },
                handshake_id,
                ..Header::spec_default()
            }),
    {
        Self { signal: Signal::request_connection(), handshake_id, ..Self::default() }
    }

    /// Construct a new instance that accepts connection request with provided handshake id.
    ///
    /// Should be provided with the new connection id and the id of the request being accepted.
    #[inline]
    pub fn accept_connection(handshake_id: HandshakeId, connection_id: ConnectionId) -> (r: Self)
        ensures
            r == (Header {
                signal: Signal { bits: 0x83u8 },
                connection_id,
                handshake_id,
                ..Header::spec_default()
            }),
    {
        Self { signal: Signal::accept_connection(), connection_id, handshake_id, ..Self::default() }
    }

    /// Construct a version of the provided header that signals that the parcel contains
    /// provided number of user-app message bytes.
    #[inline]
    pub fn with_message(self, size: u16) -> (r: Self)
        ensures
            r == (Header {
                signal: Signal { bits: parity_fixed(self.signal.bits | 0x20u8) },
                message_size: size,
                ..self
            }),
    {
        Self { signal: self.signal.with_message(), message_size: size, ..self }
    }

    /// Construct a version of the provided header that signals that the parcel contains
    /// a slice of the user-app stream.
    pub fn with_stream(self) -> (r: Self)
        requires
            has_bits(self.signal.bits, 0x09u8),
        ensures
            r == (Header { signal: Signal { bits: parity_fixed(self.signal.bits | 0x40u8) }, ..self }),
    {
        Self { signal: self.signal.with_stream(), ..self }
    }

    /// Get the signal bitmask pattern of the parcel header.
    #[inline]
    pub fn signal(&self) -> (r: Signal)
        ensures
            r == self.signal,
    {
        self.signal
    }

    /// Get the id of the connection associated with the parcel, if it is connected.
    #[inline]
    pub fn connection_id(&self) -> (r: Option<ConnectionId>)
        ensures
            r == (if has_bits(self.signal.bits, 0x01u8) {
                Some(self.connection_id)
            } else {
                None
            }),
    {
        if self.signal.is_connected() {
            Some(self.connection_id)
        } else {
            None
        }
    }

    /// Get the handshake id of the connection request or answer to one.
    #[inline]
    pub fn handshake_id(&self) -> (r: Option<HandshakeId>)
        ensures
            r == (if !has_bits(self.signal.bits, 0x01u8) || has_bits(self.signal.bits, 0x02u8) {
                Some(self.handshake_id)
            } else {
                None
            }),
    {
        if !self.signal.is_connected() || self.signal.is_answer() {
            Some(self.handshake_id)
        } else {
            None
        }
    }

    /// Get the number of bytes of user-app message within the parcel.
    #[inline]
    pub fn message_size(&self) -> (r: Option<u16>)
        ensures
            r == (if has_bits(self.signal.bits, 0x20u8) {
                Some(self.message_size)
            } else {
                None
            }),
    {
        if self.signal.has_message() {
            Some(self.message_size)
        } else {
            None
        }
    }

    /// Get the number of bytes of user-app stream within the parcel.
    #[inline]
    pub fn stream_size(&self) -> (r: Option<u16>)
        ensures
            r == (if has_bits(self.signal.bits, 0x49u8) {
                Some(self.stream_size)
            } else {
                None
            }),
    {
        if self.signal.has_stream() {
            Some(self.stream_size)
        } else {
            None
        }
    }

    /// Get the number of bytes the header takes up in a parcel.
    #[inline]
    pub fn size(&self) -> (r: usize)
        ensures
            r == spec_signalled_size(self.signal.bits),
    {
        signalled_size(self.signal)
    }

    /// Get the offset from the beginning of the header to the beginning of the user-app
    /// message within the parcel.
    #[inline]
    pub fn message_offset(&self) -> (r: Option<usize>)
        ensures
            r == (if has_bits(self.signal.bits, 0x20u8) {
                Some(spec_signalled_size(self.signal.bits) as usize)
            } else {
                None
            }),
    {
        if self.signal.has_message() {
            Some(self.size())
        } else {
            None
        }
    }

    /// Get the offset from the beginning of the header to the beginning of the user-app
    /// stream slice within the parcel.
    #[inline]
    pub fn stream_offset(&self) -> (r: Option<usize>)
        ensures
            r == (if has_bits(self.signal.bits, 0x49u8) {
                Some(
                    (spec_signalled_size(self.signal.bits) + if has_bits(self.signal.bits, 0x20u8) {
                        self.message_size as int
                    } else {
                        0
                    }) as usize,
                )
            } else {
                None
            }),
    {
        if self.signal.has_stream() {
            let message = match self.message_size() {
                Some(size) => size as usize,
                None => 0,
            };
            Some(self.size() + message)
        } else {
            None
        }
    }

    /// Get the message slice from the provided parcel assuming the header is correct.
    #[inline]
    pub fn message_slice<'a>(&self, parcel: &'a [u8]) -> (r: Result<&'a [u8], SliceError>)
        ensures
            !has_bits(self.signal.bits, 0x20u8) ==> r == Err::<&[u8], SliceError>(
                SliceError::ElementDoesNotExist,
            ),
            has_bits(self.signal.bits, 0x20u8) ==> {
                let start = spec_signalled_size(self.signal.bits);
                let end = start + self.message_size;
                &&& end <= parcel@.len() ==> (r matches Ok(s) && s@ == parcel@.subrange(start, end))
                &&& end > parcel@.len() ==> r == Err::<&[u8], SliceError>(SliceError::OutOfBounds)
            },
    {
        match self.message_offset() {
            None => Err(SliceError::ElementDoesNotExist),
            Some(start) => {
                let end = start + self.message_size as usize;
                if end <= parcel.len() {
                    Ok(slice_subrange(parcel, start, end))
                } else {
                    Err(SliceError::OutOfBounds)
                }
            },
        }
    }

    /// Write the message bytes into the message slice of the provided parcel, assuming the
    /// header is correct.
    pub fn write_message(&self, parcel: &mut [u8], message: &[u8]) -> (r: Result<(), SliceError>)
        ensures
            !has_bits(self.signal.bits, 0x20u8) ==> r == Err::<(), SliceError>(
                SliceError::ElementDoesNotExist,
            ) && final(parcel)@ == old(parcel)@,
            has_bits(self.signal.bits, 0x20u8) ==> {
                let start = spec_signalled_size(self.signal.bits);
                let end = start + self.message_size;
                &&& end <= old(parcel)@.len() && message@.len() == self.message_size ==> r is Ok
                    && final(parcel)@ == old(parcel)@.take(start) + message@ + old(parcel)@.skip(end)
                &&& !(end <= old(parcel)@.len() && message@.len() == self.message_size) ==> r
                    == Err::<(), SliceError>(SliceError::OutOfBounds) && final(parcel)@ == old(
                    parcel,
                )@
            },
    {
        match self.message_offset() {
            None => Err(SliceError::ElementDoesNotExist),
            Some(start) => {
                let end = start + self.message_size as usize;
                if end <= parcel.len() && message.len() == self.message_size as usize {
                    copy_into(parcel, start, message);
                    Ok(())
                } else {
                    Err(SliceError::OutOfBounds)
                }
            },
        }
    }

    /// Write the stream bytes into the stream slice of the provided parcel, assuming the header
    /// is correct.
    pub fn write_stream(&self, parcel: &mut [u8], stream: &[u8]) -> (r: Result<(), SliceError>)
        ensures
            !has_bits(self.signal.bits, 0x49u8) ==> r == Err::<(), SliceError>(
                SliceError::ElementDoesNotExist,
            ) && final(parcel)@ == old(parcel)@,
            has_bits(self.signal.bits, 0x49u8) ==> {
                let start = spec_signalled_size(self.signal.bits) + if has_bits(
                    self.signal.bits,
                    0x20u8,
                ) {
                    self.message_size as int
                } else {
                    0
                };
                let end = start + self.stream_size;
                &&& end <= old(parcel)@.len() && stream@.len() == self.stream_size ==> r is Ok
                    && final(parcel)@ == old(parcel)@.take(start) + stream@ + old(parcel)@.skip(end)
                &&& !(end <= old(parcel)@.len() && stream@.len() == self.stream_size) ==> r
                    == Err::<(), SliceError>(SliceError::OutOfBounds) && final(parcel)@ == old(parcel)@
            },
    {
        match self.stream_offset() {
            None => Err(SliceError::ElementDoesNotExist),
            Some(start) => {
                if self.stream_size as usize <= parcel.len() && start <= parcel.len()
                    - self.stream_size as usize && stream.len() == self.stream_size as usize {
                    copy_into(parcel, start, stream);
                    Ok(())
                } else {
                    Err(SliceError::OutOfBounds)
                }
            },
        }
    }

    /// Get the stream slice from the provided parcel assuming the header is correct.
    #[inline]
    pub fn stream_slice<'a>(&self, parcel: &'a [u8]) -> (r: Result<&'a [u8], SliceError>)
        ensures
            !has_bits(self.signal.bits, 0x49u8) ==> r == Err::<&[u8], SliceError>(
                SliceError::ElementDoesNotExist,
            ),
            has_bits(self.signal.bits, 0x49u8) ==> {
                let start = spec_signalled_size(self.signal.bits) + if has_bits(
                    self.signal.bits,
                    0x20u8,
                ) {
                    self.message_size as int
                } else {
                    0
                };
                let end = start + self.stream_size;
                &&& end <= parcel@.len() ==> (r matches Ok(s) && s@ == parcel@.subrange(start, end))
                &&& end > parcel@.len() ==> r == Err::<&[u8], SliceError>(SliceError::OutOfBounds)
            },
    {
        match self.stream_offset() {
            None => Err(SliceError::ElementDoesNotExist),
            Some(start) => {
                if self.stream_size as usize <= parcel.len() && start <= parcel.len()
                    - self.stream_size as usize {
                    Ok(slice_subrange(parcel, start, start + self.stream_size as usize))
                } else {
                    Err(SliceError::OutOfBounds)
                }
            },
        }
    }

    /// Write the header to the beginning of the provided buffer.
    ///
    /// # Returns
    /// Number of bytes taken up by the header.
    pub fn write_to(&self, buffer: &mut [u8]) -> (r: usize)
        requires
            old(buffer)@.len() >= spec_signalled_size(self.signal.bits),
        ensures
            r == spec_signalled_size(self.signal.bits),
            final(buffer)@ == header_encoding(*self) + old(buffer)@.skip(r as int),
    {
        proof {
            lemma_auto_spec_u16_to_from_le_bytes();
            lemma_auto_spec_u32_to_from_le_bytes();
        }
        let size = self.size();
        let ghost orig = buffer@;
        let b = self.signal.bits;
        let ghost mut written: Seq<u8> = Seq::empty();
        assert(buffer@ =~= written + orig.skip(0));
        let signal_byte = [b];
        assert(signal_byte@ =~= seq![b]);
        let mut pos = put(buffer, 0, &signal_byte, Ghost(written), Ghost(orig));
        proof {
            written = written + signal_byte@;
        }
        if self.signal.is_connected() {
            let bytes = u16_to_le_bytes(self.connection_id);
            pos = put(buffer, pos, bytes.as_slice(), Ghost(written), Ghost(orig));
            proof {
                written = written + bytes@;
            }
            if self.signal.is_answer() {
                let bytes = u32_to_le_bytes(self.handshake_id);
                pos = put(buffer, pos, bytes.as_slice(), Ghost(written), Ghost(orig));
                proof {
                    written = written + bytes@;
                }
            }
        } else {
            let bytes = u32_to_le_bytes(self.handshake_id);
            pos = put(buffer, pos, bytes.as_slice(), Ghost(written), Ghost(orig));
            proof {
                written = written + bytes@;
            }
        }
        let ghost head = written;
        if self.signal.is_indexed() {
            let index_byte = [self.index.0];
            assert(index_byte@ =~= seq![self.index.0]);
            pos = put(buffer, pos, &index_byte, Ghost(written), Ghost(orig));
            proof {
                written = written + index_byte@;
            }
        }
        let ghost with_index = written;
        if self.signal.has_ack_mask() {
            let bytes = self.ack_mask.to_le_bytes();
            pos = put(buffer, pos, &bytes, Ghost(written), Ghost(orig));
            proof {
                written = written + bytes@;
            }
        }
        let ghost with_ack = written;
        if self.signal.has_message() {
            let bytes = u16_to_le_bytes(self.message_size);
            pos = put(buffer, pos, bytes.as_slice(), Ghost(written), Ghost(orig));
            proof {
                written = written + bytes@;
            }
        }
        let ghost with_message = written;
        if self.signal.has_stream() {
            let bytes = u16_to_le_bytes(self.stream_size);
            pos = put(buffer, pos, bytes.as_slice(), Ghost(written), Ghost(orig));
            proof {
                written = written + bytes@;
            }
        }
        proof {
            let h = *self;
            let first = seq![b] + (if has_bits(b, 0x01u8) {
                spec_u16_to_le_bytes(h.connection_id) + opt(
                    has_bits(b, 0x02u8),
                    spec_u32_to_le_bytes(h.handshake_id),
                )
            } else {
                spec_u32_to_le_bytes(h.handshake_id)
            });
            assert(head =~= first);
            assert(with_index =~= first + opt(has_bits(b, 0x09u8), seq![h.index.0]));
            assert(with_ack =~= first + opt(has_bits(b, 0x09u8), seq![h.index.0]) + opt(
                has_bits(b, 0x11u8),
                ack_mask_le_bytes(h.ack_mask),
            ));
            assert(with_message =~= first + opt(has_bits(b, 0x09u8), seq![h.index.0]) + opt(
                has_bits(b, 0x11u8),
                ack_mask_le_bytes(h.ack_mask),
            ) + opt(has_bits(b, 0x20u8), spec_u16_to_le_bytes(h.message_size)));
            assert(written =~= header_encoding(h));
        }
        size
    }

    /// Read the header from the beginning of the provided buffer.
    ///
    /// # Returns
    /// The read Header and number of bytes taken up by the header.
    pub fn read_from(buffer: &[u8]) -> (r: Result<(Self, usize), ReadError>)
        ensures
            r == spec_read_from(buffer@),
    {
        if buffer.len() == 0 {
            return Err(ReadError::InsufficientBufferLen);
        }
        let signal = Signal::from(buffer[0]);
        if !signal.is_valid() {
            return Err(ReadError::InvalidSignal);
        }
        let size = signalled_size(signal);
        if buffer.len() < size {
            return Err(ReadError::InsufficientBufferLen);
        }
        let mut result = Self { signal, ..Self::default() };
        let mut pos: usize = 1;
        if signal.is_connected() {
            result.connection_id = u16_from_le_bytes(slice_subrange(buffer, 1, 3));
            pos = 3;
            if signal.is_answer() {
                result.handshake_id = u32_from_le_bytes(slice_subrange(buffer, 3, 7));
                pos = 7;
            }
        } else {
            result.handshake_id = u32_from_le_bytes(slice_subrange(buffer, 1, 5));
            pos = 5;
        }
        assert(pos == index_offset(signal.bits));
        if signal.is_indexed() {
            result.index = ParcelIndex(buffer[pos]);
            pos = pos + 1;
        }
        assert(pos == ack_offset(signal.bits));
        if signal.has_ack_mask() {
            let mask = u64_from_le_bytes(slice_subrange(buffer, pos, pos + 8));
            result.ack_mask = AckMask { last_index: ParcelIndex(buffer[pos + 8]), mask };
            pos = pos + 9;
        }
        assert(pos == message_size_offset(signal.bits));
        if signal.has_message() {
            result.message_size = u16_from_le_bytes(slice_subrange(buffer, pos, pos + 2));
            pos = pos + 2;
        }
        assert(pos == stream_size_offset(signal.bits));
        if signal.has_stream() {
            result.stream_size = u16_from_le_bytes(slice_subrange(buffer, pos, pos + 2));
        }
        assert(result == parse_parcel_header(buffer@));
        Ok((result, size))
    }
}

/// Whether the fields of `h` that its signal does not announce are zero, as reading a header
/// leaves them.
pub open spec fn canonical(h: Header) -> bool {
    let b = h.signal.bits;
    &&& !has_bits(b, 0x01u8) ==> h.connection_id == 0
    &&& (has_bits(b, 0x01u8) && !has_bits(b, 0x02u8)) ==> h.handshake_id == 0
    &&& !has_bits(b, 0x09u8) ==> h.index.0 == 0
    &&& !has_bits(b, 0x11u8) ==> h.ack_mask == AckMask { last_index: ParcelIndex(0), mask: 0 }
    &&& !has_bits(b, 0x20u8) ==> h.message_size == 0
    &&& !has_bits(b, 0x49u8) ==> h.stream_size == 0
}

/// Writing a header with a valid signal and reading it back gives the same header and size.
pub proof fn lemma_parcel_header_round_trip(h: Header, rest: Seq<u8>)
    requires
        validation_error(h.signal.bits) is None,
        canonical(h),
    ensures
        spec_read_from(header_encoding(h) + rest) == Ok::<(Header, usize), ReadError>(
            (h, spec_signalled_size(h.signal.bits) as usize),
        ),
{
    lemma_auto_spec_u16_to_from_le_bytes();
    lemma_auto_spec_u32_to_from_le_bytes();
    vstd::bytes::lemma_auto_spec_u64_to_from_le_bytes();
    let b = h.signal.bits;
    let s = header_encoding(h) + rest;
    let e = header_encoding(h);
    assert(e.len() == spec_signalled_size(b));
    assert(s[0] == b);
    if has_bits(b, 0x01u8) {
        assert(s.subrange(1, 3) =~= spec_u16_to_le_bytes(h.connection_id));
        if has_bits(b, 0x02u8) {
            assert(s.subrange(3, 7) =~= spec_u32_to_le_bytes(h.handshake_id));
        }
    } else {
        assert(s.subrange(1, 5) =~= spec_u32_to_le_bytes(h.handshake_id));
    }
    if has_bits(b, 0x09u8) {
        assert(s[index_offset(b)] == h.index.0);
    }
    if has_bits(b, 0x11u8) {
        let a = ack_offset(b);
        assert(s.subrange(a, a + 8) =~= vstd::bytes::spec_u64_to_le_bytes(h.ack_mask.mask));
        assert(s[a + 8] == h.ack_mask.last_index.0);
    }
    if has_bits(b, 0x20u8) {
        let m = message_size_offset(b);
        assert(s.subrange(m, m + 2) =~= spec_u16_to_le_bytes(h.message_size));
    }
    if has_bits(b, 0x49u8) {
        let t = stream_size_offset(b);
        assert(s.subrange(t, t + 2) =~= spec_u16_to_le_bytes(h.stream_size));
    }
    let p = parse_parcel_header(s);
    assert(p.signal == h.signal);
    assert(p.ack_mask == h.ack_mask);
    assert(p.index == h.index);
    assert(p == h);
}

impl Default for Header {
    #[inline]
    fn default() -> (r: Self)
        ensures
            r == Header::spec_default(),
    {
        Self {
            signal: Signal::from(0u8),
            connection_id: 0,
            handshake_id: 0,
            index: ParcelIndex(0),
            ack_mask: AckMask::new(ParcelIndex(0)),
            message_size: 0,
            stream_size: 0,
        }
    }
}

} // verus!
