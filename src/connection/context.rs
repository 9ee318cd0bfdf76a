//! Connection context: the state of one connection and the decisions it takes.
//!
//! The context queues outgoing parcels and stream bytes, builds the datagrams that carry them,
//! processes received datagrams, keeps the acknowledgement windows of both directions and
//! re-queues data whose datagram was lost. It performs no I/O: the caller hands it received
//! datagrams, buffers to build into, and the current time in milliseconds.
use vstd::prelude::*;
use vstd::bytes::{spec_u16_to_le_bytes, spec_u32_to_le_bytes, u16_to_le_bytes, u32_to_le_bytes};
use vstd::slice::slice_subrange;
use core::marker::PhantomData;

use super::Parcel;
use super::ack::AckMask;
use super::error::{BuildPacketError, ConnectionError};
use super::parcel::ParcelIndex;
use super::parcel::index::index_plus;
use crate::byte::{append_bytes, ByteSerialize, SerializationError};
use crate::id::ConnectionId;
use crate::packet::{
    copy_into, get_parcel_segment, get_stream_segment, header_bytes, lemma_header_round_trip,
    parse_header, read_header, spec_read_header, write_header, PacketHeader, PacketIndex, Signal,
    SignalBits, HEADER_SIZE, PACKET_SIZE, PAYLOAD_SIZE,
};

verus! {

/// Period after which unacknowledged data is sent again and an idle connection sends a
/// keep-alive, in milliseconds.
pub const RESYNC_PERIOD: u64 = 200;

/// Period without received datagrams after which a connection is lost, in milliseconds.
pub const TIMEOUT: u64 = 2000;

/// Number of synchronized datagrams that may await acknowledgement at once.
pub const ACK_WINDOW_CAPACITY: usize = 64;

/// Number of volatile parcels kept for sending; older ones are dropped.
pub const VOLATILE_CAPACITY: usize = 64;

/// Whether a pending connection whose request was last sent at `last_request_at` should send it
/// again at time `now`: a resync period or more has passed.
pub fn request_due(last_request_at: u64, now: u64) -> (r: bool)
    ensures
        r == (now >= last_request_at && now - last_request_at >= RESYNC_PERIOD),
{
    now >= last_request_at && now - last_request_at >= RESYNC_PERIOD
}

/// State of a connection.
#[derive(Clone, Copy, Debug, PartialEq, Eq, Structural)]
pub enum ConnectionStatus {
    /// Normal functioning state.
    Open,
    /// Connection is being established.
    Pending,
    /// Connection has been deemed lost, due to lack of received network traffic.
    Lost,
    /// Connection has been explicitly closed (or refused) by the other end.
    Closed,
}

/// A synchronized datagram that awaits acknowledgement.
#[derive(Debug)]
pub struct Unacked {
    /// Index of the datagram.
    pub index: u8,
    /// Time the datagram was sent.
    pub sent_at: u64,
    /// The reliable parcels it carried.
    pub parcels: Vec<Vec<u8>>,
    /// The stream bytes it carried.
    pub stream: Vec<u8>,
}

/// Answer of the other end to a connection request.
#[derive(Clone, Copy, Debug, PartialEq, Eq, Structural)]
pub enum Answer {
    /// The request was accepted under the given connection id.
    Accepted(ConnectionId),
    /// The request was refused.
    Rejected,
    /// An answer of the right kind, but for another request or malformed.
    Invalid,
    /// Not an answer to a connection request.
    Unrelated,
}

/// The byte contents of a queue of parcels.
pub open spec fn chunks(v: Seq<Vec<u8>>) -> Seq<Seq<u8>> {
    v.map_values(|x: Vec<u8>| x@)
}

/// The byte contents of a queue of received parcels with their preludes.
pub open spec fn received(v: Seq<(Vec<u8>, [u8; 4])>) -> Seq<(Seq<u8>, Seq<u8>)> {
    v.map_values(|x: (Vec<u8>, [u8; 4])| (x.0@, x.1@))
}

/// What answer the datagram `s` is to the request with handshake id `hid`.
///
/// A reject is a connectionless closing datagram; an accept is a connected, unsynchronized
/// datagram whose two parcel bytes repeat its connection id. Either matches only when its
/// prelude holds the handshake id.
pub open spec fn spec_classify_answer(hid: u32, s: Seq<u8>) -> Answer {
    match spec_read_header(s) {
        Err(_) => Answer::Unrelated,
        Ok(h) => if h.connection_id == 0 {
            if h.signal.flag(Signal::ConnectionClosed) {
                if h.prelude@ == spec_u32_to_le_bytes(hid) {
                    Answer::Rejected
                } else {
                    Answer::Invalid
                }
            } else {
                Answer::Unrelated
            }
        } else if !h.signal.flag(Signal::Synchronized) && !h.signal.flag(Signal::ConnectionClosed)
            && h.signal.parcel_count() == 2 && h.signal.stream_count() == 0 {
            if h.prelude@ == spec_u32_to_le_bytes(hid) && s.subrange(24, 26) == spec_u16_to_le_bytes(
                h.connection_id,
            ) {
                Answer::Accepted(h.connection_id)
            } else {
                Answer::Invalid
            }
        } else {
            Answer::Unrelated
        },
    }
}

/// Decide what answer the datagram is to the request with handshake id `handshake_id`.
pub fn classify_answer(handshake_id: u32, datagram: &[u8]) -> (r: Answer)
    ensures
        r == spec_classify_answer(handshake_id, datagram@),
        r matches Answer::Accepted(id) ==> id != 0 && parse_header(datagram@).prelude@
            == spec_u32_to_le_bytes(handshake_id),
{
    let header = match read_header(datagram) {
        Ok(h) => h,
        Err(_) => return Answer::Unrelated,
    };
    let hid = u32_to_le_bytes(handshake_id);
    let matches = header.prelude[0] == hid[0] && header.prelude[1] == hid[1] && header.prelude[2]
        == hid[2] && header.prelude[3] == hid[3];
    proof {
        vstd::bytes::lemma_auto_spec_u32_to_from_le_bytes();
        vstd::bytes::lemma_auto_spec_u16_to_from_le_bytes();
        if matches {
            assert(header.prelude@ =~= hid@);
        } else {
            assert(header.prelude@ != hid@);
        }
    }
    if header.connection_id == 0 {
        if header.signal.is_signal_set(Signal::ConnectionClosed) {
            if matches {
                Answer::Rejected
            } else {
                Answer::Invalid
            }
        } else {
            Answer::Unrelated
        }
    } else if !header.signal.is_signal_set(Signal::Synchronized) && !header.signal.is_signal_set(
        Signal::ConnectionClosed,
    ) && header.signal.get_parcel_byte_count() == 2 && header.signal.get_stream_byte_count() == 0 {
        let id = u16_to_le_bytes(header.connection_id);
        let same_id = datagram[24] == id[0] && datagram[25] == id[1];
        proof {
            if same_id {
                assert(datagram@.subrange(24, 26) =~= id@);
            } else {
                assert(datagram@.subrange(24, 26) != id@);
            }
        }
        if matches && same_id {
            Answer::Accepted(header.connection_id)
        } else {
            Answer::Invalid
        }
    } else {
        Answer::Unrelated
    }
}

/// The reliable parcels carried by the datagrams `v`, oldest first.
pub open spec fn carried(v: Seq<Unacked>) -> Seq<Seq<u8>>
    decreases v.len(),
{
    if v.len() == 0 {
        Seq::empty()
    } else {
        carried(v.drop_last()) + chunks(v.last().parcels@)
    }
}

/// The reliable parcels carried by those datagrams of `v` that the header `h` acknowledges.
pub open spec fn acked_parcels(v: Seq<Unacked>, h: PacketHeader) -> Seq<Seq<u8>>
    decreases v.len(),
{
    if v.len() == 0 {
        Seq::empty()
    } else {
        (if h.spec_acknowledges(v[0].index) {
            chunks(v[0].parcels@)
        } else {
            Seq::empty()
        }) + acked_parcels(v.drop_first(), h)
    }
}

proof fn lemma_carried_first(v: Seq<Unacked>)
    requires
        v.len() > 0,
    ensures
        carried(v) == chunks(v[0].parcels@) + carried(v.drop_first()),
    decreases v.len(),
{
    if v.len() == 1 {
        assert(v.drop_last() =~= Seq::<Unacked>::empty());
        assert(v.drop_first() =~= Seq::<Unacked>::empty());
        assert(carried(v) =~= chunks(v[0].parcels@) + carried(v.drop_first()));
    } else {
        lemma_carried_first(v.drop_last());
        assert(v.drop_first().drop_last() =~= v.drop_last().drop_first());
        assert(v.drop_first().last() == v.last());
        assert(v.drop_last()[0] == v[0]);
        assert(carried(v) =~= chunks(v[0].parcels@) + carried(v.drop_first()));
    }
}

/// Whether every parcel of the datagrams `v` fits in one packet.
pub open spec fn parcels_fit(v: Seq<Unacked>) -> bool {
    forall|i: int, j: int|
        0 <= i < v.len() && 0 <= j < v[i].parcels@.len() ==> #[trigger] v[i].parcels@[j]@.len()
            <= PAYLOAD_SIZE
}

/// Whether at most one of the datagrams `v` carries stream bytes.
pub open spec fn one_stream(v: Seq<Unacked>) -> bool {
    forall|i: int, j: int|
        0 <= i < v.len() && 0 <= j < v.len() && #[trigger] v[i].stream@.len() > 0
            && #[trigger] v[j].stream@.len() > 0 ==> i == j
}

proof fn lemma_remove_keeps(v: Seq<Unacked>, k: int)
    requires
        0 <= k < v.len(),
        parcels_fit(v),
        one_stream(v),
    ensures
        parcels_fit(v.remove(k)),
        one_stream(v.remove(k)),
{
    let w = v.remove(k);
    assert forall|i: int, j: int| 0 <= i < w.len() && 0 <= j < w[i].parcels@.len() implies #[trigger] w[i].parcels@[j]@.len() <= PAYLOAD_SIZE by {
        if i < k {
            assert(w[i] == v[i]);
        } else {
            assert(w[i] == v[i + 1]);
        }
    }
    assert forall|i: int, j: int|
        0 <= i < w.len() && 0 <= j < w.len() && #[trigger] w[i].stream@.len() > 0
            && #[trigger] w[j].stream@.len() > 0 implies i == j by {
        let a = if i < k { i } else { i + 1 };
        let b = if j < k { j } else { j + 1 };
        assert(w[i] == v[a]);
        assert(w[j] == v[b]);
        assert(v[a].stream@.len() > 0 && v[b].stream@.len() > 0);
    }
}

/// Connection context.
///
/// Used for processing incoming and building outgoing datagrams.
pub struct Context<P: Parcel> {
    connection_id: ConnectionId,
    status: ConnectionStatus,
    handshake_id: u32,
    next_tx_index: ParcelIndex,
    rx_mask: AckMask,
    ack_pending: bool,
    unacked: Vec<Unacked>,
    reliable: Vec<Vec<u8>>,
    volatile: Vec<Vec<u8>>,
    stream_out: Vec<u8>,
    inbound_parcels: Vec<(Vec<u8>, [u8; 4])>,
    inbound_stream: Vec<u8>,
    last_sent_at: u64,
    last_recv_at: u64,
    _message_type: PhantomData<P>,
}

impl<P: Parcel> Context<P> {
    pub closed spec fn spec_status(&self) -> ConnectionStatus {
        self.status
    }

    pub closed spec fn spec_connection_id(&self) -> ConnectionId {
        self.connection_id
    }

    pub closed spec fn spec_handshake_id(&self) -> u32 {
        self.handshake_id
    }

    /// Index the next synchronized datagram gets.
    pub closed spec fn spec_next_tx_index(&self) -> u8 {
        self.next_tx_index.0
    }

    /// Window of the indices received from the other end.
    pub closed spec fn spec_rx_mask(&self) -> AckMask {
        self.rx_mask
    }

    /// Whether a received synchronized datagram still has to be acknowledged.
    pub closed spec fn spec_ack_pending(&self) -> bool {
        self.ack_pending
    }

    /// Indices of the synchronized datagrams that await acknowledgement, oldest first.
    pub closed spec fn spec_unacked(&self) -> Seq<u8> {
        self.unacked@.map_values(|u: Unacked| u.index)
    }

    /// Reliable parcels waiting to be sent, in order.
    pub closed spec fn spec_reliable(&self) -> Seq<Seq<u8>> {
        chunks(self.reliable@)
    }

    /// Volatile parcels waiting to be sent, in order.
    pub closed spec fn spec_volatile(&self) -> Seq<Seq<u8>> {
        chunks(self.volatile@)
    }

    /// Stream bytes waiting to be sent.
    pub closed spec fn spec_stream_out(&self) -> Seq<u8> {
        self.stream_out@
    }

    /// Received parcel bytes with their preludes, in order of arrival.
    pub closed spec fn spec_inbound_parcels(&self) -> Seq<(Seq<u8>, Seq<u8>)> {
        received(self.inbound_parcels@)
    }

    /// Received stream bytes not yet read.
    pub closed spec fn spec_inbound_stream(&self) -> Seq<u8> {
        self.inbound_stream@
    }

    pub closed spec fn spec_last_sent_at(&self) -> u64 {
        self.last_sent_at
    }

    pub closed spec fn spec_last_recv_at(&self) -> u64 {
        self.last_recv_at
    }

    /// The datagrams awaiting acknowledgement, oldest first.
    pub closed spec fn spec_unacked_entries(&self) -> Seq<Unacked> {
        self.unacked@
    }

    /// Reliable parcels sent or to be sent and not yet acknowledged: those of the datagrams
    /// awaiting acknowledgement, oldest first, then the queue.
    pub closed spec fn spec_outstanding(&self) -> Seq<Seq<u8>> {
        carried(self.unacked@) + chunks(self.reliable@)
    }

    /// Whether some datagram awaiting acknowledgement carries stream bytes.
    pub closed spec fn spec_stream_in_flight(&self) -> bool {
        exists|i: int| 0 <= i < self.unacked@.len() && self.unacked@[i].stream@.len() > 0
    }

    /// Well-formedness: at most 64 datagrams await acknowledgement, queued parcels fit in one
    /// packet, and at most one datagram in flight carries stream bytes.
    pub closed spec fn wf(&self) -> bool {
        &&& self.unacked@.len() <= ACK_WINDOW_CAPACITY
        &&& self.volatile@.len() <= VOLATILE_CAPACITY
        &&& self.status == ConnectionStatus::Open ==> self.connection_id != 0
        &&& forall|i: int|
            0 <= i < self.reliable@.len() ==> #[trigger] self.reliable@[i]@.len() <= PAYLOAD_SIZE
        &&& forall|i: int|
            0 <= i < self.volatile@.len() ==> #[trigger] self.volatile@[i]@.len() <= PAYLOAD_SIZE
        &&& parcels_fit(self.unacked@)
        &&& one_stream(self.unacked@)
    }

    /// Construct a pending connection context for the request with the given handshake id.
    ///
    /// A pending connection is not yet established and as such can not be used to transmit data
    /// between endpoints.
    pub fn pending(handshake_id: u32) -> (r: Self)
        ensures
            r.wf(),
            r.spec_status() == ConnectionStatus::Pending,
            r.spec_connection_id() == 0,
            r.spec_handshake_id() == handshake_id,
            r.spec_unacked().len() == 0,
            r.spec_reliable().len() == 0,
            r.spec_volatile().len() == 0,
            r.spec_stream_out().len() == 0,
            r.spec_inbound_parcels().len() == 0,
            r.spec_inbound_stream().len() == 0,
    {
        Self {
            connection_id: 0,
            status: ConnectionStatus::Pending,
            handshake_id,
            next_tx_index: ParcelIndex(1),
            rx_mask: AckMask::saturated(ParcelIndex(0)),
            ack_pending: false,
            unacked: Vec::new(),
            reliable: Vec::new(),
            volatile: Vec::new(),
            stream_out: Vec::new(),
            inbound_parcels: Vec::new(),
            inbound_stream: Vec::new(),
            last_sent_at: 0,
            last_recv_at: 0,
            _message_type: PhantomData,
        }
    }

    /// Construct an accepted connection context with provided id, at time `now`.
    ///
    /// The first synchronized datagram gets index 1; index 0 and the 64 before it count as
    /// received from the other end.
    pub fn accept(connection_id: ConnectionId, now: u64) -> (r: Self)
        requires
            connection_id != 0,
        ensures
            r.wf(),
            r.spec_status() == ConnectionStatus::Open,
            r.spec_connection_id() == connection_id,
            r.spec_next_tx_index() == 1,
            r.spec_rx_mask() == AckMask::saturated_spec(0),
            !r.spec_ack_pending(),
            r.spec_unacked().len() == 0,
            r.spec_reliable().len() == 0,
            r.spec_volatile().len() == 0,
            r.spec_stream_out().len() == 0,
            r.spec_inbound_parcels().len() == 0,
            r.spec_inbound_stream().len() == 0,
            r.spec_last_sent_at() == now,
            r.spec_last_recv_at() == now,
    {
        Self {
            connection_id,
            status: ConnectionStatus::Open,
            handshake_id: 0,
            next_tx_index: ParcelIndex(1),
            rx_mask: AckMask::saturated(ParcelIndex(0)),
            ack_pending: false,
            unacked: Vec::new(),
            reliable: Vec::new(),
            volatile: Vec::new(),
            stream_out: Vec::new(),
            inbound_parcels: Vec::new(),
            inbound_stream: Vec::new(),
            last_sent_at: now,
            last_recv_at: now,
            _message_type: PhantomData,
        }
    }

    /// Get the current status (state) of the connection.
    #[inline]
    pub fn status(&self) -> (r: ConnectionStatus)
        ensures
            r == self.spec_status(),
    {
        self.status
    }

    /// Check whether the connection is open.
    #[inline]
    pub fn is_open(&self) -> (r: bool)
        ensures
            r == (self.spec_status() == ConnectionStatus::Open),
    {
        self.status == ConnectionStatus::Open
    }

    /// Get the connection id if the connection has one.
    ///
    /// A pending connection does not have a valid id yet.
    pub fn connection_id(&self) -> (r: Option<ConnectionId>)
        ensures
            r == (if self.spec_connection_id() == 0 {
                None
            } else {
                Some(self.spec_connection_id())
            }),
    {
        if self.connection_id == 0 {
            None
        } else {
            Some(self.connection_id)
        }
    }

    /// The handshake id of the connection request.
    pub fn handshake_id(&self) -> (r: u32)
        ensures
            r == self.spec_handshake_id(),
    {
        self.handshake_id
    }

    /// Number of synchronized datagrams awaiting acknowledgement.
    pub fn unacked_len(&self) -> (r: usize)
        ensures
            r == self.spec_unacked().len(),
    {
        self.unacked.len()
    }

    /// Number of stream bytes received and not yet read.
    pub fn pending_incoming_stream_bytes(&self) -> (r: usize)
        ensures
            r == self.spec_inbound_stream().len(),
    {
        self.inbound_stream.len()
    }
}

impl<P: Parcel> Context<P> {
    /// Whether everything but the parcel and stream queues is the same in `self` and `other`.
    pub open spec fn same_core(&self, other: &Self) -> bool {
        &&& self.spec_connection_id() == other.spec_connection_id()
        &&& self.spec_status() == other.spec_status()
        &&& self.spec_handshake_id() == other.spec_handshake_id()
        &&& self.spec_next_tx_index() == other.spec_next_tx_index()
        &&& self.spec_rx_mask() == other.spec_rx_mask()
        &&& self.spec_ack_pending() == other.spec_ack_pending()
        &&& self.spec_unacked_entries() == other.spec_unacked_entries()
        &&& self.spec_unacked() == other.spec_unacked()
        &&& self.spec_last_sent_at() == other.spec_last_sent_at()
        &&& self.spec_last_recv_at() == other.spec_last_recv_at()
    }

    /// Whether the outgoing queues are the same in `self` and `other`.
    pub open spec fn same_outgoing(&self, other: &Self) -> bool {
        &&& self.spec_reliable() == other.spec_reliable()
        &&& self.spec_volatile() == other.spec_volatile()
        &&& self.spec_stream_out() == other.spec_stream_out()
    }

    /// Whether the incoming queues are the same in `self` and `other`.
    pub open spec fn same_incoming(&self, other: &Self) -> bool {
        &&& self.spec_inbound_parcels() == other.spec_inbound_parcels()
        &&& self.spec_inbound_stream() == other.spec_inbound_stream()
    }

    /// Serialize a parcel into a new byte vector.
    fn serialize(parcel: &P) -> (r: Vec<u8>)
        ensures
            r@ == parcel.spec_bytes(),
    {
        let n = parcel.byte_count();
        let mut bytes: Vec<u8> = vec![0u8; n];
        parcel.to_bytes(bytes.as_mut_slice());
        assert(bytes@ =~= parcel.spec_bytes());
        bytes
    }

    /// Queue provided parcel to be included in built packets.
    ///
    /// Reliable parcels are guaranteed to be delivered as long as the connection is in a valid
    /// state. The order of delivery is not guaranteed however, for order-dependent functionality
    /// use streams.
    pub fn push_reliable_parcel(&mut self, parcel: P) -> (r: Result<(), ConnectionError>)
        requires
            old(self).wf(),
        ensures
            final(self).wf(),
            final(self).same_core(old(self)),
            final(self).same_incoming(old(self)),
            final(self).spec_volatile() == old(self).spec_volatile(),
            final(self).spec_stream_out() == old(self).spec_stream_out(),
            old(self).spec_status() != ConnectionStatus::Open ==> r == Err::<(), ConnectionError>(
                ConnectionError::InvalidState,
            ) && final(self).spec_reliable() == old(self).spec_reliable(),
            old(self).spec_status() == ConnectionStatus::Open && parcel.spec_bytes().len()
                > PAYLOAD_SIZE ==> r == Err::<(), ConnectionError>(
                ConnectionError::Serialization(SerializationError::BufferOverflow),
            ) && final(self).spec_reliable() == old(self).spec_reliable(),
            old(self).spec_status() == ConnectionStatus::Open && parcel.spec_bytes().len()
                <= PAYLOAD_SIZE ==> r is Ok && final(self).spec_reliable() == old(self).spec_reliable().push(parcel.spec_bytes()),
    {
        if self.status != ConnectionStatus::Open {
            return Err(ConnectionError::InvalidState);
        }
        if parcel.byte_count() > PAYLOAD_SIZE {
            return Err(ConnectionError::Serialization(SerializationError::BufferOverflow));
        }
        let bytes = Self::serialize(&parcel);
        self.reliable.push(bytes);
        assert(chunks(self.reliable@) =~= chunks(old(self).reliable@).push(parcel.spec_bytes()));
        Ok(())
    }

    /// Queue provided parcel to be included in built packets.
    ///
    /// Volatile parcels are delivered in a best-effort manner, without re-transmission; when
    /// 64 of them wait, the oldest is dropped.
    pub fn push_volatile_parcel(&mut self, parcel: P) -> (r: Result<(), ConnectionError>)
        requires
            old(self).wf(),
        ensures
            final(self).wf(),
            final(self).same_core(old(self)),
            final(self).same_incoming(old(self)),
            final(self).spec_reliable() == old(self).spec_reliable(),
            final(self).spec_stream_out() == old(self).spec_stream_out(),
            old(self).spec_status() != ConnectionStatus::Open ==> r == Err::<(), ConnectionError>(
                ConnectionError::InvalidState,
            ) && final(self).spec_volatile() == old(self).spec_volatile(),
            old(self).spec_status() == ConnectionStatus::Open && parcel.spec_bytes().len()
                > PAYLOAD_SIZE ==> r == Err::<(), ConnectionError>(
                ConnectionError::Serialization(SerializationError::BufferOverflow),
            ) && final(self).spec_volatile() == old(self).spec_volatile(),
            old(self).spec_status() == ConnectionStatus::Open && parcel.spec_bytes().len()
                <= PAYLOAD_SIZE ==> r is Ok && final(self).spec_volatile() == (if old(self).spec_volatile().len() == VOLATILE_CAPACITY {
                old(self).spec_volatile().drop_first()
            } else {
                old(self).spec_volatile()
            }).push(parcel.spec_bytes()),
    {
        if self.status != ConnectionStatus::Open {
            return Err(ConnectionError::InvalidState);
        }
        if parcel.byte_count() > PAYLOAD_SIZE {
            return Err(ConnectionError::Serialization(SerializationError::BufferOverflow));
        }
        let bytes = Self::serialize(&parcel);
        if self.volatile.len() == VOLATILE_CAPACITY {
            self.volatile.remove(0);
            assert(chunks(self.volatile@) =~= chunks(old(self).volatile@).drop_first());
        }
        let ghost before = chunks(self.volatile@);
        self.volatile.push(bytes);
        assert(chunks(self.volatile@) =~= before.push(parcel.spec_bytes()));
        Ok(())
    }

    /// Write a given slice of bytes to the connection stream.
    pub fn write_bytes_to_stream(&mut self, bytes: &[u8]) -> (r: Result<(), ConnectionError>)
        requires
            old(self).wf(),
        ensures
            final(self).wf(),
            final(self).same_core(old(self)),
            final(self).same_incoming(old(self)),
            final(self).spec_reliable() == old(self).spec_reliable(),
            final(self).spec_volatile() == old(self).spec_volatile(),
            old(self).spec_status() != ConnectionStatus::Open ==> r == Err::<(), ConnectionError>(
                ConnectionError::InvalidState,
            ) && final(self).spec_stream_out() == old(self).spec_stream_out(),
            old(self).spec_status() == ConnectionStatus::Open ==> r is Ok && final(self).spec_stream_out() == old(self).spec_stream_out() + bytes@,
    {
        if self.status != ConnectionStatus::Open {
            return Err(ConnectionError::InvalidState);
        }
        append_bytes(&mut self.stream_out, bytes);
        Ok(())
    }

    /// Write a given byte-serializable item to the connection stream.
    ///
    /// # Returns
    /// Number of bytes written.
    pub fn write_item_to_stream<B: ByteSerialize>(&mut self, item: &B) -> (r: Result<usize, ConnectionError>)
        requires
            old(self).wf(),
        ensures
            final(self).wf(),
            final(self).same_core(old(self)),
            final(self).same_incoming(old(self)),
            final(self).spec_reliable() == old(self).spec_reliable(),
            final(self).spec_volatile() == old(self).spec_volatile(),
            old(self).spec_status() != ConnectionStatus::Open ==> r == Err::<usize, ConnectionError>(
                ConnectionError::InvalidState,
            ) && final(self).spec_stream_out() == old(self).spec_stream_out(),
            old(self).spec_status() == ConnectionStatus::Open ==> r == Ok::<usize, ConnectionError>(
                item.spec_bytes().len() as usize,
            ) && final(self).spec_stream_out() == old(self).spec_stream_out() + item.spec_bytes(),
    {
        if self.status != ConnectionStatus::Open {
            return Err(ConnectionError::InvalidState);
        }
        let n = item.byte_count();
        let mut bytes: Vec<u8> = vec![0u8; n];
        item.to_bytes(bytes.as_mut_slice());
        assert(bytes@ =~= item.spec_bytes());
        append_bytes(&mut self.stream_out, bytes.as_slice());
        Ok(n)
    }

    /// Read received stream bytes into the provided buffer, as many as fit.
    ///
    /// # Returns
    /// Number of bytes read.
    pub fn read_from_stream(&mut self, buffer: &mut [u8]) -> (r: Result<usize, ConnectionError>)
        requires
            old(self).wf(),
        ensures
            final(self).wf(),
            final(self).same_core(old(self)),
            final(self).same_outgoing(old(self)),
            final(self).spec_inbound_parcels() == old(self).spec_inbound_parcels(),
            r matches Ok(n) && n == (if old(buffer)@.len() < old(self).spec_inbound_stream().len() {
                old(buffer)@.len()
            } else {
                old(self).spec_inbound_stream().len()
            }) && final(buffer)@ == old(self).spec_inbound_stream().take(n as int) + old(buffer)@.skip(n as int) && final(self).spec_inbound_stream() == old(self).spec_inbound_stream().skip(n as int),
    {
        let n = if buffer.len() < self.inbound_stream.len() {
            buffer.len()
        } else {
            self.inbound_stream.len()
        };
        let head = slice_subrange(self.inbound_stream.as_slice(), 0, n);
        copy_into(buffer, 0, head);
        let rest = self.inbound_stream.split_off(n);
        self.inbound_stream = rest;
        assert(buffer@ =~= old(self).inbound_stream@.take(n as int) + old(buffer)@.skip(n as int));
        Ok(n)
    }

    /// Get the next received parcel.
    ///
    /// Includes the data prelude from the network packet that the parcel was transmitted with.
    /// The bytes of a parcel that fails to deserialize are discarded with the rest of the
    /// parcel segment they came in.
    pub fn pop_parcel(&mut self) -> (r: Result<(P, [u8; 4]), ConnectionError>)
        requires
            old(self).wf(),
        ensures
            final(self).wf(),
            final(self).same_core(old(self)),
            final(self).same_outgoing(old(self)),
            final(self).spec_inbound_stream() == old(self).spec_inbound_stream(),
            old(self).spec_inbound_parcels().len() == 0 ==> r == Err::<(P, [u8; 4]), ConnectionError>(
                ConnectionError::NoPendingParcels,
            ) && final(self).spec_inbound_parcels() == old(self).spec_inbound_parcels(),
            old(self).spec_inbound_parcels().len() > 0 ==> {
                let (bytes, prelude) = old(self).spec_inbound_parcels()[0];
                let rest = old(self).spec_inbound_parcels().drop_first();
                &&& r matches Ok((v, pre)) ==> {
                    &&& pre@ == prelude
                    &&& v.spec_bytes().len() <= bytes.len()
                    &&& final(self).spec_inbound_parcels() == if v.spec_bytes().len()
                        < bytes.len() {
                        seq![(bytes.skip(v.spec_bytes().len() as int), prelude)] + rest
                    } else {
                        rest
                    }
                }
                &&& r matches Err(e) ==> e is Serialization && final(self).spec_inbound_parcels()
                    == rest
                &&& forall|v: P|
                    #![trigger v.spec_bytes()]
                    v.spec_bytes().len() <= bytes.len() && bytes.take(v.spec_bytes().len() as int)
                        == v.spec_bytes() ==> (r matches Ok((w, _)) && w == v)
            },
    {
        if self.inbound_parcels.len() == 0 {
            return Err(ConnectionError::NoPendingParcels);
        }
        let (bytes, prelude) = self.inbound_parcels.remove(0);
        proof {
            assert(received(self.inbound_parcels@) =~= received(old(self).inbound_parcels@).drop_first());
        }
        match P::from_bytes(bytes.as_slice()) {
            Ok((value, n)) => {
                if n < bytes.len() {
                    let mut head = bytes;
                    let tail = head.split_off(n);
                    let ghost before = received(self.inbound_parcels@);
                    self.inbound_parcels.insert(0, (tail, prelude));
                    assert(received(self.inbound_parcels@) =~= seq![(tail@, prelude@)] + before);
                }
                Ok((value, prelude))
            },
            Err(e) => Err(ConnectionError::Serialization(e)),
        }
    }
}

/// Whether the first 24 bytes of `s` are the header `h`, and `s` holds `n` bytes of the packet it
/// starts.
pub open spec fn packet_starts(s: Seq<u8>, h: PacketHeader, n: int) -> bool {
    &&& 24 <= n <= s.len()
    &&& s.take(24) == header_bytes(h)
    &&& n == 24 + h.payload_count()
}

/// A packet whose first 24 bytes are a valid header reads back as that header.
pub proof fn lemma_packet_reads_back(s: Seq<u8>, h: PacketHeader, n: int)
    requires
        packet_starts(s, h, n),
        h.spec_valid(),
        h.signal.reserved_clear(),
    ensures
        spec_read_header(s.take(n)) == Ok::<PacketHeader, crate::packet::HeaderError>(h),
        parse_header(s) == h,
{
    let rest = s.subrange(24, n);
    assert(s.take(n) =~= header_bytes(h) + rest);
    lemma_header_round_trip(h, rest);
    lemma_header_round_trip(h, s.skip(24));
    assert(s =~= header_bytes(h) + s.skip(24));
}

/// Write `data` at `offset` of the payload of `buffer`, keeping its header bytes.
fn put_payload(buffer: &mut [u8], data: &[u8], offset: usize, Ghost(head): Ghost<Seq<u8>>)
    requires
        HEADER_SIZE + offset + data@.len() <= old(buffer)@.len(),
        old(buffer)@.take(24) == head,
    ensures
        final(buffer)@.len() == old(buffer)@.len(),
        final(buffer)@.take(24) == head,
        final(buffer)@.subrange(24 + offset, 24 + offset + data@.len()) == data@,
        forall|i: int| 24 <= i < 24 + offset ==> final(buffer)@[i] == old(buffer)@[i],
{
    crate::packet::write_data(buffer, data, offset);
    assert(buffer@.take(24) =~= old(buffer)@.take(24));
    assert(buffer@.subrange(24 + offset, 24 + offset + data@.len()) =~= data@);
}

/// Write the payload of a packet after its header: the reliable parcels, the volatile parcels,
/// then the stream bytes.
fn write_payload(
    buffer: &mut [u8],
    parcels: &Vec<Vec<u8>>,
    volatile: &Vec<Vec<u8>>,
    stream: &Vec<u8>,
    Ghost(head): Ghost<Seq<u8>>,
)
    requires
        old(buffer)@.take(24) == head,
        24 + seq_len_sum(chunks(parcels@)) + seq_len_sum(chunks(volatile@)) + stream@.len() <= old(buffer)@.len(),
    ensures
        final(buffer)@.len() == old(buffer)@.len(),
        final(buffer)@.take(24) == head,
        final(buffer)@.subrange(24, 24 + seq_len_sum(chunks(parcels@))) == flat(chunks(parcels@)),
        final(buffer)@.subrange(
            24 + seq_len_sum(chunks(parcels@)) + seq_len_sum(chunks(volatile@)),
            24 + seq_len_sum(chunks(parcels@)) + seq_len_sum(chunks(volatile@)) + stream@.len(),
        ) == stream@,
{
    proof {
        lemma_len_sum_nonneg(chunks(volatile@));
        lemma_len_sum_nonneg(chunks(parcels@));
    }
    let ghost used = seq_len_sum(chunks(parcels@)) + seq_len_sum(chunks(volatile@));
    let n = buffer.len();
    let mut offset: usize = 0;
    let mut i: usize = 0;
    while i < parcels.len()
        invariant
            n == buffer@.len(),
            buffer@.len() == old(buffer)@.len(),
            buffer@.take(24) == head,
            24 + used + stream@.len() <= buffer@.len(),
            0 <= i <= parcels@.len(),
            offset == seq_len_sum(chunks(parcels@).take(i as int)),
            used == seq_len_sum(chunks(parcels@)) + seq_len_sum(chunks(volatile@)),
            seq_len_sum(chunks(volatile@)) >= 0,
            buffer@.subrange(24, 24 + offset) == flat(chunks(parcels@).take(i as int)),
        decreases parcels@.len() - i,
    {
        proof {
            lemma_len_sum_prefix(chunks(parcels@), i as int);
            assert(chunks(parcels@)[i as int] == parcels@[i as int]@);
        }
        let ghost prefix = buffer@.subrange(24, 24 + offset);
        put_payload(buffer, parcels[i].as_slice(), offset, Ghost(head));
        proof {
            assert(buffer@.subrange(24, 24 + offset + parcels@[i as int]@.len()) =~= prefix + parcels@[i as int]@);
        }
        offset = offset + parcels[i].len();
        i = i + 1;
        proof {
            assert(chunks(parcels@).take(i as int) =~= chunks(parcels@).take(i - 1).push(parcels@[i - 1]@));
            lemma_len_sum_push(chunks(parcels@).take(i - 1), parcels@[i - 1]@);
            lemma_flat_push(chunks(parcels@).take(i - 1), parcels@[i - 1]@);
        }
    }
    assert(chunks(parcels@).take(i as int) =~= chunks(parcels@));
    assert(chunks(parcels@).take(0) =~= Seq::<Seq<u8>>::empty());
    let ghost placed = buffer@.subrange(24, 24 + offset);
    let ghost parcel_end = offset as int;
    proof {
        lemma_len_sum_nonneg(chunks(parcels@));
    }
    let mut j: usize = 0;
    while j < volatile.len()
        invariant
            n == buffer@.len(),
            buffer@.len() == old(buffer)@.len(),
            buffer@.take(24) == head,
            24 + used + stream@.len() <= buffer@.len(),
            0 <= j <= volatile@.len(),
            offset == seq_len_sum(chunks(parcels@)) + seq_len_sum(chunks(volatile@).take(j as int)),
            used == seq_len_sum(chunks(parcels@)) + seq_len_sum(chunks(volatile@)),
            parcel_end == seq_len_sum(chunks(parcels@)),
            0 <= parcel_end <= offset,
            24 + parcel_end <= buffer@.len(),
            buffer@.subrange(24, 24 + parcel_end) == placed,
            placed == flat(chunks(parcels@)),
        decreases volatile@.len() - j,
    {
        proof {
            lemma_len_sum_prefix(chunks(volatile@), j as int);
            assert(chunks(volatile@)[j as int] == volatile@[j as int]@);
        }
        let ghost before = buffer@;
        put_payload(buffer, volatile[j].as_slice(), offset, Ghost(head));
        proof {
            assert(buffer@.subrange(24, 24 + parcel_end) =~= before.subrange(24, 24 + parcel_end));
            lemma_len_sum_nonneg(chunks(volatile@).take(j as int));
        }
        offset = offset + volatile[j].len();
        j = j + 1;
        proof {
            assert(chunks(volatile@).take(j as int) =~= chunks(volatile@).take(j - 1).push(volatile@[j - 1]@));
            lemma_len_sum_push(chunks(volatile@).take(j - 1), volatile@[j - 1]@);
        }
    }
    assert(chunks(volatile@).take(j as int) =~= chunks(volatile@));
    let ghost before = buffer@;
    put_payload(buffer, stream.as_slice(), offset, Ghost(head));
    assert(buffer@.subrange(24, 24 + parcel_end) =~= before.subrange(24, 24 + parcel_end));
}

impl<P: Parcel> Context<P> {
    /// Whether some datagram awaiting acknowledgement carries stream bytes.
    fn has_stream_in_flight(&self) -> (r: bool)
        ensures
            r == self.spec_stream_in_flight(),
    {
        let mut i: usize = 0;
        while i < self.unacked.len()
            invariant
                i <= self.unacked@.len(),
                forall|j: int| 0 <= j < i ==> self.unacked@[j].stream@.len() == 0,
            decreases self.unacked@.len() - i,
        {
            if self.unacked[i].stream.len() > 0 {
                return true;
            }
            i = i + 1;
        }
        false
    }

    /// Take reliable parcels from the front of the queue while they fit in `capacity` bytes.
    fn take_reliable(&mut self, capacity: usize) -> (r: (Vec<Vec<u8>>, usize))
        requires
            old(self).wf(),
            capacity <= PAYLOAD_SIZE,
        ensures
            final(self).wf(),
            final(self).same_core(old(self)),
            final(self).same_incoming(old(self)),
            final(self).volatile@ == old(self).volatile@,
            final(self).stream_out@ == old(self).stream_out@,
            r.1 <= capacity,
            seq_len_sum(chunks(r.0@)) == r.1,
            chunks(r.0@) + chunks(final(self).reliable@) == chunks(old(self).reliable@),
            r.0@.len() + final(self).reliable@.len() == old(self).reliable@.len(),
            final(self).reliable@ == old(self).reliable@.skip(r.0@.len() as int),
            forall|i: int| 0 <= i < r.0@.len() ==> #[trigger] r.0@[i]@.len() <= PAYLOAD_SIZE,
            capacity == PAYLOAD_SIZE && old(self).reliable@.len() > 0 ==> r.0@.len() > 0,
    {
        let ghost start = *self;
        let mut parcels: Vec<Vec<u8>> = Vec::new();
        let mut used: usize = 0;
        proof {
            assert(chunks(parcels@) + chunks(self.reliable@) =~= chunks(start.reliable@));
            assert(start.reliable@.skip(0) =~= start.reliable@);
        }
        while self.reliable.len() > 0 && self.reliable[0].len() <= capacity - used
            invariant
                used <= capacity <= PAYLOAD_SIZE,
                forall|i: int|
                    0 <= i < self.reliable@.len() ==> #[trigger] self.reliable@[i]@.len() <= PAYLOAD_SIZE,
                forall|i: int| 0 <= i < parcels@.len() ==> #[trigger] parcels@[i]@.len() <= PAYLOAD_SIZE,
                seq_len_sum(chunks(parcels@)) == used,
                chunks(parcels@) + chunks(self.reliable@) == chunks(start.reliable@),
                parcels@.len() + self.reliable@.len() == start.reliable@.len(),
                self.reliable@ == start.reliable@.skip(parcels@.len() as int),
                self.same_core(&start),
                self.same_incoming(&start),
                self.volatile@ == start.volatile@,
                self.stream_out@ == start.stream_out@,
                start.wf(),
            decreases self.reliable@.len(),
        {
            let ghost queue = self.reliable@;
            let p = self.reliable.remove(0);
            used = used + p.len();
            let ghost before = parcels@;
            parcels.push(p);
            proof {
                assert(chunks(parcels@) =~= chunks(before).push(p@));
                lemma_len_sum_push(chunks(before), p@);
                assert(chunks(queue) =~= seq![p@] + chunks(self.reliable@));
                assert(chunks(parcels@) + chunks(self.reliable@) =~= chunks(before) + chunks(queue));
                assert(self.reliable@ =~= start.reliable@.skip(parcels@.len() as int));
            }
        }
        proof {
            if parcels@.len() == 0 {
                assert(self.reliable@ =~= start.reliable@);
                assert(chunks(parcels@) =~= Seq::<Seq<u8>>::empty());
            }
        }
        (parcels, used)
    }

    /// Take volatile parcels from the front of the queue while they fit in `room` bytes; the
    /// first that does not fit is dropped.
    fn take_volatile(&mut self, room: usize) -> (r: (Vec<Vec<u8>>, usize))
        requires
            old(self).wf(),
        ensures
            final(self).wf(),
            final(self).same_core(old(self)),
            final(self).same_incoming(old(self)),
            final(self).reliable@ == old(self).reliable@,
            final(self).stream_out@ == old(self).stream_out@,
            r.1 <= room,
            seq_len_sum(chunks(r.0@)) == r.1,
            room >= PAYLOAD_SIZE && old(self).volatile@.len() > 0 ==> r.1 >= old(self).volatile@[0]@.len()
                && r.0@.len() > 0,
    {
        let ghost start = *self;
        let mut volatile: Vec<Vec<u8>> = Vec::new();
        let mut used: usize = 0;
        let mut done = false;
        while !done && self.volatile.len() > 0
            invariant
                used <= room,
                self.volatile@.len() <= VOLATILE_CAPACITY,
                forall|i: int|
                    0 <= i < self.volatile@.len() ==> #[trigger] self.volatile@[i]@.len() <= PAYLOAD_SIZE,
                seq_len_sum(chunks(volatile@)) == used,
                self.reliable@ == start.reliable@,
                self.stream_out@ == start.stream_out@,
                self.same_core(&start),
                self.same_incoming(&start),
                start.wf(),
                volatile@.len() == 0 && !done ==> self.volatile@ == start.volatile@,
                room >= PAYLOAD_SIZE && volatile@.len() == 0 ==> !done,
                volatile@.len() > 0 ==> volatile@[0] == start.volatile@[0],
                volatile@.len() > 0 ==> seq_len_sum(chunks(volatile@)) >= volatile@[0]@.len(),
            decreases self.volatile@.len(),
        {
            if self.volatile[0].len() <= room - used {
                let ghost queue0 = self.volatile@;
                let p = self.volatile.remove(0);
                used = used + p.len();
                let ghost before = volatile@;
                volatile.push(p);
                proof {
                    assert(chunks(volatile@) =~= chunks(before).push(p@));
                    lemma_len_sum_push(chunks(before), p@);
                    lemma_len_sum_nonneg(chunks(before));
                    if before.len() > 0 {
                        assert(volatile@[0] == before[0]);
                    } else {
                        assert(queue0 == start.volatile@);
                        assert(volatile@[0] == p);
                    }
                }
            } else {
                proof {
                    if room >= PAYLOAD_SIZE && volatile@.len() == 0 {
                        assert(chunks(volatile@) =~= Seq::<Seq<u8>>::empty());
                    }
                }
                self.volatile.remove(0);
                done = true;
            }
        }
        (volatile, used)
    }

    /// Write a packet carrying the given parcels and stream bytes into `buffer`, and record it
    /// as awaiting acknowledgement when it is synchronized.
    fn emit(
        &mut self,
        buffer: &mut [u8],
        parcels: Vec<Vec<u8>>,
        volatile: &Vec<Vec<u8>>,
        stream: Vec<u8>,
        used: usize,
        synchronized: bool,
        now: u64,
    ) -> (n: usize)
        requires
            old(self).wf(),
            old(self).status == ConnectionStatus::Open,
            used == seq_len_sum(chunks(parcels@)) + seq_len_sum(chunks(volatile@)),
            seq_len_sum(chunks(parcels@)) >= 0,
            seq_len_sum(chunks(volatile@)) >= 0,
            used + stream@.len() <= PAYLOAD_SIZE,
            24 + used + stream@.len() <= old(buffer)@.len(),
            synchronized == (parcels@.len() > 0 || stream@.len() > 0),
            synchronized ==> old(self).unacked@.len() < ACK_WINDOW_CAPACITY,
            stream@.len() > 0 ==> !old(self).spec_stream_in_flight(),
            forall|i: int| 0 <= i < parcels@.len() ==> #[trigger] parcels@[i]@.len() <= PAYLOAD_SIZE,
        ensures
            final(self).wf(),
            final(self).same_incoming(old(self)),
            final(self).status == old(self).status,
            final(self).connection_id == old(self).connection_id,
            final(self).handshake_id == old(self).handshake_id,
            final(self).rx_mask == old(self).rx_mask,
            final(self).last_recv_at == old(self).last_recv_at,
            final(self).reliable@ == old(self).reliable@,
            final(self).volatile@ == old(self).volatile@,
            final(self).stream_out@ == old(self).stream_out@,
            final(self).last_sent_at == now,
            !final(self).ack_pending,
            n == 24 + used + stream@.len(),
            ({
                let h = parse_header(final(buffer)@);
                &&& packet_starts(final(buffer)@, h, n as int)
                &&& spec_read_header(final(buffer)@.take(n as int)) == Ok::<PacketHeader, crate::packet::HeaderError>(h)
                &&& h.connection_id == old(self).connection_id
                &&& h.ack_packet_id.0 == old(self).rx_mask.last_index.0
                &&& h.ack_packet_mask == old(self).rx_mask.mask
                &&& h.packet_id.0 == old(self).next_tx_index.0
                &&& h.signal.flag(Signal::Synchronized) == synchronized
                &&& h.signal.parcel_count() == used
                &&& final(buffer)@.subrange(24, 24 + seq_len_sum(chunks(parcels@))) == flat(chunks(parcels@))
                &&& final(buffer)@.subrange(24 + used, n as int) == stream@
            }),
            synchronized ==> final(self).spec_unacked() == old(self).spec_unacked().push(old(self).next_tx_index.0)
                && final(self).next_tx_index.0 == index_plus(old(self).next_tx_index.0, 1)
                && carried(final(self).unacked@) == carried(old(self).unacked@) + chunks(parcels@),
            !synchronized ==> final(self).unacked@ == old(self).unacked@
                && final(self).next_tx_index == old(self).next_tx_index,
    {
        let stream_len = stream.len();
        let ghost start = *self;
        let ghost stream_bytes = stream@;
        let signal = if synchronized {
            SignalBits::synchronized(used as u16, stream_len as u16)
        } else {
            SignalBits::volatile(used as u16)
        };
        let header = PacketHeader {
            connection_id: self.connection_id,
            packet_id: PacketIndex(self.next_tx_index.0),
            ack_packet_id: PacketIndex(self.rx_mask.last_index.0),
            ack_packet_mask: self.rx_mask.mask,
            signal,
            prelude: [0u8; 4],
        };
        write_header(buffer, header);
        proof {
            vstd::bytes::lemma_auto_spec_u16_to_from_le_bytes();
            vstd::bytes::lemma_auto_spec_u32_to_from_le_bytes();
            vstd::bytes::lemma_auto_spec_u64_to_from_le_bytes();
        }
        let ghost head = header_bytes(header);
        assert(buffer@.take(24) =~= head);
        write_payload(buffer, &parcels, &volatile, &stream, Ghost(head));
        let n = HEADER_SIZE + used + stream_len;
        proof {
            lemma_packet_reads_back(buffer@, header, n as int);
        }
        let ghost packed = chunks(parcels@);
        assert(buffer@.subrange(24 + used, n as int) == stream_bytes);
        if synchronized {
            let ghost before = self.unacked@;
            self.unacked.push(Unacked { index: self.next_tx_index.0, sent_at: now, parcels, stream });
            self.next_tx_index = self.next_tx_index.next();
            proof {
                assert(self.unacked@.map_values(|u: Unacked| u.index) =~= before.map_values(|u: Unacked| u.index).push(start.next_tx_index.0));
                assert(self.unacked@.drop_last() =~= before);
                assert(carried(self.unacked@) == carried(before) + packed);
            }
        }
        self.last_sent_at = now;
        self.ack_pending = false;
        n
    }

    /// Build the next packet that should be sent for this connection at time `now`.
    ///
    /// Reliable parcels and stream bytes go in a synchronized packet, which takes the next index
    /// and awaits acknowledgement; while 64 packets await it, none is built. Volatile parcels
    /// that fit join the packet; the first that does not fit is dropped. With nothing to carry,
    /// a header-only packet is built when an acknowledgement is owed or nothing was sent for a
    /// resync period; otherwise nothing is built and the result is 0.
    ///
    /// The connection must be in [`Open`](ConnectionStatus::Open) state.
    #[verifier::spinoff_prover]
    #[verifier::rlimit(80)]
    pub fn build_packet(&mut self, buffer: &mut [u8], now: u64) -> (r: Result<usize, BuildPacketError>)
        requires
            old(self).wf(),
        ensures
            final(self).wf(),
            final(self).same_incoming(old(self)),
            final(self).spec_status() == old(self).spec_status(),
            final(self).spec_connection_id() == old(self).spec_connection_id(),
            final(self).spec_rx_mask() == old(self).spec_rx_mask(),
            final(self).spec_last_recv_at() == old(self).spec_last_recv_at(),
            old(self).spec_status() != ConnectionStatus::Open ==> r == Err::<usize, BuildPacketError>(
                BuildPacketError::InvalidState,
            ) && final(self).same_core(old(self)) && final(self).same_outgoing(old(self))
                && final(buffer)@ == old(buffer)@,
            old(self).spec_status() == ConnectionStatus::Open && old(buffer)@.len() < 24 ==> r
                == Err::<usize, BuildPacketError>(BuildPacketError::InsufficientBuffer) && final(self).same_core(old(self))
                && final(self).same_outgoing(old(self)) && final(buffer)@ == old(buffer)@,
            old(self).spec_status() == ConnectionStatus::Open && old(buffer)@.len() >= 24 ==> r is Ok,
            r == Ok::<usize, BuildPacketError>(0) ==> final(buffer)@ == old(buffer)@
                && final(self).spec_unacked() == old(self).spec_unacked()
                && final(self).spec_next_tx_index() == old(self).spec_next_tx_index()
                && final(self).spec_reliable() == old(self).spec_reliable()
                && final(self).spec_stream_out() == old(self).spec_stream_out(),
            final(self).spec_outstanding() == old(self).spec_outstanding(),
            final(self).spec_reliable().len() <= old(self).spec_reliable().len(),
            final(self).spec_reliable() == old(self).spec_reliable().skip(
                old(self).spec_reliable().len() - final(self).spec_reliable().len(),
            ),
            final(self).spec_stream_out().len() <= old(self).spec_stream_out().len(),
            final(self).spec_stream_out() == old(self).spec_stream_out().skip(
                old(self).spec_stream_out().len() - final(self).spec_stream_out().len(),
            ),
            old(self).spec_unacked().len() >= ACK_WINDOW_CAPACITY ==> final(self).spec_reliable()
                == old(self).spec_reliable() && final(self).spec_stream_out() == old(self).spec_stream_out(),
            old(self).spec_stream_in_flight() ==> final(self).spec_stream_out() == old(self).spec_stream_out(),
            old(self).spec_status() == ConnectionStatus::Open && old(buffer)@.len() >= PACKET_SIZE
                && old(self).spec_unacked().len() < ACK_WINDOW_CAPACITY && (old(self).spec_reliable().len() > 0 || (
            old(self).spec_stream_out().len() > 0 && !old(self).spec_stream_in_flight())) ==> (r matches Ok(n) && n >= 24
                && parse_header(final(buffer)@).signal.flag(Signal::Synchronized)
                && (old(self).spec_reliable().len() > 0 ==> final(self).spec_reliable().len() < old(self).spec_reliable().len()
                    && n >= 24 + old(self).spec_reliable()[0].len())
                && (old(self).spec_reliable().len() == 0 ==> n > 24 && final(self).spec_stream_out().len()
                    < old(self).spec_stream_out().len())),
            old(self).spec_status() == ConnectionStatus::Open && old(buffer)@.len() >= 24 && (old(self).spec_ack_pending() || (
            now > old(self).spec_last_sent_at() && now - old(self).spec_last_sent_at() > RESYNC_PERIOD)) ==> (r matches Ok(n)
                && n >= 24),
            old(self).spec_status() == ConnectionStatus::Open && old(buffer)@.len() >= PACKET_SIZE && (old(self).spec_reliable().len()
                == 0 || old(self).spec_unacked().len() >= ACK_WINDOW_CAPACITY) && (old(self).spec_stream_out().len() == 0
                || old(self).spec_unacked().len() >= ACK_WINDOW_CAPACITY || old(self).spec_stream_in_flight())
                && old(self).spec_volatile().len() > 0 ==> (r matches Ok(n) && n >= 24 + old(self).spec_volatile()[0].len()),
            r matches Ok(n) ==> n == 0 || {
                let h = parse_header(final(buffer)@);
                &&& packet_starts(final(buffer)@, h, n as int)
                &&& spec_read_header(final(buffer)@.take(n as int)) == Ok::<PacketHeader, crate::packet::HeaderError>(h)
                &&& h.connection_id == old(self).spec_connection_id()
                &&& h.ack_packet_id.0 == old(self).spec_rx_mask().last_index.0
                &&& h.ack_packet_mask == old(self).spec_rx_mask().mask
                &&& h.packet_id.0 == old(self).spec_next_tx_index()
                &&& h.signal.flag(Signal::Synchronized) ==> {
                    &&& old(self).spec_unacked().len() < ACK_WINDOW_CAPACITY
                    &&& final(self).spec_unacked() == old(self).spec_unacked().push(old(self).spec_next_tx_index())
                    &&& final(self).spec_next_tx_index() == index_plus(old(self).spec_next_tx_index(), 1)
                }
                &&& !h.signal.flag(Signal::Synchronized) ==> {
                    &&& final(self).spec_unacked() == old(self).spec_unacked()
                    &&& final(self).spec_next_tx_index() == old(self).spec_next_tx_index()
                }
                &&& final(self).spec_last_sent_at() == now
                &&& !final(self).spec_ack_pending()
                &&& final(buffer)@.subrange(24, 24 + flat(old(self).spec_reliable().take(
                    old(self).spec_reliable().len() - final(self).spec_reliable().len(),
                )).len() as int) == flat(old(self).spec_reliable().take(
                    old(self).spec_reliable().len() - final(self).spec_reliable().len(),
                ))
                &&& final(buffer)@.subrange(24 + h.signal.parcel_count(), n as int) == old(self).spec_stream_out().take(
                    old(self).spec_stream_out().len() - final(self).spec_stream_out().len(),
                )
            },
    {
        if self.status != ConnectionStatus::Open {
            return Err(BuildPacketError::InvalidState);
        }
        if buffer.len() < HEADER_SIZE {
            return Err(BuildPacketError::InsufficientBuffer);
        }
        let ghost start = *self;
        let capacity: usize = if buffer.len() - HEADER_SIZE < PAYLOAD_SIZE {
            buffer.len() - HEADER_SIZE
        } else {
            PAYLOAD_SIZE
        };
        let can_sync = self.unacked.len() < ACK_WINDOW_CAPACITY;
        let (parcels, reliable_used) = if can_sync {
            self.take_reliable(capacity)
        } else {
            proof {
                assert(chunks(Seq::<Vec<u8>>::empty()) + chunks(self.reliable@) =~= chunks(self.reliable@));
                assert(seq_len_sum(chunks(Seq::<Vec<u8>>::empty())) == 0);
                assert(self.reliable@.skip(0) =~= self.reliable@);
            }
            (Vec::new(), 0)
        };
        let mut stream: Vec<u8> = Vec::new();
        if can_sync && !self.has_stream_in_flight() && self.stream_out.len() > 0 {
            let take = if capacity - reliable_used < self.stream_out.len() {
                capacity - reliable_used
            } else {
                self.stream_out.len()
            };
            let mut tail = self.stream_out.split_off(take);
            core::mem::swap(&mut tail, &mut self.stream_out);
            stream = tail;
            assert(start.stream_out@.skip(take as int) =~= self.stream_out@);
        }
        assert(start.stream_out@ =~= stream@ + self.stream_out@);
        let stream_len = stream.len();
        let (volatile, volatile_used) = self.take_volatile(capacity - reliable_used - stream_len);
        let used = reliable_used + volatile_used;
        proof {
            let k = start.reliable@.len() - self.reliable@.len();
            assert(chunks(parcels@) =~= chunks(start.reliable@).take(k));
            lemma_flat_len(chunks(parcels@));
            if parcels@.len() > 0 {
                lemma_len_sum_prefix(chunks(parcels@), 0);
                assert(chunks(parcels@).take(0) =~= Seq::<Seq<u8>>::empty());
                assert(chunks(parcels@)[0] == chunks(start.reliable@)[0]);
            } else {
                assert(chunks(parcels@) =~= Seq::<Seq<u8>>::empty());
            }
            if start.volatile@.len() > 0 {
                assert(start.spec_volatile()[0] == start.volatile@[0]@);
            }
            if start.reliable@.len() > 0 {
                assert(start.spec_reliable()[0] == start.reliable@[0]@);
            }
        }
        let synchronized = parcels.len() > 0 || stream_len > 0;
        proof {
            if !synchronized {
                assert(self.reliable@ =~= start.reliable@.skip(0));
                assert(start.reliable@.skip(0) =~= start.reliable@);
            }
        }
        let idle = now <= self.last_sent_at || now - self.last_sent_at <= RESYNC_PERIOD;
        if !synchronized && volatile.len() == 0 && !self.ack_pending && idle {
            return Ok(0);
        }
        proof {
            lemma_len_sum_nonneg(chunks(parcels@));
            lemma_len_sum_nonneg(chunks(volatile@));
        }
        let n = self.emit(buffer, parcels, &volatile, stream, used, synchronized, now);
        proof {
            assert(self.spec_outstanding() =~= start.spec_outstanding());
        }
        Ok(n)
    }
}

/// The byte strings of `s` one after the other.
pub open spec fn flat(s: Seq<Seq<u8>>) -> Seq<u8>
    decreases s.len(),
{
    if s.len() == 0 {
        Seq::empty()
    } else {
        flat(s.drop_last()) + s.last()
    }
}

proof fn lemma_flat_len(s: Seq<Seq<u8>>)
    ensures
        flat(s).len() == seq_len_sum(s),
    decreases s.len(),
{
    if s.len() > 0 {
        lemma_flat_len(s.drop_last());
    }
}

proof fn lemma_flat_push(s: Seq<Seq<u8>>, x: Seq<u8>)
    ensures
        flat(s.push(x)) == flat(s) + x,
{
    assert(s.push(x).drop_last() =~= s);
}

/// Total number of bytes of a sequence of byte strings.
pub open spec fn seq_len_sum(s: Seq<Seq<u8>>) -> int
    decreases s.len(),
{
    if s.len() == 0 {
        0
    } else {
        seq_len_sum(s.drop_last()) + s.last().len()
    }
}

proof fn lemma_len_sum_nonneg(s: Seq<Seq<u8>>)
    ensures
        seq_len_sum(s) >= 0,
    decreases s.len(),
{
    if s.len() > 0 {
        lemma_len_sum_nonneg(s.drop_last());
    }
}

proof fn lemma_len_sum_push(s: Seq<Seq<u8>>, x: Seq<u8>)
    ensures
        seq_len_sum(s.push(x)) == seq_len_sum(s) + x.len(),
{
    assert(s.push(x).drop_last() =~= s);
}

proof fn lemma_len_sum_prefix(s: Seq<Seq<u8>>, i: int)
    requires
        0 <= i < s.len(),
    ensures
        seq_len_sum(s.take(i)) + s[i].len() <= seq_len_sum(s),
    decreases s.len(),
{
    if i == s.len() - 1 {
        assert(s.drop_last() =~= s.take(i));
    } else {
        lemma_len_sum_prefix(s.drop_last(), i);
        assert(s.drop_last().take(i) =~= s.take(i));
    }
}

impl<P: Parcel> Context<P> {
    /// The reliable parcels of the oldest datagram awaiting acknowledgement.
    pub closed spec fn spec_oldest_parcels(&self) -> Seq<Seq<u8>> {
        chunks(self.unacked@[0].parcels@)
    }

    /// The stream bytes of the oldest datagram awaiting acknowledgement.
    pub closed spec fn spec_oldest_stream(&self) -> Seq<u8> {
        self.unacked@[0].stream@
    }

    /// The send time of the oldest datagram awaiting acknowledgement.
    pub closed spec fn spec_oldest_sent_at(&self) -> u64 {
        self.unacked@[0].sent_at
    }

    /// Put the data of a datagram that was lost back at the head of the outgoing queues.
    fn requeue(&mut self, entry: Unacked)
        requires
            forall|j: int| 0 <= j < entry.parcels@.len() ==> #[trigger] entry.parcels@[j]@.len() <= PAYLOAD_SIZE,
            forall|i: int| 0 <= i < old(self).reliable@.len() ==> #[trigger] old(self).reliable@[i]@.len() <= PAYLOAD_SIZE,
        ensures
            final(self).spec_reliable() == chunks(entry.parcels@) + old(self).spec_reliable(),
            final(self).spec_stream_out() == entry.stream@ + old(self).spec_stream_out(),
            forall|i: int| 0 <= i < final(self).reliable@.len() ==> #[trigger] final(self).reliable@[i]@.len() <= PAYLOAD_SIZE,
            final(self).same_core(old(self)),
            final(self).same_incoming(old(self)),
            final(self).volatile@ == old(self).volatile@,
    {
        let Unacked { index: _, sent_at: _, parcels, stream } = entry;
        let mut front = parcels;
        front.append(&mut self.reliable);
        self.reliable = front;
        let mut bytes = stream;
        bytes.append(&mut self.stream_out);
        self.stream_out = bytes;
        assert(chunks(self.reliable@) =~= chunks(entry.parcels@) + chunks(old(self).reliable@));
        assert forall|i: int| 0 <= i < self.reliable@.len() implies #[trigger] self.reliable@[i]@.len() <= PAYLOAD_SIZE by {
            if i < entry.parcels@.len() {
                assert(self.reliable@[i] == entry.parcels@[i]);
            } else {
                assert(self.reliable@[i] == old(self).reliable@[i - entry.parcels@.len()]);
            }
        }
    }

    /// Process a datagram received at time `now`.
    ///
    /// Datagrams that are malformed, belong to another connection, or arrive while the
    /// connection is not open are dropped and the result is `false`. Otherwise every datagram
    /// the header acknowledges stops awaiting acknowledgement, and those that fell out of the
    /// other end's window are re-queued. A synchronized datagram already received, or one whose
    /// acknowledgement would skip an unreceived index, delivers nothing; a closing one closes
    /// the connection. Otherwise its parcel segment joins the received parcels and the stream
    /// segment of a synchronized datagram joins the received stream.
    #[verifier::spinoff_prover]
    pub fn process_inbound(&mut self, datagram: &[u8], now: u64) -> (r: bool)
        requires
            old(self).wf(),
        ensures
            final(self).wf(),
            r == (old(self).spec_status() == ConnectionStatus::Open && spec_read_header(datagram@) is Ok
                && parse_header(datagram@).connection_id == old(self).spec_connection_id()),
            !r ==> final(self).same_core(old(self)) && final(self).same_outgoing(old(self))
                && final(self).same_incoming(old(self)),
            r ==> {
                let h = parse_header(datagram@);
                let pid = h.packet_id.0;
                let sync = h.signal.flag(Signal::Synchronized);
                let fresh = sync && !old(self).spec_rx_mask().acks(pid)
                    && old(self).spec_rx_mask().spec_ack(pid) is Some;
                let parcels = datagram@.subrange(24, 24 + h.signal.parcel_count());
                let stream = datagram@.subrange(24 + h.signal.parcel_count(), 24 + h.payload_count());
                let delivered = if h.signal.parcel_count() > 0 {
                    old(self).spec_inbound_parcels().push((parcels, h.prelude@))
                } else {
                    old(self).spec_inbound_parcels()
                };
                &&& final(self).spec_last_recv_at() == now
                &&& final(self).spec_connection_id() == old(self).spec_connection_id()
                &&& final(self).spec_next_tx_index() == old(self).spec_next_tx_index()
                &&& forall|i: int| 0 <= i < final(self).spec_unacked().len()
                    ==> !h.spec_acknowledges(#[trigger] final(self).spec_unacked()[i])
                &&& forall|i: int| 0 <= i < final(self).spec_unacked().len()
                    ==> old(self).spec_unacked().contains(#[trigger] final(self).spec_unacked()[i])
                &&& forall|idx: u8| #[trigger] old(self).spec_unacked().contains(idx) && !h.spec_acknowledges(idx)
                    && !(65 <= crate::connection::parcel::index::index_dist(h.ack_packet_id.0, idx) <= 127)
                    ==> final(self).spec_unacked().contains(idx)
                &&& final(self).spec_reliable().len() >= old(self).spec_reliable().len()
                &&& final(self).spec_reliable().skip(final(self).spec_reliable().len() - old(self).spec_reliable().len())
                    == old(self).spec_reliable()
                &&& final(self).spec_stream_out().len() >= old(self).spec_stream_out().len()
                &&& final(self).spec_stream_out().skip(final(self).spec_stream_out().len() - old(self).spec_stream_out().len())
                    == old(self).spec_stream_out()
                &&& final(self).spec_volatile() == old(self).spec_volatile()
                &&& old(self).spec_outstanding().to_multiset() == final(self).spec_outstanding().to_multiset().add(
                    acked_parcels(old(self).spec_unacked_entries(), h).to_multiset(),
                )
                &&& h.signal.flag(Signal::ConnectionClosed) ==> final(self).spec_status() == ConnectionStatus::Closed
                    && final(self).same_incoming(old(self))
                &&& !h.signal.flag(Signal::ConnectionClosed) ==> final(self).spec_status() == old(self).spec_status()
                &&& sync ==> final(self).spec_ack_pending()
                &&& sync && !fresh ==> final(self).same_incoming(old(self))
                    && final(self).spec_rx_mask() == old(self).spec_rx_mask()
                &&& fresh ==> final(self).spec_rx_mask() == old(self).spec_rx_mask().spec_ack(pid).unwrap()
                    && final(self).spec_inbound_parcels() == delivered
                    && final(self).spec_inbound_stream() == old(self).spec_inbound_stream() + stream
                &&& !sync && !h.signal.flag(Signal::ConnectionClosed) ==> final(self).spec_rx_mask() == old(self).spec_rx_mask()
                    && final(self).spec_inbound_parcels() == delivered
                    && final(self).spec_inbound_stream() == old(self).spec_inbound_stream()
            },
    {
        if self.status != ConnectionStatus::Open {
            return false;
        }
        let header = match read_header(datagram) {
            Ok(h) => h,
            Err(_) => return false,
        };
        if header.connection_id != self.connection_id {
            return false;
        }
        self.last_recv_at = now;
        let ghost start = *self;
        let mut kept: Vec<Unacked> = Vec::new();
        let ghost mut removed: int = 0;
        let ghost mut dropped: Seq<Seq<u8>> = Seq::empty();
        proof {
            assert(dropped + acked_parcels(self.unacked@, header) =~= acked_parcels(self.unacked@, header));
            assert(carried(kept@) + carried(self.unacked@) + chunks(self.reliable@) =~= start.spec_outstanding());
            vstd::seq_lib::lemma_multiset_commutative(start.spec_outstanding(), dropped);
            assert(start.spec_outstanding() + dropped =~= start.spec_outstanding());
        }
        assert(chunks(self.reliable@).skip(0) =~= chunks(self.reliable@));
        assert(self.stream_out@.skip(0) =~= self.stream_out@);
        while self.unacked.len() > 0
            invariant
                0 <= removed <= start.unacked@.len(),
                self.unacked@ == start.unacked@.skip(removed),
                kept@.len() + self.unacked@.len() <= start.unacked@.len(),
                parcels_fit(kept@ + self.unacked@),
                one_stream(kept@ + self.unacked@),
                forall|k: int| 0 <= k < kept@.len() ==> !header.spec_acknowledges(#[trigger] kept@[k].index),
                forall|k: int| 0 <= k < kept@.len() ==> start.unacked@.contains(#[trigger] kept@[k]),
                forall|k: int| 0 <= k < removed && !header.spec_acknowledges(#[trigger] start.unacked@[k].index)
                    && !(65 <= crate::connection::parcel::index::index_dist(header.ack_packet_id.0, start.unacked@[k].index) <= 127)
                    ==> kept@.contains(start.unacked@[k]),
                chunks(self.reliable@).len() >= chunks(start.reliable@).len(),
                chunks(self.reliable@).skip(chunks(self.reliable@).len() - chunks(start.reliable@).len())
                    == chunks(start.reliable@),
                self.stream_out@.len() >= start.stream_out@.len(),
                self.stream_out@.skip(self.stream_out@.len() - start.stream_out@.len()) == start.stream_out@,
                acked_parcels(start.unacked@, header) == dropped + acked_parcels(self.unacked@, header),
                start.spec_outstanding().to_multiset() == (carried(kept@) + carried(self.unacked@) + chunks(
                    self.reliable@,
                )).to_multiset().add(dropped.to_multiset()),
                forall|i: int| 0 <= i < self.reliable@.len() ==> #[trigger] self.reliable@[i]@.len() <= PAYLOAD_SIZE,
                self.status == start.status,
                self.connection_id == start.connection_id,
                self.next_tx_index == start.next_tx_index,
                self.rx_mask == start.rx_mask,
                self.ack_pending == start.ack_pending,
                self.last_recv_at == now,
                self.volatile@ == start.volatile@,
                self.same_incoming(&start),
                self.handshake_id == start.handshake_id,
                self.last_sent_at == start.last_sent_at,
            decreases self.unacked@.len(),
        {
            let ghost all = kept@ + self.unacked@;
            let ghost queue_before = self.unacked@;
            let ghost kept_before = kept@;
            proof {
                lemma_carried_first(queue_before);
            }
            let entry = self.unacked.remove(0);
            proof {
                assert(entry == start.unacked@[removed]);
                removed = removed + 1;
                assert(self.unacked@ =~= start.unacked@.skip(removed));
                assert(all[kept@.len() as int] == entry);
                assert forall|j: int| 0 <= j < entry.parcels@.len() implies #[trigger] entry.parcels@[j]@.len() <= PAYLOAD_SIZE by {
                    assert(all[kept@.len() as int].parcels@[j] == entry.parcels@[j]);
                }
            }
            let acknowledged = header.acknowledges(PacketIndex(entry.index));
            let distance = ParcelIndex::dist(ParcelIndex(header.ack_packet_id.0), ParcelIndex(entry.index));
            proof {
                assert(queue_before.drop_first() =~= self.unacked@);
                assert(queue_before[0] == entry);
            }
            if acknowledged {
                proof {
                    lemma_remove_keeps(all, kept@.len() as int);
                    assert(kept@ + self.unacked@ =~= all.remove(kept@.len() as int));
                    let e = chunks(entry.parcels@);
                    let a = carried(kept@);
                    let b = carried(self.unacked@);
                    let c = chunks(self.reliable@);
                    assert(acked_parcels(queue_before, header) == e + acked_parcels(self.unacked@, header));
                    assert(dropped + acked_parcels(queue_before, header) =~= (dropped + e) + acked_parcels(self.unacked@, header));
                    assert(a + carried(queue_before) + c =~= a + (e + b) + c);
                    vstd::seq_lib::lemma_multiset_commutative(a + (e + b), c);
                    vstd::seq_lib::lemma_multiset_commutative(a, e + b);
                    vstd::seq_lib::lemma_multiset_commutative(e, b);
                    vstd::seq_lib::lemma_multiset_commutative(a + b, c);
                    vstd::seq_lib::lemma_multiset_commutative(a, b);
                    vstd::seq_lib::lemma_multiset_commutative(dropped, e);
                    dropped = dropped + e;
                    assert(start.spec_outstanding().to_multiset() =~= (a + b + c).to_multiset().add(dropped.to_multiset()));
                }
            } else if 65 <= distance && distance <= 127 {
                proof {
                    lemma_remove_keeps(all, kept@.len() as int);
                    assert(kept@ + self.unacked@ =~= all.remove(kept@.len() as int));
                }
                let ghost r0 = chunks(self.reliable@);
                let ghost s0 = self.stream_out@;
                self.requeue(entry);
                proof {
                    let e = chunks(entry.parcels@);
                    let a = carried(kept@);
                    let b = carried(self.unacked@);
                    assert(acked_parcels(queue_before, header) =~= acked_parcels(self.unacked@, header));
                    assert(a + carried(queue_before) + r0 =~= a + (e + b) + r0);
                    assert(chunks(self.reliable@) == e + r0);
                    vstd::seq_lib::lemma_multiset_commutative(a + (e + b), r0);
                    vstd::seq_lib::lemma_multiset_commutative(a, e + b);
                    vstd::seq_lib::lemma_multiset_commutative(e, b);
                    vstd::seq_lib::lemma_multiset_commutative(a + b, e + r0);
                    vstd::seq_lib::lemma_multiset_commutative(a, b);
                    vstd::seq_lib::lemma_multiset_commutative(e, r0);
                    assert((a + b + chunks(self.reliable@)).to_multiset() =~= (a + (e + b) + r0).to_multiset());
                    let r1 = chunks(self.reliable@);
                    assert(r1.skip(r1.len() - r0.len()) =~= r0);
                    assert(r1.skip(r1.len() - chunks(start.reliable@).len()) =~= r0.skip(r0.len() - chunks(start.reliable@).len()));
                    let s1 = self.stream_out@;
                    assert(s1.skip(s1.len() - s0.len()) =~= s0);
                    assert(s1.skip(s1.len() - start.stream_out@.len()) =~= s0.skip(s0.len() - start.stream_out@.len()));
                }
            } else {
                let ghost before = kept@;
                kept.push(entry);
                proof {
                    assert(kept@ + self.unacked@ =~= all);
                    assert(kept@.drop_last() =~= before);
                    assert(carried(kept@) == carried(before) + chunks(entry.parcels@));
                    assert(acked_parcels(queue_before, header) =~= acked_parcels(self.unacked@, header));
                    assert(carried(before) + carried(queue_before) + chunks(self.reliable@) =~= carried(kept@) + carried(self.unacked@) + chunks(self.reliable@));
                    assert(start.unacked@[removed - 1] == entry);
                    assert forall|k: int| 0 <= k < kept@.len() implies start.unacked@.contains(#[trigger] kept@[k]) by {
                        if k < before.len() {
                            assert(kept@[k] == before[k]);
                        } else {
                            assert(kept@[k] == start.unacked@[removed - 1]);
                        }
                    }
                    assert forall|k: int| 0 <= k < removed && before.contains(#[trigger] start.unacked@[k]) implies kept@.contains(start.unacked@[k]) by {
                        let j = choose|j: int| 0 <= j < before.len() && before[j] == start.unacked@[k];
                        assert(kept@[j] == before[j]);
                    }
                    assert(kept@[before.len() as int] == entry);
                }
            }
        }
        self.unacked = kept;
        proof {
            assert(acked_parcels(Seq::<Unacked>::empty(), header) =~= Seq::<Seq<u8>>::empty());
            assert(dropped + Seq::<Seq<u8>>::empty() =~= dropped);
            assert(carried(Seq::<Unacked>::empty()) =~= Seq::<Seq<u8>>::empty());
            assert(carried(self.unacked@) + Seq::<Seq<u8>>::empty() + chunks(self.reliable@) =~= self.spec_outstanding());
            assert(start.spec_unacked_entries() == old(self).spec_unacked_entries());
            assert(start.spec_outstanding() == old(self).spec_outstanding());
        }
        let ghost after_acks = self.spec_outstanding();
        proof {
            assert(self.unacked@ =~= self.unacked@ + Seq::<Unacked>::empty());
            assert forall|i: int| 0 <= i < self.spec_unacked().len() implies start.spec_unacked().contains(#[trigger] self.spec_unacked()[i]) by {
                let e = self.unacked@[i];
                assert(start.unacked@.contains(e));
                let m = choose|m: int| 0 <= m < start.unacked@.len() && start.unacked@[m] == e;
                assert(start.spec_unacked()[m] == e.index);
                assert(old(self).spec_unacked()[m] == e.index);
            }
            assert(start.spec_unacked() == old(self).spec_unacked());
            assert forall|idx: u8| #[trigger] old(self).spec_unacked().contains(idx) && !header.spec_acknowledges(idx)
                && !(65 <= crate::connection::parcel::index::index_dist(header.ack_packet_id.0, idx) <= 127)
                implies self.spec_unacked().contains(idx) by {
                let m = choose|m: int| 0 <= m < old(self).spec_unacked().len() && old(self).spec_unacked()[m] == idx;
                assert(start.unacked@[m].index == idx);
                assert(self.unacked@.contains(start.unacked@[m]));
                let j = choose|j: int| 0 <= j < self.unacked@.len() && self.unacked@[j] == start.unacked@[m];
                assert(self.spec_unacked()[j] == idx);
            }
            assert forall|i: int| 0 <= i < self.spec_unacked().len() implies !header.spec_acknowledges(#[trigger] self.spec_unacked()[i]) by {
                assert(self.spec_unacked()[i] == self.unacked@[i].index);
            }
        }
        let ghost kept_indices = self.spec_unacked();
        let sync = header.signal.is_signal_set(Signal::Synchronized);
        let mut deliver = true;
        if sync {
            let index = ParcelIndex(header.packet_id.0);
            if self.rx_mask.acknowledges(index) {
                deliver = false;
            } else {
                match self.rx_mask.ack(index) {
                    Ok(()) => {},
                    Err(_) => {
                        deliver = false;
                    },
                }
            }
            self.ack_pending = true;
        }
        if header.signal.is_signal_set(Signal::ConnectionClosed) {
            self.status = ConnectionStatus::Closed;
            assert(self.spec_unacked() == kept_indices);
            assert(self.spec_outstanding() == after_acks);
            return true;
        }
        if deliver {
            if header.signal.get_parcel_byte_count() > 0 {
                let segment = get_parcel_segment(datagram);
                let mut bytes: Vec<u8> = Vec::new();
                append_bytes(&mut bytes, segment);
                let ghost before = self.inbound_parcels@;
                self.inbound_parcels.push((bytes, header.prelude));
                assert(received(self.inbound_parcels@) =~= received(before).push((bytes@, header.prelude@)));
            }
            if sync {
                let segment = get_stream_segment(datagram);
                append_bytes(&mut self.inbound_stream, segment);
            }
        }
        assert(self.spec_unacked() == kept_indices);
        assert(self.spec_outstanding() == after_acks);
        true
    }

    /// Update the connection for the passing of time: an open connection that received nothing
    /// for longer than the timeout is lost; otherwise, when the oldest datagram awaiting
    /// acknowledgement was sent more than a resync period ago, its data is queued again.
    pub fn tick(&mut self, now: u64)
        requires
            old(self).wf(),
        ensures
            final(self).wf(),
            final(self).same_incoming(old(self)),
            final(self).spec_connection_id() == old(self).spec_connection_id(),
            final(self).spec_next_tx_index() == old(self).spec_next_tx_index(),
            final(self).spec_rx_mask() == old(self).spec_rx_mask(),
            ({
                let timed_out = old(self).spec_status() == ConnectionStatus::Open
                    && now > old(self).spec_last_recv_at()
                    && now - old(self).spec_last_recv_at() > TIMEOUT;
                let resend = !timed_out && old(self).spec_status() == ConnectionStatus::Open
                    && old(self).spec_unacked().len() > 0 && now >= old(self).spec_oldest_sent_at()
                    && now - old(self).spec_oldest_sent_at() > RESYNC_PERIOD;
                &&& timed_out ==> final(self).spec_status() == ConnectionStatus::Lost
                    && final(self).same_outgoing(old(self))
                    && final(self).spec_unacked() == old(self).spec_unacked()
                &&& !timed_out ==> final(self).spec_status() == old(self).spec_status()
                &&& resend ==> final(self).spec_outstanding().to_multiset() == old(self).spec_outstanding().to_multiset()
                &&& resend ==> final(self).spec_unacked() == old(self).spec_unacked().drop_first()
                    && final(self).spec_reliable() == old(self).spec_oldest_parcels() + old(self).spec_reliable()
                    && final(self).spec_stream_out() == old(self).spec_oldest_stream() + old(self).spec_stream_out()
                    && final(self).spec_volatile() == old(self).spec_volatile()
                &&& !timed_out && !resend ==> final(self).same_core(old(self))
                    && final(self).same_outgoing(old(self))
            }),
    {
        if self.status != ConnectionStatus::Open {
            return;
        }
        if now > self.last_recv_at && now - self.last_recv_at > TIMEOUT {
            self.status = ConnectionStatus::Lost;
            return;
        }
        if self.unacked.len() > 0 && now >= self.unacked[0].sent_at && now - self.unacked[0].sent_at > RESYNC_PERIOD {
            let ghost all = self.unacked@;
            let entry = self.unacked.remove(0);
            proof {
                assert(all[0] == entry);
                lemma_remove_keeps(all, 0);
                assert forall|j: int| 0 <= j < entry.parcels@.len() implies #[trigger] entry.parcels@[j]@.len() <= PAYLOAD_SIZE by {
                    assert(all[0].parcels@[j] == entry.parcels@[j]);
                }
                assert(self.unacked@.map_values(|u: Unacked| u.index) =~= all.map_values(|u: Unacked| u.index).drop_first());
                lemma_carried_first(all);
                assert(self.unacked@ =~= all.drop_first());
            }
            let ghost rest = carried(self.unacked@);
            let ghost queue = chunks(self.reliable@);
            self.requeue(entry);
            proof {
                let first = chunks(entry.parcels@);
                assert(old(self).spec_outstanding() =~= first + (rest + queue));
                assert(self.spec_outstanding() =~= rest + (first + queue));
                vstd::seq_lib::lemma_multiset_commutative(first, rest + queue);
                vstd::seq_lib::lemma_multiset_commutative(rest, first + queue);
                vstd::seq_lib::lemma_multiset_commutative(first, queue);
                vstd::seq_lib::lemma_multiset_commutative(rest, queue);
                assert(first.to_multiset().add(rest.to_multiset().add(queue.to_multiset())) =~= rest.to_multiset().add(first.to_multiset().add(queue.to_multiset())));
            }
        }
    }
}

/// Whether `s` is a connection request with handshake id `hid` and payload `payload`.
pub open spec fn is_request_packet(s: Seq<u8>, hid: u32, payload: Seq<u8>) -> bool {
    let h = parse_header(s);
    &&& spec_read_header(s) is Ok
    &&& payload.len() <= 0x7FF
    &&& s.len() == 24 + payload.len()
    &&& h.connection_id == 0
    &&& h.signal.has_parts(true, false, false, 0, payload.len() as u32)
    &&& h.prelude@ == spec_u32_to_le_bytes(hid)
    &&& s.skip(24) == payload
}

/// Build a header with the given fields, all others zero, and write it to `buffer`.
fn put_header(buffer: &mut [u8], connection_id: ConnectionId, signal: SignalBits, handshake_id: u32) -> (h: PacketHeader)
    requires
        old(buffer)@.len() >= HEADER_SIZE,
    ensures
        h.connection_id == connection_id,
        h.signal == signal,
        h.packet_id.0 == 0,
        h.ack_packet_id.0 == 0,
        h.ack_packet_mask == 0,
        h.prelude@ == spec_u32_to_le_bytes(handshake_id),
        final(buffer)@ == header_bytes(h) + old(buffer)@.skip(24),
        header_bytes(h).len() == 24,
{
    proof {
        vstd::bytes::lemma_auto_spec_u16_to_from_le_bytes();
        vstd::bytes::lemma_auto_spec_u32_to_from_le_bytes();
        vstd::bytes::lemma_auto_spec_u64_to_from_le_bytes();
    }
    let hid = u32_to_le_bytes(handshake_id);
    let header = PacketHeader {
        connection_id,
        packet_id: PacketIndex(0),
        ack_packet_id: PacketIndex(0),
        ack_packet_mask: 0,
        signal,
        prelude: [hid[0], hid[1], hid[2], hid[3]],
    };
    assert(header.prelude@ =~= hid@);
    write_header(buffer, header);
    header
}

/// Build the datagram that accepts the request with handshake id `handshake_id` under
/// `connection_id`: a connected header with the handshake id as prelude, and the connection
/// id repeated in its two parcel bytes.
pub fn build_accept_packet(buffer: &mut [u8], handshake_id: u32, connection_id: ConnectionId) -> (r: usize)
    requires
        old(buffer)@.len() >= HEADER_SIZE + 2,
        connection_id != 0,
    ensures
        r == 26,
        final(buffer)@.len() == old(buffer)@.len(),
        spec_classify_answer(handshake_id, final(buffer)@.take(26)) == Answer::Accepted(connection_id),
        forall|other: u32| other != handshake_id ==> spec_classify_answer(other, final(buffer)@.take(26)) == Answer::Invalid,
{
    let h = put_header(buffer, connection_id, SignalBits::volatile(2), handshake_id);
    assert(buffer@.take(24) =~= header_bytes(h));
    let id = u16_to_le_bytes(connection_id);
    put_payload(buffer, id.as_slice(), 0, Ghost(header_bytes(h)));
    proof {
        vstd::bytes::lemma_auto_spec_u16_to_from_le_bytes();
        vstd::bytes::lemma_auto_spec_u32_to_from_le_bytes();
        let s = buffer@.take(26);
        assert(s.take(24) =~= header_bytes(h));
        lemma_packet_reads_back(s, h, 26);
        assert(s.take(26) =~= s);
        assert(s.subrange(24, 26) =~= buffer@.subrange(24, 26));
        assert forall|other: u32| other != handshake_id implies spec_classify_answer(other, s) == Answer::Invalid by {
            assert(spec_u32_to_le_bytes(other) != spec_u32_to_le_bytes(handshake_id)) by {
                if spec_u32_to_le_bytes(other) == spec_u32_to_le_bytes(handshake_id) {
                    assert(vstd::bytes::spec_u32_from_le_bytes(spec_u32_to_le_bytes(other)) == other);
                }
            }
        }
    }
    26
}

/// Build the datagram that rejects the request with handshake id `handshake_id`.
pub fn build_reject_packet(buffer: &mut [u8], handshake_id: u32) -> (r: usize)
    requires
        old(buffer)@.len() >= HEADER_SIZE,
    ensures
        r == 24,
        final(buffer)@.len() == old(buffer)@.len(),
        spec_classify_answer(handshake_id, final(buffer)@.take(24)) == Answer::Rejected,
        forall|other: u32| other != handshake_id ==> spec_classify_answer(other, final(buffer)@.take(24)) == Answer::Invalid,
{
    let h = put_header(buffer, 0, SignalBits::reject(0), handshake_id);
    proof {
        vstd::bytes::lemma_auto_spec_u32_to_from_le_bytes();
        let s = buffer@.take(24);
        assert(s.take(24) =~= header_bytes(h));
        lemma_packet_reads_back(s, h, 24);
        assert(s.take(24) =~= s);
        assert forall|other: u32| other != handshake_id implies spec_classify_answer(other, s) == Answer::Invalid by {
            assert(spec_u32_to_le_bytes(other) != spec_u32_to_le_bytes(handshake_id)) by {
                if spec_u32_to_le_bytes(other) == spec_u32_to_le_bytes(handshake_id) {
                    assert(vstd::bytes::spec_u32_from_le_bytes(spec_u32_to_le_bytes(other)) == other);
                }
            }
        }
    }
    24
}

/// The handshake id and payload of a connection request, if `s` is one.
pub open spec fn spec_request_of(s: Seq<u8>) -> Option<(u32, Seq<u8>)> {
    match spec_read_header(s) {
        Ok(h) => if h.connection_id == 0 && h.signal.flag(Signal::ConnectionRequest) {
            Some((
                vstd::bytes::spec_u32_from_le_bytes(h.prelude@),
                s.subrange(24, 24 + h.payload_count()),
            ))
        } else {
            None
        },
        Err(_) => None,
    }
}

/// Read the handshake id and payload of a connection request.
///
/// Returns `None` for anything but a valid connection request.
pub fn request_of(datagram: &[u8]) -> (r: Option<(u32, Vec<u8>)>)
    ensures
        r is Some <==> spec_request_of(datagram@) is Some,
        r matches Some((hid, payload)) ==> spec_request_of(datagram@) == Some((hid, payload@)),
{
    let header = match read_header(datagram) {
        Ok(h) => h,
        Err(_) => return None,
    };
    if header.connection_id != 0 || !header.signal.is_signal_set(Signal::ConnectionRequest) {
        return None;
    }
    let hid = vstd::bytes::u32_from_le_bytes(&header.prelude);
    let mut payload: Vec<u8> = Vec::new();
    append_bytes(&mut payload, get_stream_segment(datagram));
    proof {
        assert(payload@ =~= datagram@.subrange(24, 24 + header.payload_count()));
    }
    Some((hid, payload))
}

/// A connection request built by [`Context::build_request_packet`] reads back as its handshake
/// id and payload.
pub proof fn lemma_request_round_trip(s: Seq<u8>, hid: u32, payload: Seq<u8>)
    requires
        is_request_packet(s, hid, payload),
    ensures
        spec_request_of(s) == Some((hid, payload)),
{
    vstd::bytes::lemma_auto_spec_u32_to_from_le_bytes();
    let h = parse_header(s);
    assert(h.payload_count() == payload.len());
    assert(s.subrange(24, 24 + h.payload_count()) =~= s.skip(24));
    assert(h.prelude@ == spec_u32_to_le_bytes(hid));
    assert(vstd::bytes::spec_u32_from_le_bytes(spec_u32_to_le_bytes(hid)) == hid);
    assert(spec_read_header(s) == Ok::<PacketHeader, crate::packet::HeaderError>(h));
}

impl<P: Parcel> Context<P> {
    /// Build a connection-requesting packet that contains provided payload.
    ///
    /// The connection must be in [`Pending`](ConnectionStatus::Pending) state.
    pub fn build_request_packet(&mut self, buffer: &mut [u8], payload: &[u8]) -> (r: Result<usize, BuildPacketError>)
        requires
            old(self).wf(),
        ensures
            final(self).wf(),
            final(self).same_core(old(self)),
            final(self).same_outgoing(old(self)),
            final(self).same_incoming(old(self)),
            old(self).spec_status() != ConnectionStatus::Pending ==> r == Err::<usize, BuildPacketError>(BuildPacketError::InvalidState)
                && final(buffer)@ == old(buffer)@,
            old(self).spec_status() == ConnectionStatus::Pending && (payload@.len() > PAYLOAD_SIZE
                || old(buffer)@.len() < 24 + payload@.len()) ==> r == Err::<usize, BuildPacketError>(
                BuildPacketError::InsufficientBuffer,
            ) && final(buffer)@ == old(buffer)@,
            old(self).spec_status() == ConnectionStatus::Pending && payload@.len() <= PAYLOAD_SIZE
                && old(buffer)@.len() >= 24 + payload@.len() ==> r == Ok::<usize, BuildPacketError>(
                (24 + payload@.len()) as usize,
            ) && is_request_packet(final(buffer)@.take(24 + payload@.len() as int), old(self).spec_handshake_id(), payload@)
                && final(buffer)@.len() == old(buffer)@.len(),
    {
        if self.status != ConnectionStatus::Pending {
            return Err(BuildPacketError::InvalidState);
        }
        if payload.len() > PAYLOAD_SIZE || buffer.len() < HEADER_SIZE + payload.len() {
            return Err(BuildPacketError::InsufficientBuffer);
        }
        let n = HEADER_SIZE + payload.len();
        let h = put_header(buffer, 0, SignalBits::request_connection(payload.len() as u16), self.handshake_id);
        assert(buffer@.take(24) =~= header_bytes(h));
        put_payload(buffer, payload, 0, Ghost(header_bytes(h)));
        proof {
            let s = buffer@.take(n as int);
            assert(s.take(24) =~= header_bytes(h));
            lemma_packet_reads_back(s, h, n as int);
            assert(s.take(n as int) =~= s);
            assert(s.skip(24) =~= payload@);
        }
        Ok(n)
    }

    /// Build a packet that tells the other end that the connection is closed, and close it.
    pub fn build_close_packet(&mut self, buffer: &mut [u8]) -> (r: Result<usize, BuildPacketError>)
        requires
            old(self).wf(),
        ensures
            final(self).wf(),
            final(self).same_outgoing(old(self)),
            final(self).same_incoming(old(self)),
            final(self).spec_connection_id() == old(self).spec_connection_id(),
            old(self).spec_status() != ConnectionStatus::Open ==> r == Err::<usize, BuildPacketError>(BuildPacketError::InvalidState)
                && final(self).same_core(old(self)) && final(buffer)@ == old(buffer)@,
            old(self).spec_status() == ConnectionStatus::Open && old(buffer)@.len() < 24 ==> r == Err::<usize, BuildPacketError>(
                BuildPacketError::InsufficientBuffer,
            ) && final(self).same_core(old(self)) && final(buffer)@ == old(buffer)@,
            old(self).spec_status() == ConnectionStatus::Open && old(buffer)@.len() >= 24 ==> r == Ok::<usize, BuildPacketError>(24)
                && final(self).spec_status() == ConnectionStatus::Closed
                && spec_read_header(final(buffer)@.take(24)) is Ok
                && parse_header(final(buffer)@).connection_id == old(self).spec_connection_id()
                && parse_header(final(buffer)@).signal.flag(Signal::ConnectionClosed),
    {
        if self.status != ConnectionStatus::Open {
            return Err(BuildPacketError::InvalidState);
        }
        if buffer.len() < HEADER_SIZE {
            return Err(BuildPacketError::InsufficientBuffer);
        }
        let h = put_header(buffer, self.connection_id, SignalBits::closed(), 0);
        proof {
            let s = buffer@;
            assert(s.take(24) =~= header_bytes(h));
            lemma_packet_reads_back(s, h, 24);
        }
        self.status = ConnectionStatus::Closed;
        Ok(24)
    }

    /// Attempt to promote a pending connection with a datagram received at time `now`.
    ///
    /// An accepting answer to this connection's request opens it under the id the answer
    /// carries; a rejecting answer closes it; anything else leaves it pending.
    pub fn promote(&mut self, datagram: &[u8], now: u64) -> (r: Answer)
        requires
            old(self).wf(),
        ensures
            final(self).wf(),
            old(self).spec_status() != ConnectionStatus::Pending ==> r == Answer::Unrelated
                && final(self).same_core(old(self)) && final(self).same_outgoing(old(self)) && final(self).same_incoming(old(self)),
            old(self).spec_status() == ConnectionStatus::Pending ==> {
                &&& r == spec_classify_answer(old(self).spec_handshake_id(), datagram@)
                &&& r matches Answer::Accepted(id) ==> final(self).spec_status() == ConnectionStatus::Open
                    && final(self).spec_connection_id() == id
                    && final(self).spec_next_tx_index() == 1
                    && final(self).spec_rx_mask() == AckMask::saturated_spec(0)
                    && final(self).spec_last_recv_at() == now
                    && final(self).spec_last_sent_at() == now
                    && final(self).spec_unacked().len() == 0
                    && final(self).same_outgoing(old(self)) && final(self).same_incoming(old(self))
                &&& r is Rejected ==> final(self).spec_status() == ConnectionStatus::Closed
                &&& (r is Invalid || r is Unrelated) ==> final(self).same_core(old(self))
                    && final(self).same_outgoing(old(self)) && final(self).same_incoming(old(self))
            },
    {
        if self.status != ConnectionStatus::Pending {
            return Answer::Unrelated;
        }
        let answer = classify_answer(self.handshake_id, datagram);
        match answer {
            Answer::Accepted(id) => {
                self.connection_id = id;
                self.status = ConnectionStatus::Open;
                self.next_tx_index = ParcelIndex(1);
                self.rx_mask = AckMask::saturated(ParcelIndex(0));
                self.ack_pending = false;
                self.unacked = Vec::new();
                self.last_recv_at = now;
                self.last_sent_at = now;
            },
            Answer::Rejected => {
                self.status = ConnectionStatus::Closed;
            },
            _ => {},
        }
        answer
    }
}

impl AckMask {
    /// The mask that `saturated` builds.
    pub open spec fn saturated_spec(last: u8) -> AckMask {
        AckMask { last_index: ParcelIndex(last), mask: 0xFFFF_FFFF_FFFF_FFFFu64 }
    }
}

} // verus!
