//! Server-side admission of new connections.
//!
//! The acceptor owns the connection-id allocator and the demultiplexer of the server endpoint.
//! Connection requests arrive as connectionless datagrams (id 0); for each, the application
//! decides, and the acceptor assigns an id, allows its datagrams and builds the answer.
use vstd::prelude::*;

use crate::connection::Parcel;
use crate::connection::context::{
    build_accept_packet, build_reject_packet, spec_classify_answer, Answer, ConnectionStatus,
    Context,
};
use crate::endpoint::Address;
use crate::endpoint::demux::{Datagram, Demultiplexer, datagram_views};
use crate::id::{Allocator, ConnectionId, OutOfIdsError};

verus! {

/// A possible result of acceptor function.
#[derive(Clone, Copy, Debug, PartialEq, Eq, Structural)]
pub enum AcceptDecision {
    /// Allow the new connection.
    Allow,
    /// Actively refuse the new connection, sending a packet informing the client of the decision.
    Reject,
    /// Ignore the request. The client will not be informed of the failure to connect.
    Ignore,
}

/// What admitting a request produced.
pub enum Admission<P: Parcel> {
    /// A new open connection, and the length of the accepting datagram built in the buffer.
    Accepted(Context<P>, usize),
    /// The length of the rejecting datagram built in the buffer.
    Rejected(usize),
    /// Nothing to send.
    Ignored,
}

/// Connection ids and datagram routing of a server endpoint.
pub struct Acceptor {
    ids: Allocator,
    demux: Demultiplexer,
}

impl Acceptor {
    pub closed spec fn wf(&self) -> bool {
        &&& self.ids.wf()
        &&& self.demux.wf()
    }

    /// The allocator of connection ids.
    pub closed spec fn allocator(&self) -> Allocator {
        self.ids
    }

    /// The id that allowing the next request assigns: the largest given-back id, else the one
    /// after the largest id handed out.
    pub open spec fn next_id(&self) -> ConnectionId {
        if self.allocator().spec_free_ids().len() > 0 {
            self.allocator().spec_free_ids().last()
        } else {
            (self.allocator().spec_last_id() + 1) as ConnectionId
        }
    }

    /// Whether connection `id` is assigned.
    pub open spec fn live(&self, id: ConnectionId) -> bool {
        self.allocator().is_live(id)
    }

    /// Whether datagrams of connection `id` are buffered.
    pub closed spec fn routed(&self, id: ConnectionId) -> bool {
        self.demux.allowed(id)
    }

    /// The datagrams buffered for connection `id`.
    pub closed spec fn buffered(&self, id: ConnectionId) -> Seq<(Seq<u8>, Address)> {
        self.demux.buffered(id)
    }

    /// Construct an acceptor that routes connectionless datagrams only and has assigned no id.
    pub fn new() -> (r: Self)
        ensures
            r.wf(),
            r.routed(0),
            forall|id: ConnectionId| id != 0 ==> !r.routed(id),
            forall|id: ConnectionId| !r.live(id),
            r.allocator().spec_last_id() == 0,
            r.allocator().spec_free_ids().len() == 0,
    {
        let mut demux = Demultiplexer::new();
        demux.allow(0);
        Acceptor { ids: Allocator::new(), demux }
    }

    /// Route a received datagram to the buffer of the connection id it carries.
    pub fn receive(&mut self, bytes: &[u8], source: Address) -> (r: bool)
        requires
            old(self).wf(),
        ensures
            final(self).wf(),
            forall|id: ConnectionId| final(self).live(id) == old(self).live(id),
            forall|id: ConnectionId| final(self).routed(id) == old(self).routed(id),
            bytes@.len() >= 2 ==> {
                let key = vstd::bytes::spec_u16_from_le_bytes(bytes@.subrange(0, 2));
                &&& r == old(self).routed(key)
                &&& r ==> final(self).buffered(key) == old(self).buffered(key).push((bytes@, source))
            },
            bytes@.len() < 2 ==> !r,
    {
        self.demux.dispatch(bytes, source)
    }

    /// Take the datagrams buffered for connection `id` (0 for connection requests).
    pub fn take_datagrams(&mut self, id: ConnectionId) -> (r: Vec<Datagram>)
        requires
            old(self).wf(),
        ensures
            final(self).wf(),
            datagram_views(r@) == old(self).buffered(id),
            final(self).buffered(id).len() == 0,
            forall|k: ConnectionId| final(self).live(k) == old(self).live(k),
            forall|k: ConnectionId| final(self).routed(k) == old(self).routed(k),
    {
        self.demux.process(id)
    }

    /// Carry out the decision on the request with handshake id `handshake_id`, received at
    /// time `now`, building the answer in `buffer`.
    ///
    /// Allowing assigns a fresh connection id, routes its datagrams and opens a connection;
    /// it fails only when all ids are in use.
    pub fn decide<P: Parcel>(
        &mut self,
        decision: AcceptDecision,
        handshake_id: u32,
        buffer: &mut [u8],
        now: u64,
    ) -> (r: Result<Admission<P>, OutOfIdsError>)
        requires
            old(self).wf(),
            old(buffer)@.len() >= 26,
        ensures
            final(self).wf(),
            final(buffer)@.len() == old(buffer)@.len(),
            decision == AcceptDecision::Ignore ==> (r matches Ok(Admission::Ignored) && final(buffer)@
                == old(buffer)@),
            decision == AcceptDecision::Reject ==> (r matches Ok(Admission::Rejected(n)) && n == 24
                && spec_classify_answer(handshake_id, final(buffer)@.take(24)) == Answer::Rejected),
            decision != AcceptDecision::Allow ==> forall|id: ConnectionId| final(self).live(id) == old(self).live(id),
            decision == AcceptDecision::Allow && (forall|id: ConnectionId| id != 0 ==> old(self).live(id))
                ==> r is Err,
            decision == AcceptDecision::Allow && (exists|id: ConnectionId| id != 0 && !old(self).live(id))
                ==> (r matches Ok(Admission::Accepted(c, _)) && c.spec_connection_id() == old(self).next_id()),
            decision == AcceptDecision::Allow && r is Err ==> forall|id: ConnectionId| final(self).live(id) == old(self).live(id),
            r matches Ok(Admission::Accepted(c, n)) ==> {
                let id = c.spec_connection_id();
                &&& decision == AcceptDecision::Allow
                &&& id != 0
                &&& !old(self).live(id)
                &&& final(self).live(id)
                &&& final(self).routed(id)
                &&& forall|k: ConnectionId| k != id ==> final(self).live(k) == old(self).live(k)
                &&& c.wf()
                &&& c.spec_status() == ConnectionStatus::Open
                &&& c.spec_last_recv_at() == now
                &&& n == 26
                &&& spec_classify_answer(handshake_id, final(buffer)@.take(26)) == Answer::Accepted(id)
            },
    {
        match decision {
            AcceptDecision::Ignore => Ok(Admission::Ignored),
            AcceptDecision::Reject => Ok(Admission::Rejected(build_reject_packet(buffer, handshake_id))),
            AcceptDecision::Allow => {
                proof {
                    if forall|id: ConnectionId| id != 0 ==> old(self).live(id) {
                        if self.ids.spec_free_ids().len() > 0 {
                            crate::id::lemma_reuse_before_fresh(self.ids);
                            let f = self.ids.spec_free_ids().last();
                            assert(f >= 1) by {
                                assert(self.ids.spec_free_ids()[self.ids.spec_free_ids().len() - 1] == f);
                            }
                            assert(old(self).live(f));
                        }
                        if self.ids.spec_last_id() < u16::MAX {
                            let x = (self.ids.spec_last_id() + 1) as u16;
                            assert(old(self).live(x));
                        }
                    }
                }
                proof {
                    crate::id::lemma_reuse_before_fresh(self.ids);
                    if exists|id: ConnectionId| id != 0 && !old(self).live(id) {
                        let x = choose|id: ConnectionId| id != 0 && !old(self).live(id);
                        if self.ids.spec_free_ids().len() == 0 && self.ids.spec_last_id() == u16::MAX {
                            assert(!self.ids.spec_free_ids().contains(x));
                            assert(self.ids.is_live(x));
                        }
                    }
                }
                let id = match self.ids.allocate() {
                    Ok(id) => id,
                    Err(e) => return Err(e),
                };
                self.demux.allow(id);
                let n = build_accept_packet(buffer, handshake_id, id);
                Ok(Admission::Accepted(Context::accept(id, now), n))
            },
        }
    }

    /// Inform the acceptor that the connection with provided id was closed: its id is freed and
    /// its datagrams are no longer routed.
    pub fn connection_closed(&mut self, id: ConnectionId)
        requires
            old(self).wf(),
            old(self).live(id),
        ensures
            final(self).wf(),
            !final(self).live(id),
            !final(self).routed(id),
            forall|k: ConnectionId| k != id ==> final(self).live(k) == old(self).live(k)
                && final(self).routed(k) == old(self).routed(k),
    {
        self.ids.free(id);
        self.demux.block(id);
    }
}

} // verus!
