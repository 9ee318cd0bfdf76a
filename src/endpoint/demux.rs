//! Demultiplexer of received datagrams by connection id.
//!
//! A demultiplexer lets many connections share one endpoint: datagrams are buffered under the
//! connection id they carry, for the ids that are allowed, until that connection processes them.
use vstd::prelude::*;

use std::collections::HashMap;
use std::collections::hash_map::RandomState;
use vstd::std_specs::hash::{builds_valid_hashers, obeys_key_model};

use super::Address;
use crate::id::ConnectionId;
use crate::packet::read_connection_id;

verus! {

broadcast use vstd::std_specs::hash::group_hash_axioms;

/// A buffered datagram and its source.
#[derive(Debug)]
pub struct Datagram {
    pub bytes: Vec<u8>,
    pub source: Address,
}

/// The contents of a buffer of datagrams: their bytes and sources, in arrival order.
pub open spec fn datagram_views(v: Seq<Datagram>) -> Seq<(Seq<u8>, Address)> {
    v.map_values(|d: Datagram| (d.bytes@, d.source))
}

/// Basic demultiplexer keyed by connection id, `0` standing for connectionless datagrams.
///
/// Each allowed connection id maps to the datagrams buffered for it, in arrival order.
#[derive(Debug)]
pub struct Demultiplexer {
    connections: HashMap<ConnectionId, Vec<Datagram>>,
}

impl Demultiplexer {
    /// Well-formedness: the map's keys behave as the map model requires.
    pub closed spec fn wf(&self) -> bool {
        &&& obeys_key_model::<ConnectionId>()
        &&& builds_valid_hashers::<RandomState>()
    }

    /// Whether datagrams of connection `key` are buffered.
    pub closed spec fn allowed(&self, key: ConnectionId) -> bool {
        self.connections@.contains_key(key)
    }

    /// The datagrams buffered for connection `key`.
    pub closed spec fn buffered(&self, key: ConnectionId) -> Seq<(Seq<u8>, Address)> {
        if self.allowed(key) {
            datagram_views(self.connections@[key]@)
        } else {
            Seq::empty()
        }
    }

    /// Construct a new demultiplexer that allows no connection.
    pub fn new() -> (r: Self)
        ensures
            r.wf(),
            forall|k: ConnectionId| !r.allowed(k),
    {
        Demultiplexer { connections: HashMap::new() }
    }

    /// Allow buffering datagrams associated with provided key.
    pub fn allow(&mut self, key: ConnectionId)
        requires
            old(self).wf(),
        ensures
            final(self).wf(),
            final(self).allowed(key),
            final(self).buffered(key) == old(self).buffered(key),
            forall|k: ConnectionId| k != key ==> final(self).allowed(k) == old(self).allowed(k)
                && final(self).buffered(k) == old(self).buffered(k),
    {
        if !self.connections.contains_key(&key) {
            self.connections.insert(key, Vec::new());
            assert(datagram_views(self.connections@[key]@) =~= Seq::<(Seq<u8>, Address)>::empty());
        }
    }

    /// Block buffering datagrams associated with provided key, dropping those buffered.
    pub fn block(&mut self, key: ConnectionId)
        requires
            old(self).wf(),
        ensures
            final(self).wf(),
            !final(self).allowed(key),
            forall|k: ConnectionId| k != key ==> final(self).allowed(k) == old(self).allowed(k)
                && final(self).buffered(k) == old(self).buffered(k),
    {
        self.connections.remove(&key);
    }

    /// Check whether buffering datagrams associated with provided key is currently allowed.
    pub fn is_allowed(&self, key: ConnectionId) -> (r: bool)
        requires
            self.wf(),
        ensures
            r == self.allowed(key),
    {
        self.connections.contains_key(&key)
    }

    /// Buffer a datagram associated with provided key, if the key is allowed.
    pub fn push(&mut self, key: ConnectionId, bytes: &[u8], source: Address) -> (r: bool)
        requires
            old(self).wf(),
        ensures
            final(self).wf(),
            r == old(self).allowed(key),
            forall|k: ConnectionId| final(self).allowed(k) == old(self).allowed(k),
            r ==> final(self).buffered(key) == old(self).buffered(key).push((bytes@, source)),
            !r ==> final(self).buffered(key) == old(self).buffered(key),
            forall|k: ConnectionId| k != key ==> final(self).buffered(k) == old(self).buffered(k),
    {
        match self.connections.remove(&key) {
            None => false,
            Some(mut datagrams) => {
                let ghost before = datagrams@;
                let mut copy: Vec<u8> = Vec::new();
                crate::byte::append_bytes(&mut copy, bytes);
                datagrams.push(Datagram { bytes: copy, source });
                assert(datagram_views(datagrams@) =~= datagram_views(before).push((bytes@, source)));
                self.connections.insert(key, datagrams);
                assert(self.connections@ =~= old(self).connections@.insert(key, datagrams));
                true
            },
        }
    }

    /// Route a received datagram by the connection id it carries: buffer it if that id is
    /// allowed. Datagrams too short to carry an id are dropped.
    pub fn dispatch(&mut self, bytes: &[u8], source: Address) -> (r: bool)
        requires
            old(self).wf(),
        ensures
            final(self).wf(),
            forall|k: ConnectionId| final(self).allowed(k) == old(self).allowed(k),
            bytes@.len() < 2 ==> !r && forall|k: ConnectionId| final(self).buffered(k) == old(self).buffered(k),
            bytes@.len() >= 2 ==> {
                let key = vstd::bytes::spec_u16_from_le_bytes(bytes@.subrange(0, 2));
                &&& r == old(self).allowed(key)
                &&& r ==> final(self).buffered(key) == old(self).buffered(key).push((bytes@, source))
                &&& forall|k: ConnectionId| (k != key || !r) ==> final(self).buffered(k) == old(self).buffered(k)
            },
    {
        if bytes.len() < 2 {
            return false;
        }
        let key = read_connection_id(bytes);
        self.push(key, bytes, source)
    }

    /// Take the datagrams buffered for provided key, in arrival order, leaving none.
    pub fn process(&mut self, key: ConnectionId) -> (r: Vec<Datagram>)
        requires
            old(self).wf(),
        ensures
            final(self).wf(),
            datagram_views(r@) == old(self).buffered(key),
            final(self).buffered(key).len() == 0,
            forall|k: ConnectionId| final(self).allowed(k) == old(self).allowed(k),
            forall|k: ConnectionId| k != key ==> final(self).buffered(k) == old(self).buffered(k),
    {
        match self.connections.remove(&key) {
            None => Vec::new(),
            Some(datagrams) => {
                let empty: Vec<Datagram> = Vec::new();
                let ghost empty_view = empty;
                self.connections.insert(key, empty);
                assert(self.connections@ =~= old(self).connections@.insert(key, empty_view));
                assert(datagram_views(self.connections@[key]@) =~= Seq::<(Seq<u8>, Address)>::empty());
                datagrams
            },
        }
    }
}

impl Default for Demultiplexer {
    fn default() -> (r: Self)
        ensures
            r.wf(),
            forall|k: ConnectionId| !r.allowed(k),
    {
        Demultiplexer::new()
    }
}

} // verus!
