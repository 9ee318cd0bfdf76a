//! Connection id management.
use vstd::prelude::*;

verus! {

/// A unique index associated with a connection.
///
/// **NOTE**: `0` is a special value that means `no-connection-id`.
pub type ConnectionId = u16;

/// All possible connection ids have been used up.
#[derive(Debug, Clone, Copy, PartialEq, Eq, Structural)]
pub struct OutOfIdsError();

/// Manager for connection ids. Responsible for making sure there are no connections that
/// share ids.
///
/// The ids in use are `1..=last_id` without those in `free_ids`, which is kept sorted.
#[derive(Debug)]
pub struct Allocator {
    /// Largest ConnectionId in use.
    last_id: ConnectionId,
    /// Collection of free ids that may be used, in increasing order.
    free_ids: Vec<ConnectionId>,
}

/// Whether `id` is in use when the largest id handed out is `last` and `free` are returned.
pub open spec fn in_use(last: u16, free: Seq<u16>, id: u16) -> bool {
    1 <= id <= last && !free.contains(id)
}

/// Whether `free` is sorted strictly increasing and holds ids of `1..last` only.
pub open spec fn free_list_ok(last: u16, free: Seq<u16>) -> bool {
    &&& forall|i: int, j: int| 0 <= i < j < free.len() ==> free[i] < free[j]
    &&& forall|i: int| 0 <= i < free.len() ==> 1 <= #[trigger] free[i] < last
}

impl Allocator {
    /// The largest id handed out and not given back.
    pub closed spec fn spec_last_id(&self) -> u16 {
        self.last_id
    }

    /// The ids below the largest one that were given back, in increasing order.
    pub closed spec fn spec_free_ids(&self) -> Seq<u16> {
        self.free_ids@
    }

    /// Well-formedness: the free list is sorted and lies below the largest id.
    pub open spec fn wf(&self) -> bool {
        free_list_ok(self.spec_last_id(), self.spec_free_ids())
    }

    /// Whether `id` is currently assigned to a connection.
    pub open spec fn is_live(&self, id: u16) -> bool {
        in_use(self.spec_last_id(), self.spec_free_ids(), id)
    }

    /// Construct an allocator with no ids in use.
    pub fn new() -> (r: Self)
        ensures
            r.wf(),
            r.spec_last_id() == 0,
            r.spec_free_ids().len() == 0,
            forall|id: u16| !r.is_live(id),
    {
        Allocator { last_id: 0, free_ids: Vec::new() }
    }

    /// The largest id handed out and not given back.
    pub fn last_id(&self) -> (r: ConnectionId)
        ensures
            r == self.spec_last_id(),
    {
        self.last_id
    }

    /// The ids below the largest one that were given back, in increasing order.
    pub fn free_ids(&self) -> (r: &[ConnectionId])
        ensures
            r@ == self.spec_free_ids(),
    {
        self.free_ids.as_slice()
    }

    /// Assign a new connection id.
    ///
    /// Ids that were given back are handed out again, the largest first, before fresh ones.
    pub fn allocate(&mut self) -> (r: Result<ConnectionId, OutOfIdsError>)
        requires
            old(self).wf(),
        ensures
            final(self).wf(),
            old(self).spec_free_ids().len() > 0 ==> r == Ok::<u16, OutOfIdsError>(
                old(self).spec_free_ids().last(),
            ) && final(self).spec_last_id() == old(self).spec_last_id()
                && final(self).spec_free_ids() == old(self).spec_free_ids().drop_last(),
            old(self).spec_free_ids().len() == 0 && old(self).spec_last_id() < u16::MAX ==> r
                == Ok::<u16, OutOfIdsError>((old(self).spec_last_id() + 1) as u16)
                && final(self).spec_last_id() == old(self).spec_last_id() + 1
                && final(self).spec_free_ids().len() == 0,
            old(self).spec_free_ids().len() == 0 && old(self).spec_last_id() == u16::MAX ==> r
                == Err::<u16, OutOfIdsError>(OutOfIdsError()) && *final(self) == *old(self),
            r matches Ok(id) ==> {
                &&& id != 0
                &&& !old(self).is_live(id)
                &&& final(self).is_live(id)
                &&& forall|other: u16| other != id ==> final(self).is_live(other) == old(
                    self,
                ).is_live(other)
            },
    {
        if self.free_ids.len() == 0 {
            if self.last_id == u16::MAX {
                Err(OutOfIdsError())
            } else {
                self.last_id = self.last_id + 1;
                Ok(self.last_id)
            }
        } else {
            let id = self.free_ids.pop().unwrap();
            proof {
                let f = old(self).free_ids@;
                assert(f.drop_last() =~= self.free_ids@);
                assert forall|other: u16| other != id implies self.is_live(other) == old(
                    self,
                ).is_live(other) by {
                    if f.contains(other) {
                        let k = choose|k: int| 0 <= k < f.len() && f[k] == other;
                        assert(self.free_ids@[k] == other);
                    }
                    if self.free_ids@.contains(other) {
                        let k = choose|k: int|
                            0 <= k < self.free_ids@.len() && self.free_ids@[k] == other;
                        assert(f[k] == other);
                    }
                }
                assert(!self.free_ids@.contains(id)) by {
                    if self.free_ids@.contains(id) {
                        let k = choose|k: int|
                            0 <= k < self.free_ids@.len() && self.free_ids@[k] == id;
                        assert(f[k] < f[f.len() - 1]);
                    }
                }
                assert(f.contains(id)) by {
                    assert(f[f.len() - 1] == id);
                }
            }
            Ok(id)
        }
    }

    /// Mark provided connection id as free to use.
    ///
    /// Giving back the largest id in use also gives back the run of free ids directly below it.
    pub fn free(&mut self, id: ConnectionId)
        requires
            old(self).wf(),
            old(self).is_live(id),
        ensures
            final(self).wf(),
            !final(self).is_live(id),
            forall|other: u16| other != id ==> final(self).is_live(other) == old(self).is_live(
                other,
            ),
    {
        let ghost old_last = self.last_id;
        let ghost old_free = self.free_ids@;
        if id == self.last_id {
            self.last_id = self.last_id - 1;
            while self.free_ids.len() > 0 && self.free_ids[self.free_ids.len() - 1] == self.last_id
                invariant
                    free_list_ok((self.last_id + 1) as u16, self.free_ids@),
                    self.last_id < old_last,
                    forall|other: u16|
                        #![trigger in_use(self.last_id, self.free_ids@, other)]
                        in_use(self.last_id, self.free_ids@, other) == (other != id && in_use(
                            old_last,
                            old_free,
                            other,
                        )),
                decreases self.free_ids.len(),
            {
                let ghost f = self.free_ids@;
                let ghost l = self.last_id;
                self.free_ids.pop();
                self.last_id = self.last_id - 1;
                proof {
                    assert(f.drop_last() =~= self.free_ids@);
                    assert forall|other: u16|
                        #![trigger in_use(self.last_id, self.free_ids@, other)]
                        in_use(self.last_id, self.free_ids@, other) == in_use(l, f, other) by {
                        if f.contains(other) && other != l {
                            let k = choose|k: int| 0 <= k < f.len() && f[k] == other;
                            assert(self.free_ids@[k] == other);
                        }
                        if self.free_ids@.contains(other) {
                            let k = choose|k: int|
                                0 <= k < self.free_ids@.len() && self.free_ids@[k] == other;
                            assert(f[k] == other);
                        }
                        if other == l {
                            assert(f[f.len() - 1] == l);
                        }
                    }
                }
            }
            proof {
                let f = self.free_ids@;
                assert forall|i: int| 0 <= i < f.len() implies 1 <= #[trigger] f[i]
                    < self.last_id by {
                    assert(f[i] <= f[f.len() - 1]);
                }
            }
        } else {
            let mut pos: usize = 0;
            while pos < self.free_ids.len() && self.free_ids[pos] < id
                invariant
                    pos <= self.free_ids.len(),
                    self.free_ids@ == old_free,
                    self.last_id == old_last,
                    forall|i: int| 0 <= i < pos ==> #[trigger] old_free[i] < id,
                decreases self.free_ids.len() - pos,
            {
                pos = pos + 1;
            }
            proof {
                assert forall|i: int| pos <= i < old_free.len() implies #[trigger] old_free[i]
                    > id by {
                    assert(old_free[i] >= old_free[pos as int]);
                    assert(old_free[pos as int] != id);
                }
            }
            self.free_ids.insert(pos, id);
            proof {
                let f = self.free_ids@;
                assert(f =~= old_free.insert(pos as int, id));
                assert forall|other: u16| other != id implies in_use(
                    self.last_id,
                    f,
                    other,
                ) == in_use(old_last, old_free, other) by {
                    if f.contains(other) {
                        let k = choose|k: int| 0 <= k < f.len() && f[k] == other;
                        if k < pos {
                            assert(old_free[k] == other);
                        } else {
                            assert(old_free[k - 1] == other);
                        }
                    }
                    if old_free.contains(other) {
                        let k = choose|k: int| 0 <= k < old_free.len() && old_free[k] == other;
                        if k < pos {
                            assert(f[k] == other);
                        } else {
                            assert(f[k + 1] == other);
                        }
                    }
                }
                assert(f[pos as int] == id);
            }
        }
    }
}

impl Default for Allocator {
    fn default() -> (r: Self)
        ensures
            r.wf(),
            r.spec_last_id() == 0,
            r.spec_free_ids().len() == 0,
    {
        Allocator::new()
    }
}

/// The allocator's state is fixed by the ids in use: the largest id handed out is in use (or
/// 0), and the free ids are exactly the gaps below it, the largest last. Together with
/// `allocate`, this makes given-back ids come out again, largest first, before fresh ones.
pub proof fn lemma_reuse_before_fresh(a: Allocator)
    requires
        a.wf(),
    ensures
        a.spec_last_id() == 0 || a.is_live(a.spec_last_id()),
        forall|id: u16| a.is_live(id) ==> id <= a.spec_last_id(),
        forall|id: u16|
            #![trigger a.spec_free_ids().contains(id)]
            a.spec_free_ids().contains(id) <==> (1 <= id < a.spec_last_id() && !a.is_live(id)),
        a.spec_free_ids().len() > 0 ==> {
            &&& a.spec_free_ids().contains(a.spec_free_ids().last())
            &&& a.spec_free_ids().last() < a.spec_last_id()
            &&& !a.is_live(a.spec_free_ids().last())
            &&& forall|id: u16| a.spec_free_ids().contains(id) ==> id <= a.spec_free_ids().last()
        },
{
    let f = a.spec_free_ids();
    let last = a.spec_last_id();
    assert(!f.contains(last)) by {
        if f.contains(last) {
            let k = choose|k: int| 0 <= k < f.len() && f[k] == last;
        }
    }
    assert forall|id: u16| f.contains(id) implies 1 <= id < last && !a.is_live(id) by {
        let k = choose|k: int| 0 <= k < f.len() && f[k] == id;
    }
    if f.len() > 0 {
        assert(f[f.len() - 1] == f.last());
        assert forall|id: u16| f.contains(id) implies id <= f.last() by {
            let k = choose|k: int| 0 <= k < f.len() && f[k] == id;
            if k < f.len() - 1 {
                assert(f[k] < f[f.len() - 1]);
            }
        }
    }
}

} // verus!
