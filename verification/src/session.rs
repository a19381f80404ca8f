use std::collections::HashMap;
use vstd::prelude::*;

verus! {

broadcast use vstd::std_specs::hash::group_hash_axioms;

/// Capacity of the submission queue between the session facade and the
/// write loop: a caller submitting a request while this many are already
/// queued and undrained is suspended until a slot frees.
pub const SUBMISSION_QUEUE_CAPACITY: usize = 128;

/// What withdrawing the entry for `id` from a correlation table `m` hands
/// back: the completion slot registered under `id`, if a request using that
/// id is outstanding, and nothing otherwise.
pub open spec fn take_result<S>(m: Map<i32, S>, id: i32) -> Option<S> {
    if m.dom().contains(id) {
        Some(m[id])
    } else {
        None
    }
}

/// State shared by the write loop and the read loop of one session: the
/// correlation table, mapping each outstanding request's id to its
/// completion slot, and the counter holding the id the next frame will
/// carry. The slot type `S` is opaque to the core; a session stores the
/// sending half of a one-shot channel there.
///
/// Ids are assigned in strictly increasing order starting at 0 and an id is
/// never reused while an entry for it is live, so a table entry exists for
/// an id exactly while one request using it is in flight and unresolved.
#[derive(Debug)]
pub struct SessionCore<S> {
    table: HashMap<i32, S>,
    counter: i32,
    writing: bool,
}

impl<S> SessionCore<S> {
    /// The correlation table: each live id with its completion slot.
    pub closed spec fn entries(self) -> Map<i32, S> {
        self.table@
    }

    /// The id that the next write will carry.
    pub closed spec fn next_id(self) -> i32 {
        self.counter
    }

    /// Whether a write is in flight: its slot is already registered (the
    /// entry must exist before the frame reaches the wire, so a reply can
    /// never arrive ahead of it) but the write's outcome is not yet known.
    pub closed spec fn mid_write(self) -> bool {
        self.writing
    }

    /// Invariant: ids are assigned in increasing order, so every live entry
    /// carries an id below the counter — except, while a write is in
    /// flight, the entry just registered under the counter's own value.
    pub open spec fn wf(self) -> bool {
        &&& 0 <= self.next_id()
        &&& forall|k: i32|
            #[trigger] self.entries().dom().contains(k) ==> if self.mid_write() {
                k <= self.next_id()
            } else {
                k < self.next_id()
            }
    }

    /// A fresh session core: no outstanding request, the first write will
    /// carry id 0.
    pub fn new() -> (core: Self)
        ensures
            core.wf(),
            core.entries() == Map::<i32, S>::empty(),
            core.next_id() == 0,
            !core.mid_write(),
    {
        SessionCore { table: HashMap::new(), counter: 0, writing: false }
    }

    /// First half of one write-loop step: assign the counter's id to the
    /// dequeued request and register its completion slot in the table,
    /// before anything is put on the wire. The id is fresh: no outstanding
    /// request is using it, so no slot is displaced.
    pub fn begin_send(&mut self, slot: S) -> (id: i32)
        requires
            old(self).wf(),
            !old(self).mid_write(),
        ensures
            final(self).wf(),
            final(self).mid_write(),
            id == old(self).next_id(),
            !old(self).entries().dom().contains(id),
            final(self).entries() == old(self).entries().insert(id, slot),
            final(self).next_id() == old(self).next_id(),
    {
        let id = self.counter;
        self.table.insert(id, slot);
        self.writing = true;
        proof {
            assert forall|k: i32| self.entries().dom().contains(k) implies k
                <= self.next_id() by {
                if k != id {
                    assert(old(self).entries().dom().contains(k));
                }
            }
        }
        id
    }

    /// Second half of a write-loop step whose encode, write and flush all
    /// succeeded: the id is consumed, the next request gets a fresh one.
    /// The entry stays live until a matching reply arrives or the session
    /// is torn down.
    pub fn end_send_ok(&mut self)
        requires
            old(self).wf(),
            old(self).mid_write(),
            old(self).next_id() < i32::MAX,
        ensures
            final(self).wf(),
            !final(self).mid_write(),
            final(self).entries() == old(self).entries(),
            final(self).next_id() == old(self).next_id() + 1,
    {
        self.counter = self.counter + 1;
        self.writing = false;
        proof {
            assert forall|k: i32| self.entries().dom().contains(k) implies k
                < self.next_id() by {
                assert(old(self).entries().dom().contains(k));
            }
        }
    }

    /// Second half of a write-loop step whose encode, write or flush
    /// failed: the just-registered slot leaves the table and is handed back
    /// (dropping it unsignalled resolves the caller's awaitable to no
    /// response), and the id is not consumed — the next request reuses it.
    pub fn end_send_err(&mut self) -> (slot: Option<S>)
        requires
            old(self).wf(),
            old(self).mid_write(),
        ensures
            final(self).wf(),
            !final(self).mid_write(),
            final(self).entries() == old(self).entries().remove(old(self).next_id()),
            final(self).next_id() == old(self).next_id(),
            slot == take_result(old(self).entries(), old(self).next_id()),
    {
        self.writing = false;
        let id = self.counter;
        self.table.remove(&id)
    }

    /// The read loop's routing decision for a successfully decoded frame
    /// carrying `id`: if the id matches an outstanding request, that
    /// request's slot is withdrawn and handed back, to be signalled with
    /// the decoded response — the frame belongs to that caller and to no
    /// one else. If it matches nothing (an unsolicited push, or a late
    /// reply whose entry is already gone), the table is untouched and the
    /// frame is the handler's.
    pub fn take_pending(&mut self, id: i32) -> (slot: Option<S>)
        requires
            old(self).wf(),
        ensures
            final(self).wf(),
            final(self).mid_write() == old(self).mid_write(),
            final(self).next_id() == old(self).next_id(),
            final(self).entries() == old(self).entries().remove(id),
            slot == take_result(old(self).entries(), id),
            slot is None ==> final(self).entries() == old(self).entries(),
    {
        self.table.remove(&id)
    }

    /// Number of outstanding requests: entries registered and neither
    /// resolved by a reply nor discarded by a write failure.
    pub fn outstanding(&self) -> (n: usize)
        ensures
            n == self.entries().len(),
    {
        self.table.len()
    }

    /// Whether a write is in flight; between a `begin_send` and the
    /// matching conclusion. The write loop concludes every write it
    /// begins before beginning another.
    pub fn is_mid_write(&self) -> (r: bool)
        ensures
            r == self.mid_write(),
    {
        self.writing
    }
}

} // verus!
