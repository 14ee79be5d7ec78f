//! Request multiplexing over one connection: stream ids are drawn from
//! the 32768-slot space, never reused while a response is outstanding,
//! and each arriving response is routed to exactly the caller whose id it
//! echoes.  Responses with the server's ids — negative, read as signed —
//! belong to the event channel, not to any caller.

use vstd::prelude::*;

verus! {

/// The position of the entry with stream id `id`, or -1 when none has it.
pub open spec fn id_index(ps: Seq<(u16, u64)>, id: u16) -> int
    decreases ps.len(),
{
    if ps.len() == 0 {
        -1
    } else if ps[0].0 == id {
        0
    } else {
        let r = id_index(ps.skip(1), id);
        if r < 0 {
            -1
        } else {
            r + 1
        }
    }
}

/// What [`id_index`] finds: the position of the only entry with the id,
/// or that there is none.
pub proof fn lemma_id_index_props(ps: Seq<(u16, u64)>, id: u16)
    ensures
        -1 <= id_index(ps, id) < ps.len(),
        id_index(ps, id) >= 0 ==> ps[id_index(ps, id)].0 == id,
        forall|j: int| 0 <= j < ps.len() && #[trigger] ps[j].0 == id ==> id_index(ps, id) >= 0,
        forall|j: int|
            0 <= j < ps.len() && id_index(ps, id) != j && j <= id_index(ps, id) ==> ps[j].0 != id,
        id_index(ps, id) == -1 ==> forall|j: int| 0 <= j < ps.len() ==> ps[j].0 != id,
    decreases ps.len(),
{
    if ps.len() > 0 && ps[0].0 != id {
        lemma_id_index_props(ps.skip(1), id);
        assert(forall|j: int| 1 <= j < ps.len() ==> ps[j] == ps.skip(1)[j - 1]);
    }
}

/// Where an arriving frame belongs.
pub enum Routed {
    /// The caller registered under this stream id; the entry is retired.
    Caller(u64),
    /// A server-initiated event: the id is negative, read as signed.
    Event,
    /// No caller is waiting under this id; the frame is dropped.
    Unknown,
}

/// The driver's table of in-flight requests: each outstanding stream id
/// with the token of the caller awaiting it, and the free ids.
pub struct Multiplexer {
    pending: Vec<(u16, u64)>,
    free: Vec<u16>,
    next: u16,
}

impl View for Multiplexer {
    type V = Seq<(u16, u64)>;

    closed spec fn view(&self) -> Seq<(u16, u64)> {
        self.pending@
    }
}

impl Multiplexer {
    /// Ids below `next` are partitioned between the outstanding entries
    /// and the free list; everything else is never handed out twice.
    /// Constructed by [`Multiplexer::new`] and preserved by every method.
    pub closed spec fn wf(&self) -> bool {
        &&& self.next <= 0x8000
        &&& forall|i: int| 0 <= i < self.pending@.len() ==> (#[trigger] self.pending@[i]).0
            < self.next
        &&& forall|i: int| 0 <= i < self.free@.len() ==> (#[trigger] self.free@[i]) < self.next
        &&& forall|i: int, j: int|
            0 <= i < j < self.pending@.len() ==> (#[trigger] self.pending@[i]).0 != (
            #[trigger] self.pending@[j]).0
        &&& forall|i: int, j: int|
            0 <= i < j < self.free@.len() ==> (#[trigger] self.free@[i]) != (
            #[trigger] self.free@[j])
        &&& forall|i: int, j: int|
            0 <= i < self.pending@.len() && 0 <= j < self.free@.len() ==> (
            #[trigger] self.pending@[i]).0 != (#[trigger] self.free@[j])
        &&& self.pending@.len() + self.free@.len() == self.next
    }

    /// An empty table: nothing outstanding.
    pub fn new() -> (r: Multiplexer)
        ensures
            r@ == Seq::<(u16, u64)>::empty(),
            r.wf(),
    {
        Multiplexer { pending: Vec::new(), free: Vec::new(), next: 0 }
    }

    /// How many requests are outstanding.
    pub fn in_flight(&self) -> (r: usize)
        ensures
            r == self@.len(),
    {
        self.pending.len()
    }

    /// Draws a fresh stream id for a caller: one no outstanding request
    /// uses.  Fails exactly when all 32768 ids are outstanding — the
    /// back-pressure signal.
    pub fn register(&mut self, token: u64) -> (r: Option<u16>)
        requires
            old(self).wf(),
        ensures
            final(self).wf(),
            old(self)@.len() == 0x8000 <==> r is None,
            r is None ==> final(self)@ == old(self)@,
            r matches Some(id) ==> ({
                &&& id < 0x8000
                &&& id_index(old(self)@, id) == -1
                &&& final(self)@ == old(self)@.push((id, token))
            }),
    {
        let id = match self.free.pop() {
            Some(id) => id,
            None => {
                if self.next == 0x8000 {
                    proof {
                        assert(self@.len() == 0x8000);
                    }
                    return None;
                }
                let id = self.next;
                self.next = self.next + 1;
                id
            },
        };
        proof {
            lemma_id_index_props(self@, id);
        }
        self.pending.push((id, token));
        Some(id)
    }

    /// Routes an arriving response: a negative stream id — top bit set —
    /// is a server event; otherwise the caller registered under the id
    /// gets it and the id becomes reusable; an id nobody awaits reports
    /// `Unknown`.
    pub fn route(&mut self, stream_id: u16) -> (r: Routed)
        requires
            old(self).wf(),
        ensures
            final(self).wf(),
            stream_id >= 0x8000 ==> r is Event && final(self)@ == old(self)@,
            stream_id < 0x8000 ==> ({
                let ix = id_index(old(self)@, stream_id);
                if ix >= 0 {
                    &&& r matches Routed::Caller(tok) && tok == old(self)@[ix].1
                    &&& final(self)@ == old(self)@.remove(ix)
                } else {
                    r is Unknown && final(self)@ == old(self)@
                }
            }),
    {
        if stream_id >= 0x8000 {
            return Routed::Event;
        }
        proof {
            lemma_id_index_props(self@, stream_id);
        }
        let ghost ps = self@;
        let n = self.pending.len();
        let mut j: usize = 0;
        while j < n
            invariant
                stream_id < 0x8000,
                *self == *old(self),
                old(self).wf(),
                n == self.pending@.len(),
                0 <= j <= n,
                ps == self.pending@,
                forall|q: int| 0 <= q < j ==> ps[q].0 != stream_id,
            decreases n - j,
        {
            if self.pending[j].0 == stream_id {
                proof {
                    lemma_id_index_props(ps, stream_id);
                    let ix = id_index(ps, stream_id);
                    assert(ps[j as int].0 == stream_id);
                    assert(ix >= 0);
                    if ix < j {
                        assert(ps[ix].0 == stream_id);
                        assert(false);
                    }
                    if ix > j {
                        assert(ps[j as int].0 != stream_id);
                        assert(false);
                    }
                }
                let entry = self.pending.remove(j);
                self.free.push(entry.0);
                proof {
                    assert(self.pending@ =~= ps.subrange(0, j as int) + ps.subrange(
                        j + 1,
                        ps.len() as int,
                    ));
                    assert forall|q: int| 0 <= q < self.pending@.len() implies (
                    #[trigger] self.pending@[q]) == (if q < j {
                        ps[q]
                    } else {
                        ps[q + 1]
                    }) by {}
                    assert(self.pending@ =~= ps.remove(j as int));
                }
                return Routed::Caller(entry.1);
            }
            j += 1;
        }
        proof {
            lemma_id_index_props(ps, stream_id);
        }
        Routed::Unknown
    }
}

} // verus!
