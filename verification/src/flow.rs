//! One direction of a relay: bytes are taken from one peer and given to the
//! other in the order in which they came, at most one read at a time.

use vstd::prelude::*;
use vstd::slice::slice_subrange;

verus! {

/// The history of one direction.
pub struct Flow {
    /// All bytes read from the source so far.
    pub taken: Seq<u8>,
    /// All bytes written to the sink so far.
    pub given: Seq<u8>,
    /// Whether the source has reached the end of its input.
    pub closed: bool,
    /// The most bytes that one read may bring.
    pub limit: nat,
}

impl Flow {
    /// What was given is the beginning of what was taken, and what is held
    /// back came from one read.
    pub open spec fn wf(self) -> bool {
        &&& self.given.is_prefix_of(self.taken)
        &&& self.held().len() <= self.limit
    }

    /// The bytes that were taken and not given yet.
    pub open spec fn held(self) -> Seq<u8> {
        self.taken.subrange(self.given.len() as int, self.taken.len() as int)
    }

    /// The source is to be read: it has not ended, and nothing is held.
    pub open spec fn wants_read(self) -> bool {
        !self.closed && self.held().len() == 0
    }

    /// The sink is to be written to: something is held.
    pub open spec fn wants_write(self) -> bool {
        self.held().len() > 0
    }

    /// The source has ended and nothing is held.
    pub open spec fn drained(self) -> bool {
        self.closed && self.held().len() == 0
    }

    /// The flow after a read that brought `data`. A read that brings nothing
    /// is the end of the source.
    pub open spec fn after_read(self, data: Seq<u8>) -> Flow {
        if data.len() == 0 {
            Flow { closed: true, ..self }
        } else {
            Flow { taken: self.taken + data, ..self }
        }
    }

    /// The flow after a write that took the first `n` of the bytes held.
    pub open spec fn after_write(self, n: nat) -> Flow {
        Flow { given: self.taken.subrange(0, (self.given.len() + n) as int), ..self }
    }
}

/// A read into a flow that wants one keeps it well-formed, and the bytes that
/// it brought are then the bytes held.
pub proof fn lemma_after_read(flow: Flow, data: Seq<u8>)
    requires
        flow.wf(),
        flow.wants_read(),
        data.len() <= flow.limit,
    ensures
        flow.after_read(data).wf(),
        flow.after_read(data).held() == data,
        flow.after_read(data).given == flow.given,
{
    assert(flow.taken =~= flow.given);
    assert(flow.after_read(data).held() =~= data);
}

/// A write out of a flow keeps it well-formed: the bytes written are added to
/// what was given in their order, and the rest stays held.
pub proof fn lemma_after_write(flow: Flow, n: nat)
    requires
        flow.wf(),
        n <= flow.held().len(),
    ensures
        flow.after_write(n).wf(),
        flow.after_write(n).given == flow.given + flow.held().subrange(0, n as int),
        flow.after_write(n).held() == flow.held().subrange(n as int, flow.held().len() as int),
        flow.after_write(n).taken == flow.taken,
{
    assert(flow.after_write(n).given =~= flow.given + flow.held().subrange(0, n as int));
    assert(flow.after_write(n).held() =~= flow.held().subrange(
        n as int,
        flow.held().len() as int,
    ));
}

/// A flow that holds nothing has given all that it took, in order.
pub proof fn lemma_nothing_held(flow: Flow)
    requires
        flow.wf(),
        flow.held().len() == 0,
    ensures
        flow.given == flow.taken,
{
    assert(flow.given =~= flow.taken);
}

/// One direction of a relay, with the bytes of its last read.
pub struct Lane {
    pending: Vec<u8>,
    sent: usize,
    closed: bool,
    limit: usize,
    taken: Ghost<Seq<u8>>,
    given: Ghost<Seq<u8>>,
}

impl View for Lane {
    type V = Flow;

    closed spec fn view(&self) -> Flow {
        Flow { taken: self.taken@, given: self.given@, closed: self.closed, limit: self.limit as nat }
    }
}

impl Lane {
    /// The lane stands for a well-formed flow and holds its bytes.
    pub closed spec fn wf(&self) -> bool {
        &&& self@.wf()
        &&& self.sent <= self.pending@.len()
        &&& self.pending@.subrange(self.sent as int, self.pending@.len() as int) == self@.held()
    }

    /// A well-formed lane stands for a well-formed flow.
    pub proof fn lemma_wf(&self)
        requires
            self.wf(),
        ensures
            self@.wf(),
    {
    }

    /// A lane through which nothing has gone yet, for reads of at most
    /// `limit` bytes.
    pub fn new(limit: usize) -> (lane: Lane)
        ensures
            lane.wf(),
            lane@ == (Flow {
                taken: Seq::empty(),
                given: Seq::empty(),
                closed: false,
                limit: limit as nat,
            }),
    {
        let lane = Lane {
            pending: Vec::new(),
            sent: 0,
            closed: false,
            limit,
            taken: Ghost(Seq::empty()),
            given: Ghost(Seq::empty()),
        };
        assert(lane@.held() =~= Seq::<u8>::empty());
        assert(lane.pending@.subrange(0, 0) =~= lane@.held());
        lane
    }

    /// The most bytes that one read may bring.
    pub fn limit(&self) -> (limit: usize)
        ensures
            limit == self@.limit,
    {
        self.limit
    }

    /// Tells whether the source is to be read.
    pub fn wants_read(&self) -> (yes: bool)
        requires
            self.wf(),
        ensures
            yes == self@.wants_read(),
    {
        !self.closed && self.sent == self.pending.len()
    }

    /// Tells whether the sink is to be written to.
    pub fn wants_write(&self) -> (yes: bool)
        requires
            self.wf(),
        ensures
            yes == self@.wants_write(),
    {
        self.sent < self.pending.len()
    }

    /// Tells whether the source has ended and all that came from it was
    /// given.
    pub fn drained(&self) -> (yes: bool)
        requires
            self.wf(),
        ensures
            yes == self@.drained(),
            yes ==> self@.given == self@.taken,
    {
        proof {
            if self@.held().len() == 0 {
                lemma_nothing_held(self@);
            }
        }
        self.closed && self.sent == self.pending.len()
    }

    /// The bytes that are held, in the order in which they are to be written.
    pub fn unsent(&self) -> (bytes: &[u8])
        requires
            self.wf(),
        ensures
            bytes@ == self@.held(),
            bytes@.len() <= self@.limit,
    {
        slice_subrange(self.pending.as_slice(), self.sent, self.pending.len())
    }

    /// Takes in what a read brought.
    pub fn take(&mut self, data: Vec<u8>)
        requires
            old(self).wf(),
            old(self)@.wants_read(),
            data@.len() <= old(self)@.limit,
        ensures
            final(self).wf(),
            final(self)@ == old(self)@.after_read(data@),
    {
        proof {
            lemma_after_read(self@, data@);
        }
        if data.len() == 0 {
            self.closed = true;
        } else {
            self.taken = Ghost(self.taken@ + data@);
            self.pending = data;
            self.sent = 0;
            assert(self.pending@.subrange(0, self.pending@.len() as int) =~= self.pending@);
        }
    }

    /// Records that a write took the first `n` of the bytes held.
    pub fn wrote(&mut self, n: usize)
        requires
            old(self).wf(),
            n <= old(self)@.held().len(),
        ensures
            final(self).wf(),
            final(self)@ == old(self)@.after_write(n as nat),
    {
        proof {
            lemma_after_write(self@, n as nat);
        }
        let ghost held = self@.held();
        assert(self.sent + n <= self.pending.len()) by {
            assert(held.len() == self.pending@.len() - self.sent);
        }
        self.given = Ghost(self.taken@.subrange(0, self.given@.len() + n));
        self.sent = self.sent + n;
        assert(self.pending@.subrange(self.sent as int, self.pending@.len() as int) =~= held.subrange(
            n as int,
            held.len() as int,
        ));
    }
}

} // verus!
