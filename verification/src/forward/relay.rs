//! Relaying one proxied TCP connection: what to read from each side, what to
//! write to the other, and when to stop. Each direction holds at most
//! `PIPE_CAPACITY` bytes that were read from one side and not yet written to
//! the other.
use vstd::prelude::*;
use vstd::pervasive::VecAdditionalExecFns;

verus! {

/// How many bytes each direction holds at most.
pub const PIPE_CAPACITY: usize = 1500;

/// The bytes of one direction: read from one side, not yet written to the other.
/// It remembers, as ghost state, all bytes received and all bytes delivered.
pub struct Pipe {
    data: Vec<u8>,
    received: Ghost<Seq<u8>>,
    delivered: Ghost<Seq<u8>>,
}

impl View for Pipe {
    type V = Seq<u8>;

    /// The bytes waiting to be written, oldest first.
    closed spec fn view(&self) -> Seq<u8> {
        self.data@
    }
}

impl Pipe {
    /// Every byte read into the pipe so far, in order.
    pub closed spec fn received(&self) -> Seq<u8> {
        self.received@
    }

    /// Every byte written out of the pipe so far, in order.
    pub closed spec fn delivered(&self) -> Seq<u8> {
        self.delivered@
    }

    /// The pipe holds at most its capacity, and what it holds is exactly what
    /// was received and not yet delivered.
    pub closed spec fn wf(&self) -> bool {
        &&& self.data@.len() <= PIPE_CAPACITY
        &&& self.delivered@ + self.data@ == self.received@
    }

    /// An empty pipe that has carried nothing.
    pub fn new() -> (p: Pipe)
        ensures
            p.wf(),
            p@ == Seq::<u8>::empty(),
            p.received() == Seq::<u8>::empty(),
            p.delivered() == Seq::<u8>::empty(),
    {
        let p = Pipe {
            data: Vec::with_capacity(PIPE_CAPACITY),
            received: Ghost(Seq::empty()),
            delivered: Ghost(Seq::empty()),
        };
        assert(p.delivered@ + p.data@ =~= p.received@);
        p
    }

    /// How many bytes wait to be written.
    pub fn len(&self) -> (n: usize)
        ensures
            n == self@.len(),
    {
        self.data.len()
    }

    /// How many more bytes the pipe can take.
    pub fn free_space(&self) -> (n: usize)
        requires
            self.wf(),
        ensures
            n == PIPE_CAPACITY - self@.len(),
    {
        PIPE_CAPACITY - self.data.len()
    }

    /// The bytes waiting to be written, oldest first.
    pub fn pending(&self) -> (bytes: &[u8])
        ensures
            bytes@ == self@,
    {
        self.data.as_slice()
    }

    /// Takes `bytes`, just read from the source side, behind those waiting.
    pub fn receive(&mut self, bytes: &[u8])
        requires
            old(self).wf(),
            old(self)@.len() + bytes@.len() <= PIPE_CAPACITY,
        ensures
            final(self).wf(),
            final(self)@ == old(self)@ + bytes@,
            final(self).received() == old(self).received() + bytes@,
            final(self).delivered() == old(self).delivered(),
    {
        let ghost start = self.data@;
        let ghost received = self.received@;
        let ghost delivered = self.delivered@;
        let mut i: usize = 0;
        while i < bytes.len()
            invariant
                i <= bytes@.len(),
                self.data@ == start + bytes@.subrange(0, i as int),
                self.received@ == received,
                self.delivered@ == delivered,
            decreases bytes@.len() - i,
        {
            self.data.push(bytes[i]);
            assert(self.data@ =~= start + bytes@.subrange(0, i + 1));
            i = i + 1;
        }
        assert(bytes@.subrange(0, bytes@.len() as int) =~= bytes@);
        self.received = Ghost(received + bytes@);
        assert(self.delivered@ + self.data@ =~= self.received@);
    }

    /// Drops the `n` oldest bytes, just written to the destination side.
    pub fn mark_sent(&mut self, n: usize)
        requires
            old(self).wf(),
            n <= old(self)@.len(),
        ensures
            final(self).wf(),
            final(self)@ == old(self)@.subrange(n as int, old(self)@.len() as int),
            final(self).delivered() == old(self).delivered() + old(self)@.subrange(0, n as int),
            final(self).received() == old(self).received(),
    {
        let ghost before = self.data@;
        let ghost received = self.received@;
        let ghost delivered = self.delivered@;
        let len = self.data.len();
        let mut j: usize = 0;
        while j < len - n
            invariant
                n <= len,
                len == before.len(),
                j <= len - n,
                self.data@.len() == len,
                forall|k: int| 0 <= k < j ==> self.data@[k] == before[k + n],
                forall|k: int| j <= k < len ==> self.data@[k] == before[k],
                self.received@ == received,
                self.delivered@ == delivered,
            decreases len - n - j,
        {
            let b = self.data[j + n];
            self.data.set(j, b);
            j = j + 1;
        }
        self.data.truncate(len - n);
        assert(self.data@ =~= before.subrange(n as int, len as int));
        self.delivered = Ghost(delivered + before.subrange(0, n as int));
        assert(before =~= before.subrange(0, n as int) + self.data@);
        assert(self.delivered@ + self.data@ =~= self.received@);
    }
}

/// What happened on the connection since the last step.
#[derive(Clone, Debug)]
pub enum RelayEvent {
    /// Bytes read from the client; none means the client closed its side.
    ClientRead(Vec<u8>),
    /// So many bytes were written to the client.
    ClientWritten(usize),
    /// Bytes read from the target; none means the target closed its side.
    TargetRead(Vec<u8>),
    /// So many bytes were written to the target.
    TargetWritten(usize),
    /// Reading from or writing to the client failed.
    ClientFailed,
    /// Reading from or writing to the target failed.
    TargetFailed,
    /// The service is no longer exposed.
    Shutdown,
}

/// Whether the connection goes on after a step.
#[derive(Clone, Copy, Debug, PartialEq, Eq)]
pub enum RelayStep {
    Continue,
    Close,
}

/// The state of one proxied connection: the bytes on their way from the client
/// to the target, and those on their way from the target to the client.
pub struct Relay {
    upstream: Pipe,
    downstream: Pipe,
}

/// Whether `event` can come from the I/O that a relay in state `r` asks for:
/// a read fills at most the free space offered, a write takes at most the
/// bytes offered.
pub open spec fn event_fits(r: Relay, event: RelayEvent) -> bool {
    match event {
        RelayEvent::ClientRead(bytes) => r.upstream()@.len() + bytes@.len() <= PIPE_CAPACITY,
        RelayEvent::ClientWritten(n) => n <= r.downstream()@.len(),
        RelayEvent::TargetRead(bytes) => r.downstream()@.len() + bytes@.len() <= PIPE_CAPACITY,
        RelayEvent::TargetWritten(n) => n <= r.upstream()@.len(),
        _ => true,
    }
}

/// Whether `event` ends the connection: end of input on either side, a
/// failure, or a shutdown. Nothing else does.
pub open spec fn closes_on(event: RelayEvent) -> bool {
    match event {
        RelayEvent::ClientRead(bytes) => bytes@.len() == 0,
        RelayEvent::TargetRead(bytes) => bytes@.len() == 0,
        RelayEvent::ClientWritten(_) => false,
        RelayEvent::TargetWritten(_) => false,
        _ => true,
    }
}

impl Relay {
    /// Bytes from the client to the target.
    pub closed spec fn upstream(self) -> Pipe {
        self.upstream
    }

    /// Bytes from the target to the client.
    pub closed spec fn downstream(self) -> Pipe {
        self.downstream
    }

    pub open spec fn wf(self) -> bool {
        self.upstream().wf() && self.downstream().wf()
    }

    /// A connection on which nothing has been carried yet.
    pub fn new() -> (r: Relay)
        ensures
            r.wf(),
            r.upstream()@ == Seq::<u8>::empty(),
            r.upstream().received() == Seq::<u8>::empty(),
            r.upstream().delivered() == Seq::<u8>::empty(),
            r.downstream()@ == Seq::<u8>::empty(),
            r.downstream().received() == Seq::<u8>::empty(),
            r.downstream().delivered() == Seq::<u8>::empty(),
    {
        Relay { upstream: Pipe::new(), downstream: Pipe::new() }
    }

    /// How many bytes to read from the client now; 0 means do not read.
    pub fn client_read_limit(&self) -> (n: usize)
        requires
            self.wf(),
        ensures
            n == PIPE_CAPACITY - self.upstream()@.len(),
    {
        self.upstream.free_space()
    }

    /// How many bytes to read from the target now; 0 means do not read.
    pub fn target_read_limit(&self) -> (n: usize)
        requires
            self.wf(),
        ensures
            n == PIPE_CAPACITY - self.downstream()@.len(),
    {
        self.downstream.free_space()
    }

    /// The bytes to write to the client now; none means do not write.
    pub fn to_client(&self) -> (bytes: &[u8])
        ensures
            bytes@ == self.downstream()@,
    {
        self.downstream.pending()
    }

    /// The bytes to write to the target now; none means do not write.
    pub fn to_target(&self) -> (bytes: &[u8])
        ensures
            bytes@ == self.upstream()@,
    {
        self.upstream.pending()
    }

    /// Takes in what happened, and says whether the connection goes on. Bytes
    /// read from one side are queued for the other; bytes written leave their
    /// queue. End of input on either side, a failure, or a shutdown closes the
    /// connection and changes nothing.
    pub fn handle(&mut self, event: RelayEvent) -> (step: RelayStep)
        requires
            old(self).wf(),
            event_fits(*old(self), event),
        ensures
            final(self).wf(),
            (step == RelayStep::Close) == closes_on(event),
            match event {
                RelayEvent::ClientRead(bytes) => if bytes@.len() == 0 {
                    step == RelayStep::Close && *final(self) == *old(self)
                } else {
                    &&& step == RelayStep::Continue
                    &&& final(self).upstream()@ == old(self).upstream()@ + bytes@
                    &&& final(self).upstream().received() == old(self).upstream().received()
                        + bytes@
                    &&& final(self).upstream().delivered() == old(self).upstream().delivered()
                    &&& final(self).downstream() == old(self).downstream()
                },
                RelayEvent::TargetRead(bytes) => if bytes@.len() == 0 {
                    step == RelayStep::Close && *final(self) == *old(self)
                } else {
                    &&& step == RelayStep::Continue
                    &&& final(self).downstream()@ == old(self).downstream()@ + bytes@
                    &&& final(self).downstream().received() == old(self).downstream().received()
                        + bytes@
                    &&& final(self).downstream().delivered()
                        == old(self).downstream().delivered()
                    &&& final(self).upstream() == old(self).upstream()
                },
                RelayEvent::ClientWritten(n) => {
                    let sent = old(self).downstream()@;
                    &&& step == RelayStep::Continue
                    &&& final(self).downstream()@ == sent.subrange(n as int, sent.len() as int)
                    &&& final(self).downstream().delivered() == old(self).downstream().delivered()
                        + sent.subrange(0, n as int)
                    &&& final(self).downstream().received()
                        == old(self).downstream().received()
                    &&& final(self).upstream() == old(self).upstream()
                },
                RelayEvent::TargetWritten(n) => {
                    let sent = old(self).upstream()@;
                    &&& step == RelayStep::Continue
                    &&& final(self).upstream()@ == sent.subrange(n as int, sent.len() as int)
                    &&& final(self).upstream().delivered() == old(self).upstream().delivered()
                        + sent.subrange(0, n as int)
                    &&& final(self).upstream().received() == old(self).upstream().received()
                    &&& final(self).downstream() == old(self).downstream()
                },
                _ => step == RelayStep::Close && *final(self) == *old(self),
            },
    {
        match event {
            RelayEvent::ClientRead(bytes) => {
                if bytes.len() == 0 {
                    RelayStep::Close
                } else {
                    self.upstream.receive(bytes.as_slice());
                    RelayStep::Continue
                }
            },
            RelayEvent::TargetRead(bytes) => {
                if bytes.len() == 0 {
                    RelayStep::Close
                } else {
                    self.downstream.receive(bytes.as_slice());
                    RelayStep::Continue
                }
            },
            RelayEvent::ClientWritten(n) => {
                self.downstream.mark_sent(n);
                RelayStep::Continue
            },
            RelayEvent::TargetWritten(n) => {
                self.upstream.mark_sent(n);
                RelayStep::Continue
            },
            _ => RelayStep::Close,
        }
    }
}

/// Whatever a pipe has delivered is, in order, what it received, and it holds
/// no more than its capacity: nothing is lost, duplicated or reordered.
pub proof fn lemma_pipe_delivers_in_order(p: Pipe)
    requires
        p.wf(),
    ensures
        p.delivered() + p@ == p.received(),
        p.delivered().len() <= p.received().len(),
        p.delivered() == p.received().subrange(0, p.delivered().len() as int),
        p@.len() <= PIPE_CAPACITY,
{
    assert(p.received().subrange(0, p.delivered().len() as int) =~= p.delivered());
}

/// Both directions of a relayed connection deliver, in order, exactly what they
/// received, and neither holds more than its capacity.
pub proof fn lemma_relay_delivers_in_order(r: Relay)
    requires
        r.wf(),
    ensures
        r.upstream().delivered() + r.upstream()@ == r.upstream().received(),
        r.downstream().delivered() + r.downstream()@ == r.downstream().received(),
        r.upstream()@.len() <= PIPE_CAPACITY,
        r.downstream()@.len() <= PIPE_CAPACITY,
{
    lemma_pipe_delivers_in_order(r.upstream());
    lemma_pipe_delivers_in_order(r.downstream());
}

} // verus!
