//! Per-connection flow control: a credit counter, the FIFO of requests that
//! await their response, and the segments of the message being received.
use vstd::prelude::*;

use crate::marshal::ShmBuf;

verus! {

/// A connection whose credit is at or below this sends nothing more.
pub const LOW_WATER: usize = 5;

/// Credit of a new connection: the number of receives posted for it.
pub const INITIAL_CREDIT: usize = 128;

/// A request in flight: its call id and the number of segments it took.
#[derive(Clone, Copy, Debug, PartialEq, Eq, Structural)]
pub struct ReqContext {
    pub call_id: u32,
    pub sg_len: usize,
}

/// Errors of per-connection flow control. Each one means that the peer
/// broke the protocol.
#[derive(Clone, Copy, Debug, PartialEq, Eq, Structural)]
pub enum FlowError {
    /// A response arrived while no request was outstanding.
    NoOutstandingRequest,
    /// A response's call id differs from the oldest outstanding request's.
    CallIdMismatch,
}

/// The total segment count of the outstanding requests.
pub open spec fn outstanding_segments(reqs: Seq<ReqContext>) -> nat
    decreases reqs.len(),
{
    if reqs.len() == 0 {
        0
    } else {
        outstanding_segments(reqs.drop_last()) + reqs.last().sg_len as nat
    }
}

/// State of one connection.
pub struct ConnectionContext {
    /// Handle of the connection's endpoint.
    pub cmid: u32,
    /// Credit that the connection started with.
    pub initial_credit: usize,
    /// Segments that may still be sent before the peer's receives run out.
    pub credit: usize,
    /// Requests sent and not yet answered, oldest first.
    pub outstanding_req: std::collections::VecDeque<ReqContext>,
    /// Segments of the inbound message received so far.
    pub receiving_sgl: Vec<ShmBuf>,
    /// The `wr_id`s of the receives that brought those segments.
    pub receiving_wrs: Vec<u64>,
}

impl ConnectionContext {
    pub open spec fn outstanding(&self) -> Seq<ReqContext> {
        self.outstanding_req@
    }

    /// Credit is conserved: what is left plus what is outstanding is what the
    /// connection started with.
    pub open spec fn wf(&self) -> bool {
        self.credit + outstanding_segments(self.outstanding()) == self.initial_credit
    }

    /// Whether a message of `sg_len` segments may be sent now: credit is
    /// above the low-water mark and, for a request, covers its segments.
    pub open spec fn admits(&self, sg_len: nat, is_request: bool) -> bool {
        self.credit > LOW_WATER && (is_request ==> sg_len <= self.credit)
    }

    /// A connection with `credit` credit, nothing outstanding or received.
    pub fn new(cmid: u32, credit: usize) -> (r: ConnectionContext)
        ensures
            r.wf(),
            r.cmid == cmid,
            r.initial_credit == credit,
            r.credit == credit,
            r.outstanding() == Seq::<ReqContext>::empty(),
            r.receiving_sgl@ == Seq::<ShmBuf>::empty(),
            r.receiving_wrs@ == Seq::<u64>::empty(),
    {
        ConnectionContext {
            cmid,
            initial_credit: credit,
            credit,
            outstanding_req: std::collections::VecDeque::new(),
            receiving_sgl: Vec::new(),
            receiving_wrs: Vec::new(),
        }
    }

    /// Whether a message of `sg_len` segments may be sent now.
    pub fn admits_now(&self, sg_len: usize, is_request: bool) -> (r: bool)
        ensures
            r == self.admits(sg_len as nat, is_request),
    {
        self.credit > LOW_WATER && (!is_request || sg_len <= self.credit)
    }

    /// Records a request of `sg_len` segments as sent: its segments are taken
    /// from the credit and it joins the back of the outstanding FIFO.
    pub fn on_request_sent(&mut self, call_id: u32, sg_len: usize)
        requires
            old(self).wf(),
            sg_len <= old(self).credit,
        ensures
            final(self).wf(),
            final(self).cmid == old(self).cmid,
            final(self).initial_credit == old(self).initial_credit,
            final(self).credit == old(self).credit - sg_len,
            final(self).outstanding() == old(self).outstanding().push(ReqContext { call_id, sg_len }),
            final(self).receiving_sgl@ == old(self).receiving_sgl@,
            final(self).receiving_wrs@ == old(self).receiving_wrs@,
    {
        self.credit = self.credit - sg_len;
        self.outstanding_req.push_back(ReqContext { call_id, sg_len });
        proof {
            assert(self.outstanding().drop_last() =~= old(self).outstanding());
        }
    }

    /// Matches a response with call id `call_id` against the oldest
    /// outstanding request; on a match, removes it and gives its segments
    /// back to the credit. On a mismatch nothing changes.
    pub fn on_response(&mut self, call_id: u32) -> (r: Result<ReqContext, FlowError>)
        requires
            old(self).wf(),
        ensures
            final(self).wf(),
            final(self).cmid == old(self).cmid,
            final(self).initial_credit == old(self).initial_credit,
            final(self).receiving_sgl@ == old(self).receiving_sgl@,
            final(self).receiving_wrs@ == old(self).receiving_wrs@,
            old(self).outstanding().len() == 0 ==> r == Err::<ReqContext, FlowError>(
                FlowError::NoOutstandingRequest,
            ),
            old(self).outstanding().len() > 0 && old(self).outstanding()[0].call_id != call_id
                ==> r == Err::<ReqContext, FlowError>(FlowError::CallIdMismatch),
            old(self).outstanding().len() > 0 && old(self).outstanding()[0].call_id == call_id
                ==> r is Ok,
            r is Ok <==> answer_responses(old(self).outstanding(), seq![call_id]) is Some,
            r is Ok ==> answer_responses(old(self).outstanding(), seq![call_id]) == Some(
                (final(self).outstanding(), seq![r->Ok_0]),
            ),
            r is Err ==> *final(self) == *old(self),
            r is Ok ==> {
                &&& old(self).outstanding().len() > 0
                &&& r->Ok_0 == old(self).outstanding()[0]
                &&& r->Ok_0.call_id == call_id
                &&& final(self).outstanding() == old(self).outstanding().drop_first()
                &&& final(self).credit == old(self).credit + old(self).outstanding()[0].sg_len
            },
    {
        proof {
            lemma_answer_one(self.outstanding(), call_id);
        }
        if self.outstanding_req.len() == 0 {
            return Err(FlowError::NoOutstandingRequest);
        }
        let front = self.outstanding_req[0];
        if front.call_id != call_id {
            return Err(FlowError::CallIdMismatch);
        }
        proof {
            lemma_segments_front(self.outstanding());
        }
        let popped = self.outstanding_req.pop_front();
        match popped {
            Some(req) => {
                self.credit = self.credit + req.sg_len;
                Ok(req)
            },
            None => Err(FlowError::NoOutstandingRequest),
        }
    }

    /// Appends a segment, received by the receive `wr_id`, to the inbound
    /// message.
    pub fn push_segment(&mut self, seg: ShmBuf, wr_id: u64)
        ensures
            final(self).receiving_sgl@ == old(self).receiving_sgl@.push(seg),
            final(self).receiving_wrs@ == old(self).receiving_wrs@.push(wr_id),
            final(self).cmid == old(self).cmid,
            final(self).initial_credit == old(self).initial_credit,
            final(self).credit == old(self).credit,
            final(self).outstanding() == old(self).outstanding(),
    {
        self.receiving_sgl.push(seg);
        self.receiving_wrs.push(wr_id);
    }

    /// Takes the segments of the inbound message and the `wr_id`s of their
    /// receives, leaving none.
    pub fn take_message(&mut self) -> (r: (Vec<ShmBuf>, Vec<u64>))
        ensures
            r.0@ == old(self).receiving_sgl@,
            r.1@ == old(self).receiving_wrs@,
            final(self).receiving_sgl@ == Seq::<ShmBuf>::empty(),
            final(self).receiving_wrs@ == Seq::<u64>::empty(),
            final(self).cmid == old(self).cmid,
            final(self).initial_credit == old(self).initial_credit,
            final(self).credit == old(self).credit,
            final(self).outstanding() == old(self).outstanding(),
    {
        let mut sgl: Vec<ShmBuf> = Vec::new();
        std::mem::swap(&mut sgl, &mut self.receiving_sgl);
        let mut wrs: Vec<u64> = Vec::new();
        std::mem::swap(&mut wrs, &mut self.receiving_wrs);
        (sgl, wrs)
    }
}

/// Answering responses with call ids `calls`, in order, against the
/// outstanding FIFO `reqs`: the requests left and those retired, or `None`
/// if some response does not match the oldest request left.
pub open spec fn answer_responses(reqs: Seq<ReqContext>, calls: Seq<u32>) -> Option<
    (Seq<ReqContext>, Seq<ReqContext>),
>
    decreases calls.len(),
{
    if calls.len() == 0 {
        Some((reqs, Seq::empty()))
    } else {
        match answer_responses(reqs, calls.drop_last()) {
            None => None,
            Some(st) => if st.0.len() > 0 && st.0[0].call_id == calls.last() {
                Some((st.0.drop_first(), st.1.push(st.0[0])))
            } else {
                None
            },
        }
    }
}

/// Responses are matched first in, first out: when every response of a
/// sequence is accepted, the N-th response retires the N-th outstanding
/// request, whose call id is the response's, and the rest stay in order.
pub proof fn lemma_fifo_matching(reqs: Seq<ReqContext>, calls: Seq<u32>)
    requires
        answer_responses(reqs, calls) is Some,
    ensures
        calls.len() <= reqs.len(),
        answer_responses(reqs, calls)->Some_0.1 == reqs.take(calls.len() as int),
        answer_responses(reqs, calls)->Some_0.0 == reqs.skip(calls.len() as int),
        forall|i: int| 0 <= i < calls.len() ==> #[trigger] reqs[i].call_id == calls[i],
    decreases calls.len(),
{
    if calls.len() > 0 {
        let prev = calls.drop_last();
        lemma_fifo_matching(reqs, prev);
        let n = prev.len() as int;
        let st = answer_responses(reqs, prev)->Some_0;
        assert(st.0[0] == reqs[n]);
        assert(st.1.push(st.0[0]) =~= reqs.take(n + 1));
        assert(st.0.drop_first() =~= reqs.skip(n + 1));
        assert forall|i: int| 0 <= i < calls.len() implies #[trigger] reqs[i].call_id == calls[i] by {
            if i < n {
                assert(prev[i] == calls[i]);
            }
        }
    }
}

proof fn lemma_answer_one(reqs: Seq<ReqContext>, call: u32)
    ensures
        answer_responses(reqs, seq![call]) == if reqs.len() > 0 && reqs[0].call_id == call {
            Some((reqs.drop_first(), seq![reqs[0]]))
        } else {
            None
        },
{
    assert(seq![call].drop_last() =~= Seq::<u32>::empty());
    assert(seq![call].last() == call);
    assert(answer_responses(reqs, Seq::empty()) == Some((reqs, Seq::<ReqContext>::empty())));
    if reqs.len() > 0 {
        assert(Seq::<ReqContext>::empty().push(reqs[0]) =~= seq![reqs[0]]);
    }
}

/// Phase of a connection's life.
#[derive(Clone, Copy, Debug, PartialEq, Eq, Structural)]
pub enum ConnPhase {
    /// Receive buffers are being prepared.
    Preparing,
    /// All receives are posted.
    Posted,
    /// The connection is accepted or connected.
    Connected,
    /// Teardown was signalled; outstanding requests still drain.
    Draining,
    Closed,
}

/// What moves a connection from one phase to the next.
#[derive(Clone, Copy, Debug, PartialEq, Eq, Structural)]
pub enum ConnEvent {
    AllRecvsPosted,
    Established,
    Teardown,
    /// The outstanding FIFO became empty.
    Drained,
}

/// The phase after `event` in phase `phase`; `None` if the event does not
/// apply there.
pub open spec fn phase_after(phase: ConnPhase, event: ConnEvent) -> Option<ConnPhase> {
    match (phase, event) {
        (ConnPhase::Preparing, ConnEvent::AllRecvsPosted) => Some(ConnPhase::Posted),
        (ConnPhase::Posted, ConnEvent::Established) => Some(ConnPhase::Connected),
        (ConnPhase::Connected, ConnEvent::Teardown) => Some(ConnPhase::Draining),
        (ConnPhase::Draining, ConnEvent::Drained) => Some(ConnPhase::Closed),
        _ => None,
    }
}

/// Moves a connection's phase on `event`: preparing until all receives are
/// posted, then posted until accepted or connected, then connected until
/// teardown, then draining until nothing is outstanding, then closed for
/// good. An event that does not apply gives `None`.
pub fn next_phase(phase: ConnPhase, event: ConnEvent) -> (r: Option<ConnPhase>)
    ensures
        r == phase_after(phase, event),
{
    match (phase, event) {
        (ConnPhase::Preparing, ConnEvent::AllRecvsPosted) => Some(ConnPhase::Posted),
        (ConnPhase::Posted, ConnEvent::Established) => Some(ConnPhase::Connected),
        (ConnPhase::Connected, ConnEvent::Teardown) => Some(ConnPhase::Draining),
        (ConnPhase::Draining, ConnEvent::Drained) => Some(ConnPhase::Closed),
        _ => None,
    }
}

impl ConnectionContext {
    /// Whether nothing is outstanding, so that a draining connection may close.
    pub fn is_drained(&self) -> (r: bool)
        ensures
            r == (self.outstanding().len() == 0),
    {
        self.outstanding_req.len() == 0
    }
}

/// Closed is terminal: no event leaves it.
pub proof fn lemma_closed_is_terminal(event: ConnEvent)
    ensures
        phase_after(ConnPhase::Closed, event) is None,
{
}

proof fn lemma_segments_front(reqs: Seq<ReqContext>)
    requires
        reqs.len() > 0,
    ensures
        outstanding_segments(reqs) == reqs[0].sg_len + outstanding_segments(reqs.drop_first()),
    decreases reqs.len(),
{
    if reqs.len() > 1 {
        lemma_segments_front(reqs.drop_last());
        assert(reqs.drop_last().drop_first() =~= reqs.drop_first().drop_last());
        assert(reqs.drop_first().last() == reqs.last());
        assert(reqs.drop_last()[0] == reqs[0]);
        let b = reqs.drop_first();
        assert(outstanding_segments(b) == outstanding_segments(b.drop_last()) + b.last().sg_len as nat);
        assert(outstanding_segments(reqs) == outstanding_segments(reqs.drop_last()) + reqs.last().sg_len as nat);
    } else {
        assert(reqs.drop_first().len() == 0);
        assert(reqs.drop_last().len() == 0);
        assert(reqs.last() == reqs[0]);
        assert(outstanding_segments(reqs.drop_first()) == 0);
        assert(outstanding_segments(reqs.drop_last()) == 0);
    }
}

} // verus!
