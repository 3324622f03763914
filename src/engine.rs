//! The RPC adapter engine: its resource tables and the decisions it takes on
//! each event. Posting to the NIC, polling it and the channels are done by
//! the caller, which hands each event in and carries out what comes back.
use vstd::prelude::*;

use std::collections::HashMap;
use std::collections::VecDeque;

use crate::conn::ConnectionContext;
use crate::conn::FlowError;
use crate::conn::ReqContext;
use crate::conn::outstanding_segments;
use crate::marshal::FuncRegistry;
use crate::marshal::MarshalError;
use crate::marshal::MessageTemplate;
use crate::marshal::RpcMsgType;
use crate::marshal::ShmBuf;
use crate::marshal::SgList;
use crate::marshal::marshal_spec;
use crate::marshal::unmarshal;
use crate::marshal::unmarshal_spec;
use crate::marshal::MessageMeta;
use crate::message::EngineRxMessage;
use crate::message::RpcMessageRx;
use crate::schedule::Backoff;
use crate::schedule::round_spec;
use crate::control::Completion;
use crate::control::CompletionKind;
use crate::control::ControlPathError;
use crate::control::MrDescriptor;

verus! {

broadcast use vstd::std_specs::hash::group_hash_axioms;

/// Receive regions prepared and posted for each new connection.
pub const RECV_BUFFERS_PER_CONN: usize = 128;

/// Size in bytes of each receive region.
pub const RECV_BUFFER_SIZE: usize = 8388608;

/// Work requests that each endpoint may have outstanding, sends and receives alike.
pub const MAX_WR: u32 = 128;

/// Capacity of the shared completion queue.
pub const CQ_CAPACITY: usize = 1024;

/// Completions polled at most per round.
pub const POLL_DEPTH: usize = 32;

/// Errors on the datapath. Those that `is_fatal` says are fatal mean that
/// the peer broke the protocol.
#[derive(Clone, Copy, Debug, PartialEq, Eq, Structural)]
pub enum DatapathError {
    /// A handle or address names nothing in the engine's tables.
    NotFound,
    /// A received message could not be rebuilt.
    Marshal(MarshalError),
    /// A response did not match the oldest outstanding request.
    Flow(FlowError),
    /// A completion carried an opcode that the engine never posts.
    InvalidOpcode,
}

impl DatapathError {
    pub open spec fn spec_is_fatal(self) -> bool {
        !(self is NotFound)
    }

    /// Whether the error means that the engine cannot go on.
    pub fn is_fatal(&self) -> (r: bool)
        ensures
            r == self.spec_is_fatal(),
    {
        match self {
            DatapathError::NotFound => false,
            _ => true,
        }
    }
}

/// Where a posted receive lands: its connection and its buffer's address.
#[derive(Clone, Copy, Debug, PartialEq, Eq, Structural)]
pub struct WrContext {
    pub conn_id: u32,
    pub mr_addr: usize,
}

/// A registered memory region as the engine tracks it.
#[derive(Clone, Copy, Debug, PartialEq, Eq, Structural)]
pub struct MemoryRegion {
    pub handle: u32,
    /// Start address in the backend's address space.
    pub addr: usize,
    pub len: usize,
}

/// Whether `mr` holds every byte of `seg`.
pub open spec fn covers(mr: MemoryRegion, seg: ShmBuf) -> bool {
    mr.addr <= seg.ptr && seg.ptr + seg.len <= mr.addr + mr.len
}

/// The first region of `mrs` that holds `seg`.
pub open spec fn find_cover(mrs: Seq<MemoryRegion>, seg: ShmBuf) -> Option<MemoryRegion>
    decreases mrs.len(),
{
    if mrs.len() == 0 {
        None
    } else if covers(mrs[0], seg) {
        Some(mrs[0])
    } else {
        find_cover(mrs.drop_first(), seg)
    }
}

/// One send to post: `len` bytes at `offset` in region `mr`; the last send
/// of a message carries immediate data, which marks the message's end.
#[derive(Clone, Copy, Debug, PartialEq, Eq, Structural)]
pub struct PostSend {
    pub mr: u32,
    pub offset: usize,
    pub len: usize,
    pub with_imm: bool,
}

pub open spec fn post_for(mr: MemoryRegion, seg: ShmBuf, last: bool) -> PostSend {
    PostSend { mr: mr.handle, offset: (seg.ptr - mr.addr) as usize, len: seg.len, with_imm: last }
}

/// The sends of one message on connection `conn_id`, in order.
#[derive(Debug)]
pub struct SendPlan {
    pub conn_id: u32,
    pub posts: Vec<PostSend>,
}

/// Status of a work completion.
#[derive(Clone, Copy, Debug, PartialEq, Eq, Structural)]
pub enum WcStatus {
    Success,
    Error(u32),
}

/// Kind of work that a completion reports.
#[derive(Clone, Copy, Debug, PartialEq, Eq, Structural)]
pub enum WcOpcode {
    Send,
    Recv,
    Invalid,
    /// Any kind that the engine never posts.
    Other,
}

/// A completion polled from the completion queue.
#[derive(Clone, Copy, Debug, PartialEq, Eq, Structural)]
pub struct WorkCompletion {
    pub wr_id: u64,
    pub status: WcStatus,
    pub opcode: WcOpcode,
    /// Bytes received; meaningful for receives only.
    pub byte_len: u32,
    /// Whether the completion carries immediate data: the end of a message.
    pub with_imm: bool,
}

/// A complete inbound message: its segments, and the `wr_id`s of the
/// receives whose buffers hold them.
#[derive(Debug)]
pub struct InboundMessage {
    pub sgl: SgList,
    pub wr_ids: Vec<u64>,
}

/// What the caller does after a completion.
#[derive(Debug)]
pub enum CqAction {
    /// Nothing: a send completed.
    Nothing,
    /// The work request failed; it is logged and abandoned, not reposted.
    Abandon,
    /// A segment of connection `conn_id` arrived. If it ended a message,
    /// `message` holds the whole message, to be delivered.
    Received { conn_id: u32, message: Option<InboundMessage> },
}

/// The receives that a delivered RPC still holds: its connection, its call
/// id and the `wr_id`s of the receives whose buffers it lives in.
#[derive(Debug)]
pub struct HeldRecv {
    pub conn_id: u32,
    pub call_id: u32,
    pub wr_ids: Vec<u64>,
}

/// The position of the first held RPC of connection `conn` with call id `call`.
pub open spec fn find_held(held: Seq<(u32, u32, Seq<u64>)>, conn: u32, call: u32) -> Option<int>
    decreases held.len(),
{
    if held.len() == 0 {
        None
    } else if held[0].0 == conn && held[0].1 == call {
        Some(0)
    } else {
        match find_held(held.drop_first(), conn, call) {
            Some(i) => Some(i + 1),
            None => None,
        }
    }
}

/// Releasing the RPCs with call ids `calls` of connection `conn`, in order:
/// the RPCs still held, and the `wr_id`s whose receives may be posted again.
/// A call id that names no held RPC releases nothing.
pub open spec fn reclaim_spec(held: Seq<(u32, u32, Seq<u64>)>, conn: u32, calls: Seq<u32>) -> (
    Seq<(u32, u32, Seq<u64>)>,
    Seq<u64>,
)
    decreases calls.len(),
{
    if calls.len() == 0 {
        (held, Seq::empty())
    } else {
        let prev = reclaim_spec(held, conn, calls.drop_last());
        match find_held(prev.0, conn, calls.last()) {
            Some(i) => (prev.0.remove(i), prev.1 + prev.0[i].2),
            None => prev,
        }
    }
}

/// The first mapping `(backend, app, len)` of `mapped` whose backend range
/// holds `addr`, and `addr` moved into the application's address space.
pub open spec fn translate_spec(mapped: Seq<(usize, usize, usize)>, addr: usize) -> Option<usize>
    decreases mapped.len(),
{
    if mapped.len() == 0 {
        None
    } else if mapped[0].0 <= addr && addr - mapped[0].0 < mapped[0].2 && mapped[0].1 + (addr
        - mapped[0].0) <= usize::MAX {
        Some((mapped[0].1 + (addr - mapped[0].0)) as usize)
    } else {
        translate_spec(mapped.drop_first(), addr)
    }
}

/// The posted-receive contexts of receive regions `mrs` of connection
/// `conn_id`, keyed by `wr_id`, which is the region's handle.
pub open spec fn wr_entries(conn_id: u32, mrs: Seq<MemoryRegion>) -> Map<u64, WrContext>
    decreases mrs.len(),
{
    if mrs.len() == 0 {
        Map::empty()
    } else {
        wr_entries(conn_id, mrs.drop_last()).insert(
            mrs.last().handle as u64,
            WrContext { conn_id, mr_addr: mrs.last().addr },
        )
    }
}

/// The regions `mrs` keyed by handle.
pub open spec fn mr_entries(mrs: Seq<MemoryRegion>) -> Map<u32, MemoryRegion>
    decreases mrs.len(),
{
    if mrs.len() == 0 {
        Map::empty()
    } else {
        mr_entries(mrs.drop_last()).insert(mrs.last().handle, mrs.last())
    }
}

/// What the command loop does with the result of a command: the completion
/// to send, if any, and whether it counts as work.
pub open spec fn outcome_spec(result: Result<CompletionKind, ControlPathError>) -> (bool, nat) {
    match result {
        Err(ControlPathError::InProgress) => (false, 0),
        Err(ControlPathError::NoResponse) => (false, 1),
        _ => (true, 1),
    }
}

/// Per pair (region handle, application address): the region's backend
/// address, the application address and the region's length.
pub open spec fn mapped_triples(recv_mrs: Map<u32, MemoryRegion>, pairs: Seq<(u32, u64)>) -> Seq<
    (usize, usize, usize),
> {
    Seq::new(
        pairs.len(),
        |i: int|
            {
                let mr = recv_mrs[pairs[i].0];
                (mr.addr, pairs[i].1 as usize, mr.len)
            },
    )
}

/// The engine's resource tables.
pub struct State {
    /// Regions that outgoing messages live in.
    pub mr_table: Vec<MemoryRegion>,
    /// Receive regions by handle; a receive's `wr_id` is its region's handle.
    pub recv_mr_table: HashMap<u32, MemoryRegion>,
    /// Connections by handle.
    pub cmid_table: HashMap<u32, ConnectionContext>,
    /// Posted receives by `wr_id`.
    pub wr_contexts: HashMap<u64, WrContext>,
    /// Listening endpoints by handle.
    pub listener_table: Vec<u32>,
    /// Receive regions mapped by the application: backend address,
    /// application address, length.
    pub mapped: Vec<(usize, usize, usize)>,
    /// Delivered RPCs whose receive buffers the application still uses.
    pub held_recvs: Vec<HeldRecv>,
}

/// State that the engine shares with the host thread that runs it.
pub struct TlStorage {
    pub state: State,
}

/// The RPC adapter engine.
pub struct RpcAdapterEngine {
    pub tls: TlStorage,
    /// The listener that the incoming-connection sweep polls.
    pub recent_listener_handle: Option<u32>,
    /// Outgoing messages waiting for credit, oldest first.
    pub local_buffer: VecDeque<MessageTemplate>,
    pub throttle: Backoff,
    /// The (type, function) pairs that inbound messages may carry.
    pub registry: FuncRegistry,
}

impl RpcAdapterEngine {
    pub open spec fn conns(&self) -> Map<u32, ConnectionContext> {
        self.tls.state.cmid_table@
    }

    pub open spec fn wrs(&self) -> Map<u64, WrContext> {
        self.tls.state.wr_contexts@
    }

    pub open spec fn recv_mrs(&self) -> Map<u32, MemoryRegion> {
        self.tls.state.recv_mr_table@
    }

    pub open spec fn send_mrs(&self) -> Seq<MemoryRegion> {
        self.tls.state.mr_table@
    }

    pub open spec fn pending(&self) -> Seq<MessageTemplate> {
        self.local_buffer@
    }

    /// The delivered RPCs that hold receives: connection, call id, `wr_id`s.
    pub open spec fn held(&self) -> Seq<(u32, u32, Seq<u64>)> {
        self.tls.state.held_recvs@.map_values(|h: HeldRecv| (h.conn_id, h.call_id, h.wr_ids@))
    }

    /// Every connection conserves its credit and sits under its own handle,
    /// and the throttle is within its bounds.
    pub open spec fn wf(&self) -> bool {
        &&& forall|h: u32| #[trigger]
            self.conns().contains_key(h) ==> self.conns()[h].wf() && self.conns()[h].cmid == h
        &&& self.throttle.wf()
    }

    /// Everything but the connections and the pending queue is as in `other`.
    pub open spec fn same_tables_but_conns(&self, other: &RpcAdapterEngine) -> bool {
        &&& self.wrs() == other.wrs()
        &&& self.recv_mrs() == other.recv_mrs()
        &&& self.send_mrs() == other.send_mrs()
        &&& self.tls.state.listener_table@ == other.tls.state.listener_table@
        &&& self.tls.state.mapped@ == other.tls.state.mapped@
        &&& self.held() == other.held()
        &&& self.recent_listener_handle == other.recent_listener_handle
        &&& self.throttle == other.throttle
        &&& self.registry.known() == other.registry.known()
    }

    /// An engine with empty tables, handling the functions of `registry`,
    /// started at `now_ms`.
    pub fn new(registry: FuncRegistry, now_ms: u64) -> (r: RpcAdapterEngine)
        ensures
            r.wf(),
            r.conns() == Map::<u32, ConnectionContext>::empty(),
            r.wrs() == Map::<u64, WrContext>::empty(),
            r.recv_mrs() == Map::<u32, MemoryRegion>::empty(),
            r.send_mrs() == Seq::<MemoryRegion>::empty(),
            r.pending() == Seq::<MessageTemplate>::empty(),
            r.tls.state.listener_table@ == Seq::<u32>::empty(),
            r.tls.state.mapped@ == Seq::<(usize, usize, usize)>::empty(),
            r.held() == Seq::<(u32, u32, Seq<u64>)>::empty(),
            r.recent_listener_handle is None,
            r.registry.known() == registry.known(),
            r.throttle == Backoff::new_spec(now_ms),
    {
        RpcAdapterEngine {
            tls: TlStorage {
                state: State {
                    mr_table: Vec::new(),
                    recv_mr_table: HashMap::new(),
                    cmid_table: HashMap::new(),
                    wr_contexts: HashMap::new(),
                    listener_table: Vec::new(),
                    mapped: Vec::new(),
                    held_recvs: Vec::new(),
                },
            },
            recent_listener_handle: None,
            local_buffer: VecDeque::new(),
            throttle: Backoff::new(now_ms),
            registry,
        }
    }

    /// The first registered region that holds all of `seg`.
    pub fn query_mr(&self, seg: ShmBuf) -> (r: Option<MemoryRegion>)
        ensures
            r == find_cover(self.send_mrs(), seg),
    {
        let mut i: usize = 0;
        assert(self.send_mrs().subrange(0, self.send_mrs().len() as int) =~= self.send_mrs());
        while i < self.tls.state.mr_table.len()
            invariant
                i <= self.send_mrs().len(),
                find_cover(self.send_mrs(), seg) == find_cover(
                    self.send_mrs().subrange(i as int, self.send_mrs().len() as int),
                    seg,
                ),
            decreases self.send_mrs().len() - i,
        {
            let mr = self.tls.state.mr_table[i];
            let ghost rest = self.send_mrs().subrange(i as int, self.send_mrs().len() as int);
            assert(rest[0] == mr);
            if mr.addr <= seg.ptr && seg.len <= mr.len && seg.ptr - mr.addr <= mr.len - seg.len {
                return Some(mr);
            }
            assert(rest.drop_first() =~= self.send_mrs().subrange(i + 1, self.send_mrs().len() as int));
            i += 1;
        }
        None
    }

    /// The sends for the segments `sgl`: one per segment, in order, each in
    /// the first region that holds it, the last one with immediate data.
    /// Fails if some segment lies in no registered region.
    pub fn plan_posts(&self, sgl: &SgList) -> (r: Result<Vec<PostSend>, DatapathError>)
        ensures
            match r {
                Ok(posts) => {
                    &&& posts@.len() == sgl.0@.len()
                    &&& forall|i: int|
                        0 <= i < sgl.0@.len() ==> {
                            &&& #[trigger] find_cover(self.send_mrs(), sgl.0@[i]) is Some
                            &&& posts@[i] == post_for(
                                find_cover(self.send_mrs(), sgl.0@[i])->Some_0,
                                sgl.0@[i],
                                i == sgl.0@.len() - 1,
                            )
                        }
                },
                Err(e) => e == DatapathError::NotFound && exists|i: int|
                    0 <= i < sgl.0@.len() && #[trigger] find_cover(self.send_mrs(), sgl.0@[i])
                        is None,
            },
    {
        let n = sgl.0.len();
        let mut posts: Vec<PostSend> = Vec::new();
        let mut i: usize = 0;
        while i < n
            invariant
                n == sgl.0@.len(),
                i <= n,
                posts@.len() == i,
                forall|k: int|
                    0 <= k < i ==> {
                        &&& #[trigger] find_cover(self.send_mrs(), sgl.0@[k]) is Some
                        &&& posts@[k] == post_for(
                            find_cover(self.send_mrs(), sgl.0@[k])->Some_0,
                            sgl.0@[k],
                            k == n - 1,
                        )
                    },
            decreases n - i,
        {
            let seg = sgl.0[i];
            match self.query_mr(seg) {
                Some(mr) => {
                    proof {
                        lemma_cover_holds(self.send_mrs(), seg);
                    }
                    posts.push(
                        PostSend {
                            mr: mr.handle,
                            offset: seg.ptr - mr.addr,
                            len: seg.len,
                            with_imm: i + 1 == n,
                        },
                    );
                },
                None => {
                    return Err(DatapathError::NotFound);
                },
            }
            i += 1;
        }
        Ok(posts)
    }

    /// Takes the oldest waiting message and decides whether to send it now.
    /// - None waiting: `Ok(None)`.
    /// - Its connection is unknown: the message is dropped, `Err(NotFound)`.
    /// - The connection's credit does not admit it: it stays at the head of
    ///   the queue, which stops sending on it for this round, `Ok(None)`.
    /// - A segment lies in no registered region: the message is dropped,
    ///   `Err(NotFound)`.
    /// - Otherwise the message leaves the queue and its sends are returned,
    ///   one per segment, the last with immediate data; a request also takes
    ///   its segments from the credit and joins the outstanding FIFO.
    pub fn next_send(&mut self) -> (r: Result<Option<SendPlan>, DatapathError>)
        requires
            old(self).wf(),
        ensures
            final(self).wf(),
            final(self).same_tables_but_conns(old(self)),
            old(self).pending().len() == 0 ==> r == Ok::<Option<SendPlan>, DatapathError>(None)
                && final(self).conns() == old(self).conns() && final(self).pending() == old(self).pending(),
            old(self).pending().len() > 0 ==> {
                let m = old(self).pending()[0];
                let cid = m.meta.conn_id;
                let sgl = marshal_spec(m@);
                let is_req = m.meta.msg_type == RpcMsgType::Request;
                let covered = forall|i: int|
                    0 <= i < sgl.len() ==> #[trigger] find_cover(old(self).send_mrs(), sgl[i]) is Some;
                &&& !old(self).conns().contains_key(cid) ==> {
                    &&& r == Err::<Option<SendPlan>, DatapathError>(DatapathError::NotFound)
                    &&& final(self).conns() == old(self).conns()
                    &&& final(self).pending() == old(self).pending().drop_first()
                }
                &&& old(self).conns().contains_key(cid) && !old(self).conns()[cid].admits(
                    sgl.len(),
                    is_req,
                ) ==> {
                    &&& r == Ok::<Option<SendPlan>, DatapathError>(None)
                    &&& final(self).conns() == old(self).conns()
                    &&& final(self).pending() == old(self).pending()
                }
                &&& old(self).conns().contains_key(cid) && old(self).conns()[cid].admits(
                    sgl.len(),
                    is_req,
                ) && !covered ==> {
                    &&& r == Err::<Option<SendPlan>, DatapathError>(DatapathError::NotFound)
                    &&& final(self).conns() == old(self).conns()
                    &&& final(self).pending() == old(self).pending().drop_first()
                }
                &&& old(self).conns().contains_key(cid) && old(self).conns()[cid].admits(
                    sgl.len(),
                    is_req,
                ) && covered ==> {
                    &&& r is Ok && r->Ok_0 is Some
                    &&& r->Ok_0->Some_0.conn_id == cid
                    &&& r->Ok_0->Some_0.posts@.len() == sgl.len()
                    &&& forall|i: int|
                        0 <= i < sgl.len() ==> #[trigger] r->Ok_0->Some_0.posts@[i] == post_for(
                            find_cover(old(self).send_mrs(), sgl[i])->Some_0,
                            sgl[i],
                            i == sgl.len() - 1,
                        )
                    &&& final(self).pending() == old(self).pending().drop_first()
                    &&& !is_req ==> final(self).conns() == old(self).conns()
                    &&& is_req ==> {
                        &&& final(self).conns() == old(self).conns().insert(
                            cid,
                            final(self).conns()[cid],
                        )
                        &&& final(self).conns()[cid].credit == old(self).conns()[cid].credit
                            - sgl.len()
                        &&& final(self).conns()[cid].outstanding() == old(self).conns()[cid].outstanding().push(
                            ReqContext { call_id: m.meta.call_id, sg_len: sgl.len() as usize },
                        )
                        &&& final(self).conns()[cid].initial_credit == old(self).conns()[cid].initial_credit
                        &&& final(self).conns()[cid].receiving_sgl@ == old(self).conns()[cid].receiving_sgl@
                    }
                }
            },
    {
        let msg = match self.local_buffer.pop_front() {
            Some(m) => m,
            None => {
                proof {
                    assert(self.conns() == old(self).conns());
                    assert(self.pending() =~= old(self).pending());
                }
                return Ok(None);
            },
        };
        let cid = msg.meta.conn_id;
        let mut conn = match self.tls.state.cmid_table.remove(&cid) {
            Some(c) => c,
            None => {
                proof {
                    assert(self.conns() =~= old(self).conns());
                }
                return Err(DatapathError::NotFound);
            },
        };
        proof {
            assert(old(self).conns().contains_key(cid));
            assert(conn == old(self).conns()[cid]);
            assert(conn.wf());
        }
        let sgl = msg.marshal();
        let n = sgl.0.len();
        let is_req = msg.is_request();
        if !conn.admits_now(n, is_req) {
            self.tls.state.cmid_table.insert(cid, conn);
            self.local_buffer.push_front(msg);
            proof {
                assert(self.conns() =~= old(self).conns());
                assert(self.pending() =~= old(self).pending());
            }
            return Ok(None);
        }
        let posts = match self.plan_posts(&sgl) {
            Ok(p) => p,
            Err(e) => {
                self.tls.state.cmid_table.insert(cid, conn);
                proof {
                    assert(self.conns() =~= old(self).conns());
                }
                return Err(e);
            },
        };
        if is_req {
            conn.on_request_sent(msg.meta.call_id, n);
        }
        self.tls.state.cmid_table.insert(cid, conn);
        proof {
            if !is_req {
                assert(self.conns() =~= old(self).conns());
            } else {
                assert(self.conns() =~= old(self).conns().insert(cid, self.conns()[cid]));
            }
        }
        Ok(Some(SendPlan { conn_id: cid, posts }))
    }

    /// Handles one completion of the completion queue.
    /// - A failed work request is abandoned: `Ok(Abandon)`.
    /// - A completed send needs nothing: `Ok(Nothing)`.
    /// - An invalid or unexpected opcode is fatal: `Err(InvalidOpcode)`.
    /// - A completed receive whose `wr_id` or connection is unknown:
    ///   `Err(NotFound)`.
    /// - Otherwise the received segment joins its connection's inbound
    ///   message; with immediate data the message is complete and is taken
    ///   out whole, with the `wr_id`s of its receives. The receives are not
    ///   posted again until the application releases the RPC.
    /// Only a completed receive changes the engine, and only the inbound
    /// message of its connection.
    pub fn on_completion(&mut self, wc: WorkCompletion) -> (r: Result<CqAction, DatapathError>)
        requires
            old(self).wf(),
        ensures
            final(self).wf(),
            final(self).same_tables_but_conns(old(self)),
            final(self).pending() == old(self).pending(),
            wc.status is Error ==> r is Ok && r->Ok_0 is Abandon && final(self).conns() == old(self).conns(),
            wc.status is Success && wc.opcode is Send ==> r is Ok && r->Ok_0 is Nothing && final(self).conns() == old(self).conns(),
            wc.status is Success && (wc.opcode is Invalid || wc.opcode is Other) ==> r
                == Err::<CqAction, DatapathError>(DatapathError::InvalidOpcode) && final(self).conns() == old(self).conns(),
            wc.status is Success && wc.opcode is Recv ==> {
                let found = old(self).wrs().contains_key(wc.wr_id) && old(self).conns().contains_key(
                    old(self).wrs()[wc.wr_id].conn_id,
                );
                &&& !found ==> r == Err::<CqAction, DatapathError>(DatapathError::NotFound) && final(self).conns() == old(self).conns()
                &&& found ==> {
                    let cid = old(self).wrs()[wc.wr_id].conn_id;
                    let seg = ShmBuf { ptr: old(self).wrs()[wc.wr_id].mr_addr, len: wc.byte_len as usize };
                    let c0 = old(self).conns()[cid];
                    let c1 = final(self).conns()[cid];
                    &&& r is Ok && r->Ok_0 is Received
                    &&& r->Ok_0->conn_id == cid
                    &&& final(self).conns() == old(self).conns().insert(cid, c1)
                    &&& c1.cmid == c0.cmid && c1.credit == c0.credit
                    &&& c1.initial_credit == c0.initial_credit
                    &&& c1.outstanding() == c0.outstanding()
                    &&& reassemble(c0.receiving_sgl@, seq![seg], seq![wc.with_imm]) == (
                        if wc.with_imm {
                            seq![r->Ok_0->message->Some_0.sgl.0@]
                        } else {
                            Seq::<Seq<ShmBuf>>::empty()
                        },
                        c1.receiving_sgl@,
                    )
                    &&& wc.with_imm ==> {
                        &&& r->Ok_0->message is Some
                        &&& r->Ok_0->message->Some_0.sgl.0@ == c0.receiving_sgl@.push(seg)
                        &&& r->Ok_0->message->Some_0.wr_ids@ == c0.receiving_wrs@.push(wc.wr_id)
                        &&& c1.receiving_sgl@ == Seq::<ShmBuf>::empty()
                        &&& c1.receiving_wrs@ == Seq::<u64>::empty()
                    }
                    &&& !wc.with_imm ==> {
                        &&& r->Ok_0->message is None
                        &&& c1.receiving_sgl@ == c0.receiving_sgl@.push(seg)
                        &&& c1.receiving_wrs@ == c0.receiving_wrs@.push(wc.wr_id)
                    }
                }
            },
    {
        match wc.status {
            WcStatus::Error(_) => {
                return Ok(CqAction::Abandon);
            },
            WcStatus::Success => {},
        }
        match wc.opcode {
            WcOpcode::Send => {
                return Ok(CqAction::Nothing);
            },
            WcOpcode::Recv => {},
            _ => {
                return Err(DatapathError::InvalidOpcode);
            },
        }
        let wr_ctx = match self.tls.state.wr_contexts.get(&wc.wr_id) {
            Some(w) => *w,
            None => {
                return Err(DatapathError::NotFound);
            },
        };
        let cid = wr_ctx.conn_id;
        let mut conn = match self.tls.state.cmid_table.remove(&cid) {
            Some(c) => c,
            None => {
                proof {
                    assert(self.conns() =~= old(self).conns());
                }
                return Err(DatapathError::NotFound);
            },
        };
        proof {
            assert(old(self).conns().contains_key(cid));
            assert(conn == old(self).conns()[cid]);
        }
        conn.push_segment(ShmBuf { ptr: wr_ctx.mr_addr, len: wc.byte_len as usize }, wc.wr_id);
        let message = if wc.with_imm {
            let (segs, wr_ids) = conn.take_message();
            Some(InboundMessage { sgl: SgList(segs), wr_ids })
        } else {
            None
        };
        self.tls.state.cmid_table.insert(cid, conn);
        proof {
            assert(self.conns() =~= old(self).conns().insert(cid, self.conns()[cid]));
            assert forall|h: u32| #[trigger] self.conns().contains_key(h) implies self.conns()[h].wf()
                && self.conns()[h].cmid == h by {
                if h != cid {
                    assert(old(self).conns().contains_key(h));
                } else {
                    assert(old(self).conns()[cid].wf());
                }
            }
            let ghost seg = ShmBuf { ptr: wr_ctx.mr_addr, len: wc.byte_len as usize };
            let ghost c0 = old(self).conns()[cid];
            assert(seq![seg].drop_last() =~= Seq::<ShmBuf>::empty());
            assert(seq![wc.with_imm].drop_last() =~= Seq::<bool>::empty());
            assert(Seq::<ShmBuf>::empty().push(seg) =~= seq![seg]);
            assert(reassemble(c0.receiving_sgl@, Seq::empty(), Seq::empty()) == (
                Seq::<Seq<ShmBuf>>::empty(),
                c0.receiving_sgl@,
            ));
            assert(seq![seg].last() == seg);
            assert(seq![wc.with_imm].last() == wc.with_imm);
            if wc.with_imm {
                assert(Seq::<Seq<ShmBuf>>::empty().push(c0.receiving_sgl@.push(seg)) =~= seq![
                    c0.receiving_sgl@.push(seg),
                ]);
            }
        }
        Ok(CqAction::Received { conn_id: cid, message })
    }

    /// The application-side address of backend address `addr`, by the first
    /// mapping that holds it.
    pub fn translate(&self, addr: usize) -> (r: Option<usize>)
        ensures
            r == translate_spec(self.tls.state.mapped@, addr),
    {
        let ghost m = self.tls.state.mapped@;
        let mut i: usize = 0;
        assert(m.subrange(0, m.len() as int) =~= m);
        while i < self.tls.state.mapped.len()
            invariant
                i <= m.len(),
                m == self.tls.state.mapped@,
                translate_spec(m, addr) == translate_spec(m.subrange(i as int, m.len() as int), addr),
            decreases m.len() - i,
        {
            let (b, a, l) = self.tls.state.mapped[i];
            let ghost rest = m.subrange(i as int, m.len() as int);
            assert(rest[0] == (b, a, l));
            if b <= addr && addr - b < l && a <= usize::MAX - (addr - b) {
                return Some(a + (addr - b));
            }
            assert(rest.drop_first() =~= m.subrange(i + 1, m.len() as int));
            i += 1;
        }
        None
    }

    /// Delivers a complete inbound message of connection `conn_id`, `header`
    /// being the bytes of its first segment.
    /// - It fails to rebuild (empty, bad header, unknown function): the
    ///   marshalling error, which is fatal.
    /// - The connection is unknown, or the header lies in no region that the
    ///   application has mapped: `Err(NotFound)`.
    /// - A response that is not the answer to the oldest outstanding request
    ///   of the connection: the flow error, which is fatal.
    /// - Otherwise the message goes up with its connection id set to
    ///   `conn_id` and its header address in both address spaces; a response
    ///   also retires the oldest outstanding request and returns its
    ///   segments to the credit. The RPC then holds the message's receives
    ///   until the application releases it.
    /// On every error the engine is unchanged.
    pub fn deliver(&mut self, conn_id: u32, inbound: &InboundMessage, header: &[u8]) -> (r: Result<
        EngineRxMessage,
        DatapathError,
    >)
        requires
            old(self).wf(),
        ensures
            final(self).wf(),
            final(self).wrs() == old(self).wrs(),
            final(self).recv_mrs() == old(self).recv_mrs(),
            final(self).send_mrs() == old(self).send_mrs(),
            final(self).tls.state.mapped@ == old(self).tls.state.mapped@,
            final(self).pending() == old(self).pending(),
            r is Err ==> final(self).conns() == old(self).conns() && final(self).held() == old(self).held(),
            r is Ok ==> final(self).held() == old(self).held().push(
                (conn_id, r->Ok_0->RpcMessage_0.meta.call_id, inbound.wr_ids@),
            ),
            match unmarshal_spec(inbound.sgl.0@, header@, old(self).registry.known()) {
                Err(e) => r == Err::<EngineRxMessage, DatapathError>(DatapathError::Marshal(e)),
                Ok(v) => {
                    let addr = inbound.sgl.0@[0].ptr;
                    let is_resp = v.meta.msg_type == RpcMsgType::Response;
                    let c0 = old(self).conns()[conn_id];
                    &&& !old(self).conns().contains_key(conn_id) ==> r == Err::<
                        EngineRxMessage,
                        DatapathError,
                    >(DatapathError::NotFound)
                    &&& old(self).conns().contains_key(conn_id) && translate_spec(
                        old(self).tls.state.mapped@,
                        addr,
                    ) is None ==> r == Err::<EngineRxMessage, DatapathError>(DatapathError::NotFound)
                    &&& old(self).conns().contains_key(conn_id) && translate_spec(
                        old(self).tls.state.mapped@,
                        addr,
                    ) is Some ==> {
                        &&& is_resp && c0.outstanding().len() == 0 ==> r == Err::<
                            EngineRxMessage,
                            DatapathError,
                        >(DatapathError::Flow(FlowError::NoOutstandingRequest))
                        &&& is_resp && c0.outstanding().len() > 0 && c0.outstanding()[0].call_id
                            != v.meta.call_id ==> r == Err::<EngineRxMessage, DatapathError>(
                            DatapathError::Flow(FlowError::CallIdMismatch),
                        )
                        &&& r is Ok ==> {
                            &&& r->Ok_0 == EngineRxMessage::RpcMessage(
                                RpcMessageRx {
                                    meta: MessageMeta { conn_id, ..v.meta },
                                    addr_app: translate_spec(
                                        old(self).tls.state.mapped@,
                                        addr,
                                    )->Some_0,
                                    addr_backend: addr,
                                },
                            )
                            &&& !is_resp ==> final(self).conns() == old(self).conns()
                            &&& is_resp ==> {
                                let c1 = final(self).conns()[conn_id];
                                &&& c0.outstanding().len() > 0
                                &&& c0.outstanding()[0].call_id == v.meta.call_id
                                &&& final(self).conns() == old(self).conns().insert(conn_id, c1)
                                &&& c1.outstanding() == c0.outstanding().drop_first()
                                &&& c1.credit == c0.credit + c0.outstanding()[0].sg_len
                                &&& c1.initial_credit == c0.initial_credit
                                &&& c1.receiving_sgl@ == c0.receiving_sgl@
                                &&& c1.cmid == c0.cmid
                            }
                        }
                        &&& (!is_resp || c0.outstanding().len() > 0
                            && c0.outstanding()[0].call_id == v.meta.call_id) ==> r is Ok
                    }
                },
            },
    {
        let msg = match unmarshal(&inbound.sgl, header, &self.registry) {
            Ok(m) => m,
            Err(e) => {
                return Err(DatapathError::Marshal(e));
            },
        };
        let addr = msg.header.ptr;
        let mut conn = match self.tls.state.cmid_table.remove(&conn_id) {
            Some(c) => c,
            None => {
                proof {
                    assert(self.conns() =~= old(self).conns());
                }
                return Err(DatapathError::NotFound);
            },
        };
        proof {
            assert(old(self).conns().contains_key(conn_id));
            assert(conn == old(self).conns()[conn_id]);
        }
        let addr_app = match self.translate(addr) {
            Some(a) => a,
            None => {
                self.tls.state.cmid_table.insert(conn_id, conn);
                proof {
                    assert(self.conns() =~= old(self).conns());
                }
                return Err(DatapathError::NotFound);
            },
        };
        let is_resp = !msg.is_request();
        if is_resp {
            match conn.on_response(msg.meta.call_id) {
                Ok(_) => {},
                Err(e) => {
                    self.tls.state.cmid_table.insert(conn_id, conn);
                    proof {
                        assert(self.conns() =~= old(self).conns());
                    }
                    return Err(DatapathError::Flow(e));
                },
            }
        }
        self.tls.state.cmid_table.insert(conn_id, conn);
        proof {
            if is_resp {
                assert(self.conns() =~= old(self).conns().insert(conn_id, self.conns()[conn_id]));
            } else {
                assert(self.conns() =~= old(self).conns());
            }
            assert forall|h: u32| #[trigger] self.conns().contains_key(h) implies self.conns()[h].wf()
                && self.conns()[h].cmid == h by {
                if h != conn_id {
                    assert(old(self).conns().contains_key(h));
                }
            }
        }
        let meta = MessageMeta {
            conn_id,
            call_id: msg.meta.call_id,
            func_id: msg.meta.func_id,
            msg_type: msg.meta.msg_type,
        };
        let wr_ids = copy_ids(&inbound.wr_ids);
        self.tls.state.held_recvs.push(HeldRecv { conn_id, call_id: meta.call_id, wr_ids });
        proof {
            assert(self.held() =~= old(self).held().push((conn_id, meta.call_id, inbound.wr_ids@)));
        }
        Ok(EngineRxMessage::RpcMessage(RpcMessageRx { meta, addr_app, addr_backend: addr }))
    }

    /// The position of the first held RPC of connection `conn_id` with call
    /// id `call_id`.
    fn position_held(&self, conn_id: u32, call_id: u32) -> (r: Option<usize>)
        ensures
            match r {
                Some(k) => find_held(self.held(), conn_id, call_id) == Some(k as int) && k
                    < self.held().len(),
                None => find_held(self.held(), conn_id, call_id) is None,
            },
    {
        let ghost h = self.held();
        let mut j: usize = 0;
        while j < self.tls.state.held_recvs.len()
            invariant
                h == self.held(),
                j <= h.len(),
                forall|t: int| 0 <= t < j ==> !(h[t].0 == conn_id && h[t].1 == call_id),
            decreases h.len() - j,
        {
            let e = &self.tls.state.held_recvs[j];
            if e.conn_id == conn_id && e.call_id == call_id {
                proof {
                    assert(h[j as int].0 == conn_id && h[j as int].1 == call_id);
                    lemma_find_held_first(h, conn_id, call_id, j as int);
                }
                return Some(j);
            }
            j += 1;
        }
        proof {
            lemma_find_held_none(h, conn_id, call_id);
        }
        None
    }

    /// Releases the RPCs with call ids `call_ids` of connection `conn_id`,
    /// which the application is done with, and returns the `wr_id`s of their
    /// receives, to be posted again. A call id that names no held RPC
    /// releases nothing.
    pub fn reclaim(&mut self, conn_id: u32, call_ids: &Vec<u32>) -> (r: Vec<u64>)
        requires
            old(self).wf(),
        ensures
            final(self).wf(),
            (final(self).held(), r@) == reclaim_spec(old(self).held(), conn_id, call_ids@),
            final(self).conns() == old(self).conns(),
            final(self).wrs() == old(self).wrs(),
            final(self).recv_mrs() == old(self).recv_mrs(),
            final(self).send_mrs() == old(self).send_mrs(),
            final(self).pending() == old(self).pending(),
            final(self).tls.state.mapped@ == old(self).tls.state.mapped@,
    {
        let mut out: Vec<u64> = Vec::new();
        let mut i: usize = 0;
        proof {
            assert(call_ids@.take(0) =~= Seq::<u32>::empty());
        }
        while i < call_ids.len()
            invariant
                i <= call_ids@.len(),
                (self.held(), out@) == reclaim_spec(old(self).held(), conn_id, call_ids@.take(i as int)),
                self.tls.state.cmid_table == old(self).tls.state.cmid_table,
                self.tls.state.wr_contexts == old(self).tls.state.wr_contexts,
                self.tls.state.recv_mr_table == old(self).tls.state.recv_mr_table,
                self.tls.state.mr_table == old(self).tls.state.mr_table,
                self.tls.state.mapped == old(self).tls.state.mapped,
                self.local_buffer == old(self).local_buffer,
                self.throttle == old(self).throttle,
                old(self).wf(),
            decreases call_ids@.len() - i,
        {
            let call = call_ids[i];
            let ghost prev_held = self.held();
            let ghost prev_out = out@;
            proof {
                assert(call_ids@.take(i + 1).drop_last() =~= call_ids@.take(i as int));
                assert(call_ids@.take(i + 1).last() == call);
            }
            match self.position_held(conn_id, call) {
                Some(k) => {
                    let e = self.tls.state.held_recvs.remove(k);
                    let mut t: usize = 0;
                    while t < e.wr_ids.len()
                        invariant
                            t <= e.wr_ids@.len(),
                            out@ == prev_out + e.wr_ids@.take(t as int),
                        decreases e.wr_ids@.len() - t,
                    {
                        out.push(e.wr_ids[t]);
                        t += 1;
                        assert(out@ =~= prev_out + e.wr_ids@.take(t as int));
                    }
                    proof {
                        assert(e.wr_ids@.take(t as int) =~= e.wr_ids@);
                        assert(self.held() =~= prev_held.remove(k as int));
                        assert(prev_held[k as int].2 == e.wr_ids@);
                        let ghost calls = call_ids@.take(i + 1);
                        assert(reclaim_spec(old(self).held(), conn_id, calls.drop_last()) == (
                            prev_held,
                            prev_out,
                        ));
                        assert(find_held(prev_held, conn_id, calls.last()) == Some(k as int));
                        assert(reclaim_spec(old(self).held(), conn_id, calls) == (
                            prev_held.remove(k as int),
                            prev_out + prev_held[k as int].2,
                        ));
                    }
                },
                None => {
                    proof {
                        let ghost calls = call_ids@.take(i + 1);
                        assert(reclaim_spec(old(self).held(), conn_id, calls.drop_last()) == (
                            prev_held,
                            prev_out,
                        ));
                        assert(find_held(prev_held, conn_id, calls.last()) is None);
                    }
                },
            }
            i += 1;
        }
        proof {
            assert(call_ids@.take(i as int) =~= call_ids@);
            assert(self.conns() == old(self).conns());
        }
        out
    }

    /// The receive region of each `wr_id`, to post the receives again;
    /// `Err(NotFound)` if one names no receive region.
    pub fn recv_regions(&self, wr_ids: &Vec<u64>) -> (r: Result<Vec<(u64, MemoryRegion)>, DatapathError>)
        ensures
            (forall|i: int| 0 <= i < wr_ids@.len() ==> self.recv_mrs().contains_key(
                #[trigger] wr_ids@[i] as u32,
            )) ==> r is Ok && r->Ok_0@ == Seq::new(
                wr_ids@.len(),
                |i: int| (wr_ids@[i], self.recv_mrs()[wr_ids@[i] as u32]),
            ),
            !(forall|i: int| 0 <= i < wr_ids@.len() ==> self.recv_mrs().contains_key(
                #[trigger] wr_ids@[i] as u32,
            )) ==> r == Err::<Vec<(u64, MemoryRegion)>, DatapathError>(DatapathError::NotFound),
    {
        let ghost want = Seq::new(
            wr_ids@.len(),
            |i: int| (wr_ids@[i], self.recv_mrs()[wr_ids@[i] as u32]),
        );
        let mut out: Vec<(u64, MemoryRegion)> = Vec::new();
        let mut i: usize = 0;
        while i < wr_ids.len()
            invariant
                i <= wr_ids@.len(),
                want == Seq::new(
                    wr_ids@.len(),
                    |i: int| (wr_ids@[i], self.recv_mrs()[wr_ids@[i] as u32]),
                ),
                out@ == want.take(i as int),
                forall|k: int| 0 <= k < i ==> self.recv_mrs().contains_key(#[trigger] wr_ids@[k] as u32),
            decreases wr_ids@.len() - i,
        {
            let w = wr_ids[i];
            match self.tls.state.recv_mr_table.get(&(w as u32)) {
                Some(mr) => {
                    out.push((w, *mr));
                    proof {
                        assert(out@ =~= want.take(i + 1));
                    }
                },
                None => {
                    return Err(DatapathError::NotFound);
                },
            }
            i += 1;
        }
        proof {
            assert(want.take(i as int) =~= want);
        }
        Ok(out)
    }

    /// Records a shared-memory region allocated for outgoing messages, and
    /// returns the completion of the `AllocShm` command.
    pub fn alloc_shm(&mut self, mr: MemoryRegion, desc: MrDescriptor, memfd: i32) -> (r:
        CompletionKind)
        requires
            old(self).wf(),
        ensures
            final(self).wf(),
            final(self).send_mrs() == old(self).send_mrs().push(mr),
            final(self).conns() == old(self).conns(),
            final(self).wrs() == old(self).wrs(),
            final(self).recv_mrs() == old(self).recv_mrs(),
            final(self).pending() == old(self).pending(),
            final(self).held() == old(self).held(),
            r == CompletionKind::AllocShmInternal(desc, memfd),
    {
        self.tls.state.mr_table.push(mr);
        proof {
            assert(self.conns() == old(self).conns());
            assert(self.throttle == old(self).throttle);
        }
        CompletionKind::AllocShmInternal(desc, memfd)
    }

    /// Records the receives of connection `conn_id` about to be posted, one
    /// per region of `recv_mrs`, with the region's handle as `wr_id`. Returns
    /// those `wr_id`s in order.
    pub fn prepare_recv_buffers(&mut self, conn_id: u32, recv_mrs: &Vec<MemoryRegion>) -> (r: Vec<
        u64,
    >)
        requires
            old(self).wf(),
        ensures
            final(self).wf(),
            final(self).wrs() == old(self).wrs().union_prefer_right(wr_entries(conn_id, recv_mrs@)),
            final(self).conns() == old(self).conns(),
            final(self).recv_mrs() == old(self).recv_mrs(),
            final(self).send_mrs() == old(self).send_mrs(),
            final(self).pending() == old(self).pending(),
            final(self).held() == old(self).held(),
            r@.len() == recv_mrs@.len(),
            forall|i: int| 0 <= i < r@.len() ==> #[trigger] r@[i] == recv_mrs@[i].handle as u64,
    {
        let mut ids: Vec<u64> = Vec::new();
        let mut i: usize = 0;
        while i < recv_mrs.len()
            invariant
                i <= recv_mrs@.len(),
                self.wf(),
                self.wrs() == old(self).wrs().union_prefer_right(
                    wr_entries(conn_id, recv_mrs@.take(i as int)),
                ),
                self.conns() == old(self).conns(),
                self.recv_mrs() == old(self).recv_mrs(),
                self.send_mrs() == old(self).send_mrs(),
                self.pending() == old(self).pending(),
                self.held() == old(self).held(),
                ids@.len() == i,
                forall|k: int| 0 <= k < i ==> #[trigger] ids@[k] == recv_mrs@[k].handle as u64,
            decreases recv_mrs@.len() - i,
        {
            let mr = recv_mrs[i];
            let wr_id = mr.handle as u64;
            self.tls.state.wr_contexts.insert(wr_id, WrContext { conn_id, mr_addr: mr.addr });
            ids.push(wr_id);
            proof {
                assert(recv_mrs@.take(i + 1).drop_last() =~= recv_mrs@.take(i as int));
                assert(self.wrs() =~= old(self).wrs().union_prefer_right(
                    wr_entries(conn_id, recv_mrs@.take(i + 1)),
                ));
            }
            i += 1;
        }
        proof {
            assert(recv_mrs@.take(i as int) =~= recv_mrs@);
        }
        ids
    }

    /// Registers connection `handle` with `credit` credit and nothing in
    /// flight, and its receive regions `recv_mrs` by handle.
    pub fn register_connection(&mut self, handle: u32, credit: usize, recv_mrs: &Vec<MemoryRegion>)
        requires
            old(self).wf(),
        ensures
            final(self).wf(),
            final(self).conns() == old(self).conns().insert(handle, final(self).conns()[handle]),
            final(self).conns()[handle].credit == credit,
            final(self).conns()[handle].initial_credit == credit,
            final(self).conns()[handle].outstanding() == Seq::<ReqContext>::empty(),
            final(self).conns()[handle].receiving_sgl@ == Seq::<ShmBuf>::empty(),
            final(self).recv_mrs() == old(self).recv_mrs().union_prefer_right(mr_entries(recv_mrs@)),
            final(self).wrs() == old(self).wrs(),
            final(self).send_mrs() == old(self).send_mrs(),
            final(self).pending() == old(self).pending(),
            final(self).held() == old(self).held(),
    {
        let conn = ConnectionContext::new(handle, credit);
        self.tls.state.cmid_table.insert(handle, conn);
        proof {
            assert forall|h: u32| #[trigger] self.conns().contains_key(h) implies self.conns()[h].wf()
                && self.conns()[h].cmid == h by {
                if h != handle {
                    assert(old(self).conns().contains_key(h));
                }
            }
        }
        let mut i: usize = 0;
        while i < recv_mrs.len()
            invariant
                i <= recv_mrs@.len(),
                self.wf(),
                self.recv_mrs() == old(self).recv_mrs().union_prefer_right(
                    mr_entries(recv_mrs@.take(i as int)),
                ),
                self.conns() == old(self).conns().insert(handle, conn),
                conn.credit == credit && conn.initial_credit == credit,
                conn.outstanding() == Seq::<ReqContext>::empty(),
                conn.receiving_sgl@ == Seq::<ShmBuf>::empty(),
                self.wrs() == old(self).wrs(),
                self.send_mrs() == old(self).send_mrs(),
                self.pending() == old(self).pending(),
                self.held() == old(self).held(),
            decreases recv_mrs@.len() - i,
        {
            let mr = recv_mrs[i];
            self.tls.state.recv_mr_table.insert(mr.handle, mr);
            proof {
                assert(recv_mrs@.take(i + 1).drop_last() =~= recv_mrs@.take(i as int));
                assert(self.recv_mrs() =~= old(self).recv_mrs().union_prefer_right(
                    mr_entries(recv_mrs@.take(i + 1)),
                ));
            }
            i += 1;
        }
        proof {
            assert(recv_mrs@.take(i as int) =~= recv_mrs@);
        }
    }

    /// Records listener `handle` as the one that the incoming-connection
    /// sweep polls, and returns the completion of the `Bind` command.
    pub fn bind(&mut self, handle: u32) -> (r: CompletionKind)
        requires
            old(self).wf(),
        ensures
            final(self).wf(),
            final(self).tls.state.listener_table@ == old(self).tls.state.listener_table@.push(handle),
            final(self).recent_listener_handle == Some(handle),
            final(self).conns() == old(self).conns(),
            final(self).wrs() == old(self).wrs(),
            final(self).recv_mrs() == old(self).recv_mrs(),
            final(self).send_mrs() == old(self).send_mrs(),
            final(self).pending() == old(self).pending(),
            final(self).held() == old(self).held(),
            r == CompletionKind::Bind(handle),
    {
        self.tls.state.listener_table.push(handle);
        self.recent_listener_handle = Some(handle);
        proof {
            assert(self.conns() == old(self).conns());
            assert(self.throttle == old(self).throttle);
        }
        CompletionKind::Bind(handle)
    }

    /// The listener that the incoming-connection sweep polls: none if no
    /// listener was bound; `Err(NotFound)` if it left the listener table.
    pub fn sweep_listener(&self) -> (r: Result<Option<u32>, ControlPathError>)
        ensures
            match self.recent_listener_handle {
                None => r == Ok::<Option<u32>, ControlPathError>(None),
                Some(h) => if self.tls.state.listener_table@.contains(h) {
                    r == Ok::<Option<u32>, ControlPathError>(Some(h))
                } else {
                    r == Err::<Option<u32>, ControlPathError>(ControlPathError::NotFound)
                },
            },
    {
        let recent = self.recent_listener_handle;
        match recent {
            None => Ok(None),
            Some(h) => {
                let mut i: usize = 0;
                while i < self.tls.state.listener_table.len()
                    invariant
                        self.recent_listener_handle == Some(h),
                        i <= self.tls.state.listener_table@.len(),
                        forall|k: int| 0 <= k < i ==> self.tls.state.listener_table@[k] != h,
                    decreases self.tls.state.listener_table@.len() - i,
                {
                    if self.tls.state.listener_table[i] == h {
                        assert(self.tls.state.listener_table@[i as int] == h);
                        return Ok(Some(h));
                    }
                    i += 1;
                }
                Err(ControlPathError::NotFound)
            },
        }
    }

    /// Records the application-side addresses at which receive regions are
    /// mapped, for translating delivered messages. Each pair names a region
    /// by handle; the reply lists, per pair, the region's backend address,
    /// the application address and the region's length. If some handle names
    /// no receive region, nothing changes and the reply is `Err(NotFound)`.
    /// A region mapped twice keeps its first mapping for translation.
    pub fn new_mapped_addrs(&mut self, app_vaddrs: &Vec<(u32, u64)>) -> (r: Result<
        CompletionKind,
        ControlPathError,
    >)
        requires
            old(self).wf(),
        ensures
            final(self).wf(),
            final(self).conns() == old(self).conns(),
            final(self).wrs() == old(self).wrs(),
            final(self).recv_mrs() == old(self).recv_mrs(),
            final(self).send_mrs() == old(self).send_mrs(),
            final(self).pending() == old(self).pending(),
            final(self).held() == old(self).held(),
            (forall|i: int|
                0 <= i < app_vaddrs@.len() ==> old(self).recv_mrs().contains_key(
                    #[trigger] app_vaddrs@[i].0,
                )) ==> {
                let triples = mapped_triples(old(self).recv_mrs(), app_vaddrs@);
                &&& r is Ok && r->Ok_0 is NewMappedAddrsInternal
                &&& r->Ok_0->NewMappedAddrsInternal_0@ == triples
                &&& final(self).tls.state.mapped@ == old(self).tls.state.mapped@ + triples
            },
            !(forall|i: int|
                0 <= i < app_vaddrs@.len() ==> old(self).recv_mrs().contains_key(
                    #[trigger] app_vaddrs@[i].0,
                )) ==> {
                &&& r == Err::<CompletionKind, ControlPathError>(ControlPathError::NotFound)
                &&& final(self).tls.state.mapped@ == old(self).tls.state.mapped@
            },
    {
        let ghost triples = mapped_triples(old(self).recv_mrs(), app_vaddrs@);
        let mut ret: Vec<(usize, usize, usize)> = Vec::new();
        let mut i: usize = 0;
        while i < app_vaddrs.len()
            invariant
                i <= app_vaddrs@.len(),
                *self == *old(self),
                old(self).wf(),
                triples == mapped_triples(old(self).recv_mrs(), app_vaddrs@),
                ret@ == triples.take(i as int),
                forall|k: int| 0 <= k < i ==> old(self).recv_mrs().contains_key(
                    #[trigger] app_vaddrs@[k].0,
                ),
            decreases app_vaddrs@.len() - i,
        {
            let (handle, app_vaddr) = app_vaddrs[i];
            let mr = match self.tls.state.recv_mr_table.get(&handle) {
                Some(m) => *m,
                None => {
                    return Err(ControlPathError::NotFound);
                },
            };
            ret.push((mr.addr, #[verifier::truncate] (app_vaddr as usize), mr.len));
            proof {
                assert(app_vaddrs@[i as int] == (handle, app_vaddr));
                assert(old(self).recv_mrs().contains_key(handle));
                assert(mr == old(self).recv_mrs()[handle]);
                assert(triples[i as int] == (mr.addr, app_vaddr as usize, mr.len));
                assert(ret@ =~= triples.take(i + 1));
            }
            i += 1;
        }
        proof {
            assert(ret@ =~= triples);
        }
        let mut k: usize = 0;
        while k < ret.len()
            invariant
                k <= ret@.len(),
                ret@ == triples,
                self.tls.state.mapped@ == old(self).tls.state.mapped@ + triples.take(k as int),
                self.tls.state.cmid_table == old(self).tls.state.cmid_table,
                self.tls.state.wr_contexts == old(self).tls.state.wr_contexts,
                self.tls.state.recv_mr_table == old(self).tls.state.recv_mr_table,
                self.tls.state.mr_table == old(self).tls.state.mr_table,
                self.tls.state.held_recvs == old(self).tls.state.held_recvs,
                self.local_buffer == old(self).local_buffer,
                self.throttle == old(self).throttle,
                old(self).wf(),
            decreases ret@.len() - k,
        {
            self.tls.state.mapped.push(ret[k]);
            proof {
                assert(self.tls.state.mapped@ =~= old(self).tls.state.mapped@ + triples.take(k + 1));
            }
            k += 1;
        }
        proof {
            assert(triples.take(k as int) =~= triples);
            assert(self.conns() == old(self).conns());
        }
        Ok(CompletionKind::NewMappedAddrsInternal(ret))
    }

    /// Ends a round of the engine that found `work` items at `now_ms`;
    /// returns whether the incoming-connection sweep runs now.
    pub fn finish_round(&mut self, work: usize, now_ms: u64) -> (sweep: bool)
        requires
            old(self).wf(),
        ensures
            final(self).wf(),
            (final(self).throttle, sweep) == round_spec(old(self).throttle, work as nat, now_ms),
            final(self).conns() == old(self).conns(),
            final(self).wrs() == old(self).wrs(),
            final(self).recv_mrs() == old(self).recv_mrs(),
            final(self).send_mrs() == old(self).send_mrs(),
            final(self).pending() == old(self).pending(),
            final(self).held() == old(self).held(),
    {
        let sweep = self.throttle.finish_round(work, now_ms);
        proof {
            assert(self.conns() == old(self).conns());
        }
        sweep
    }

    /// Queues an outgoing message behind those already waiting.
    pub fn enqueue_tx(&mut self, msg: MessageTemplate)
        requires
            old(self).wf(),
        ensures
            final(self).wf(),
            final(self).pending() == old(self).pending().push(msg),
            final(self).conns() == old(self).conns(),
            final(self).same_tables_but_conns(old(self)),
    {
        self.local_buffer.push_back(msg);
        proof {
            assert(self.conns() == old(self).conns());
            assert(self.throttle == old(self).throttle);
        }
    }
}

/// What the command loop does with the result of a command: the completion
/// to send back, if any, and how much work it counts. A deferred command
/// (`InProgress`) sends nothing and counts none; a silent one (`NoResponse`)
/// sends nothing and counts one; any other result is sent back.
pub fn command_outcome(result: Result<CompletionKind, ControlPathError>) -> (r: (
    Option<Completion>,
    usize,
))
    ensures
        r.0 is Some == outcome_spec(result).0,
        r.0 is Some ==> r.0->Some_0 == Completion(result),
        r.1 == outcome_spec(result).1,
{
    match result {
        Err(ControlPathError::InProgress) => (None, 0),
        Err(ControlPathError::NoResponse) => (None, 1),
        other => (Some(Completion(other)), 1),
    }
}

/// The messages that a connection's receive side completes, and the segments
/// it still holds, after receives of segments `segs` in order, where
/// `imms[i]` says whether receive `i` carried immediate data, starting from
/// `held`. This is what repeated `on_completion` does to one connection.
pub open spec fn reassemble(held: Seq<ShmBuf>, segs: Seq<ShmBuf>, imms: Seq<bool>) -> (
    Seq<Seq<ShmBuf>>,
    Seq<ShmBuf>,
)
    decreases segs.len(),
{
    if segs.len() == 0 {
        (Seq::empty(), held)
    } else {
        let prev = reassemble(held, segs.drop_last(), imms.drop_last());
        let cur = prev.1.push(segs.last());
        if imms.last() {
            (prev.0.push(cur), Seq::empty())
        } else {
            (prev.0, cur)
        }
    }
}

/// The immediate-data flags of the `k` sends of one message: set on the last.
pub open spec fn framing_flags(k: nat) -> Seq<bool> {
    Seq::new(k, |i: int| i == k - 1)
}

/// A message sent as `k` segments, the last with immediate data, is received
/// as `k` completions that yield exactly that message, whole and in order,
/// and leave nothing held.
pub proof fn lemma_framing(segs: Seq<ShmBuf>)
    requires
        segs.len() > 0,
    ensures
        reassemble(Seq::empty(), segs, framing_flags(segs.len())) == (
            seq![segs],
            Seq::<ShmBuf>::empty(),
        ),
{
    let k = segs.len();
    let flags = framing_flags(k);
    lemma_framing_prefix(segs, (k - 1) as nat);
    assert(segs.drop_last() =~= segs.take(k - 1));
    assert(flags.drop_last() =~= flags.take(k - 1));
    assert(segs.take(k - 1).push(segs.last()) =~= segs);
    assert(seq![segs] =~= Seq::<Seq<ShmBuf>>::empty().push(segs));
}

proof fn lemma_framing_prefix(segs: Seq<ShmBuf>, j: nat)
    requires
        j < segs.len(),
    ensures
        reassemble(Seq::empty(), segs.take(j as int), framing_flags(segs.len()).take(j as int)) == (
            Seq::<Seq<ShmBuf>>::empty(),
            segs.take(j as int),
        ),
    decreases j,
{
    let flags = framing_flags(segs.len());
    if j > 0 {
        lemma_framing_prefix(segs, (j - 1) as nat);
        assert(segs.take(j as int).drop_last() =~= segs.take(j - 1));
        assert(flags.take(j as int).drop_last() =~= flags.take(j - 1));
        assert(segs.take(j - 1).push(segs.take(j as int).last()) =~= segs.take(j as int));
        assert(!flags.take(j as int).last());
    } else {
        assert(segs.take(0).len() == 0);
    }
}

/// Every connection of a well-formed engine conserves its credit: what is
/// left plus the segments of its outstanding requests is its initial credit.
pub proof fn lemma_credit_conservation(e: &RpcAdapterEngine, h: u32)
    requires
        e.wf(),
        e.conns().contains_key(h),
    ensures
        e.conns()[h].credit + outstanding_segments(e.conns()[h].outstanding())
            == e.conns()[h].initial_credit,
{
}

proof fn lemma_find_held_first(h: Seq<(u32, u32, Seq<u64>)>, conn: u32, call: u32, j: int)
    requires
        0 <= j < h.len(),
        h[j].0 == conn && h[j].1 == call,
        forall|t: int| 0 <= t < j ==> !(h[t].0 == conn && h[t].1 == call),
    ensures
        find_held(h, conn, call) == Some(j),
    decreases j,
{
    if j > 0 {
        let d = h.drop_first();
        assert forall|t: int| 0 <= t < j - 1 implies !(d[t].0 == conn && d[t].1 == call) by {
            assert(d[t] == h[t + 1]);
        }
        lemma_find_held_first(d, conn, call, j - 1);
    }
}

proof fn lemma_find_held_none(h: Seq<(u32, u32, Seq<u64>)>, conn: u32, call: u32)
    requires
        forall|t: int| 0 <= t < h.len() ==> !(h[t].0 == conn && h[t].1 == call),
    ensures
        find_held(h, conn, call) is None,
    decreases h.len(),
{
    if h.len() > 0 {
        let d = h.drop_first();
        assert forall|t: int| 0 <= t < d.len() implies !(d[t].0 == conn && d[t].1 == call) by {
            assert(d[t] == h[t + 1]);
        }
        lemma_find_held_none(d, conn, call);
    }
}

fn copy_ids(v: &Vec<u64>) -> (r: Vec<u64>)
    ensures
        r@ == v@,
{
    let mut out: Vec<u64> = Vec::new();
    let mut i: usize = 0;
    while i < v.len()
        invariant
            i <= v@.len(),
            out@ == v@.take(i as int),
        decreases v@.len() - i,
    {
        out.push(v[i]);
        i += 1;
        assert(out@ =~= v@.take(i as int));
    }
    assert(v@.take(i as int) =~= v@);
    out
}

proof fn lemma_cover_holds(mrs: Seq<MemoryRegion>, seg: ShmBuf)
    requires
        find_cover(mrs, seg) is Some,
    ensures
        covers(find_cover(mrs, seg)->Some_0, seg),
    decreases mrs.len(),
{
    if mrs.len() > 0 && !covers(mrs[0], seg) {
        lemma_cover_holds(mrs.drop_first(), seg);
    }
}

} // verus!
