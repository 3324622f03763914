use rpc_adapter::conn::{
    next_phase, ConnEvent, ConnPhase, ConnectionContext, FlowError, ReqContext, INITIAL_CREDIT,
};
use rpc_adapter::control::{Completion, CompletionKind, ControlPathError, MrDescriptor};
use rpc_adapter::engine::{
    command_outcome, CqAction, DatapathError, MemoryRegion, RpcAdapterEngine, WcOpcode, WcStatus,
    WorkCompletion,
};
use rpc_adapter::marshal::{
    encode_meta, FuncRegistry, MarshalError, MessageMeta, MessageTemplate, RpcMsgType, ShmBuf,
    META_LEN,
};
use rpc_adapter::message::EngineRxMessage;

const MIB8: usize = 8 << 20;
const SEND_BASE: usize = 0x1000_0000;

fn registry() -> FuncRegistry {
    let mut r = FuncRegistry::new();
    r.register(RpcMsgType::Request, 0);
    r.register(RpcMsgType::Response, 0);
    r
}

fn recv_mrs(first_handle: u32, n: u32) -> Vec<MemoryRegion> {
    (0..n)
        .map(|i| MemoryRegion {
            handle: first_handle + i,
            addr: 0x4000_0000 + ((first_handle + i) as usize) * MIB8,
            len: MIB8,
        })
        .collect()
}

fn desc(handle: u32) -> MrDescriptor {
    MrDescriptor { handle, rkey: 1, vaddr: 0, map_len: MIB8 as u64, file_off: 0, pd: 1 }
}

/// An engine with one send region and connection `h` of `credit` credit
/// whose receive regions start at handle `0x10`.
fn engine_with_conn(h: u32, credit: usize) -> RpcAdapterEngine {
    let mut e = RpcAdapterEngine::new(registry(), 0);
    e.alloc_shm(MemoryRegion { handle: 1, addr: SEND_BASE, len: 1 << 20 }, desc(1), 3);
    let mrs = recv_mrs(0x10, 128);
    let ids = e.prepare_recv_buffers(h, &mrs);
    assert_eq!(ids.len(), 128);
    assert_eq!(ids[0], 0x10);
    e.register_connection(h, credit, &mrs);
    e
}

fn request(conn: u32, call_id: u32, fields: usize) -> MessageTemplate {
    MessageTemplate {
        meta: MessageMeta { conn_id: conn, call_id, func_id: 0, msg_type: RpcMsgType::Request },
        header: ShmBuf { ptr: SEND_BASE + 0x100, len: META_LEN },
        fields: (0..fields).map(|i| ShmBuf { ptr: SEND_BASE + 0x1000 * (i + 1), len: 64 }).collect(),
    }
}

fn recv_wc(wr_id: u64, byte_len: u32, with_imm: bool) -> WorkCompletion {
    WorkCompletion { wr_id, status: WcStatus::Success, opcode: WcOpcode::Recv, byte_len, with_imm }
}

fn credit(e: &RpcAdapterEngine, h: u32) -> usize {
    e.tls.state.cmid_table.get(&h).unwrap().credit
}

fn outstanding(e: &RpcAdapterEngine, h: u32) -> Vec<ReqContext> {
    e.tls.state.cmid_table.get(&h).unwrap().outstanding_req.iter().copied().collect()
}

fn map_all(e: &mut RpcAdapterEngine) {
    let pairs: Vec<(u32, u64)> =
        (0..128u32).map(|i| (0x10 + i, 0x7f00_0000_0000 + (i as u64) * MIB8 as u64)).collect();
    e.new_mapped_addrs(&pairs).unwrap();
}

/// Receives one message of `segs` segments on connection `h`, the header in
/// the first receive region.
fn receive(e: &mut RpcAdapterEngine, h: u32, meta: MessageMeta, segs: u64) -> Result<EngineRxMessage, DatapathError> {
    let mut message = None;
    for k in 0..segs {
        let last = k + 1 == segs;
        match e.on_completion(recv_wc(0x10 + k, 64, last)).unwrap() {
            CqAction::Received { conn_id, message: m } => {
                assert_eq!(conn_id, h);
                assert_eq!(m.is_some(), last);
                message = m;
            }
            other => panic!("unexpected action {other:?}"),
        }
    }
    let inbound = message.unwrap();
    assert_eq!(inbound.sgl.0.len() as u64, segs);
    assert_eq!(inbound.wr_ids, (0..segs).map(|k| 0x10 + k).collect::<Vec<u64>>());
    e.deliver(h, &inbound, &encode_meta(&meta))
}

#[test]
fn connect_single_request_response() {
    let mut e = engine_with_conn(1, INITIAL_CREDIT);
    map_all(&mut e);
    assert_eq!(credit(&e, 1), 128);
    e.enqueue_tx(request(1, 7, 1));
    let plan = e.next_send().unwrap().unwrap();
    assert_eq!(plan.conn_id, 1);
    assert_eq!(plan.posts.len(), 2);
    assert_eq!(credit(&e, 1), 126);
    assert_eq!(outstanding(&e, 1), vec![ReqContext { call_id: 7, sg_len: 2 }]);
    let reply = MessageMeta { conn_id: 0, call_id: 7, func_id: 0, msg_type: RpcMsgType::Response };
    let rx = receive(&mut e, 1, reply, 1).unwrap();
    match rx {
        EngineRxMessage::RpcMessage(m) => {
            assert_eq!(m.meta.conn_id, 1);
            assert_eq!(m.meta.call_id, 7);
            assert_eq!(m.addr_backend, 0x4000_0000 + 0x10 * MIB8);
            assert_eq!(m.addr_app, 0x7f00_0000_0000);
        }
        other => panic!("unexpected {other:?}"),
    }
    assert_eq!(credit(&e, 1), 128);
    assert!(outstanding(&e, 1).is_empty());
}

#[test]
fn backpressure_requeues_head_of_line() {
    let mut e = engine_with_conn(4, 6);
    map_all(&mut e);
    e.enqueue_tx(request(4, 1, 2));
    e.enqueue_tx(request(4, 2, 2));
    assert!(e.next_send().unwrap().is_some());
    assert_eq!(credit(&e, 4), 3);
    assert!(e.next_send().unwrap().is_none());
    assert_eq!(e.local_buffer.len(), 1);
    assert_eq!(e.local_buffer[0].meta.call_id, 2);
    assert!(e.next_send().unwrap().is_none());
    let reply = MessageMeta { conn_id: 4, call_id: 1, func_id: 0, msg_type: RpcMsgType::Response };
    receive(&mut e, 4, reply, 1).unwrap();
    assert_eq!(credit(&e, 4), 6);
    let plan = e.next_send().unwrap().unwrap();
    assert_eq!(plan.posts.len(), 3);
    assert_eq!(credit(&e, 4), 3);
    assert!(e.local_buffer.is_empty());
}

#[test]
fn listener_accept_reports_new_connection() {
    let mut e = RpcAdapterEngine::new(registry(), 0);
    assert_eq!(e.sweep_listener(), Ok(None));
    let c = e.bind(9);
    assert!(matches!(c, CompletionKind::Bind(9)));
    assert!(!e.finish_round(0, 10));
    assert_eq!(e.throttle.backoff, 2);
    assert!(!e.finish_round(0, 2000));
    assert!(e.finish_round(0, 2000));
    assert_eq!(e.throttle.last_sweep_ms, 2000);
    assert_eq!(e.sweep_listener(), Ok(Some(9)));
    let mrs = recv_mrs(0x200, 128);
    e.prepare_recv_buffers(2, &mrs);
    e.register_connection(2, INITIAL_CREDIT, &mrs);
    let descs: Vec<MrDescriptor> = mrs.iter().map(|m| desc(m.handle)).collect();
    let fds: Vec<i32> = (0..128).collect();
    let done = CompletionKind::NewConnectionInternal(2, descs, fds);
    match done {
        CompletionKind::NewConnectionInternal(h, d, f) => {
            assert_eq!(h, 2);
            assert_eq!(d.len(), 128);
            assert_eq!(f.len(), 128);
        }
        _ => unreachable!(),
    }
    assert_eq!(credit(&e, 2), 128);
}

#[test]
fn unknown_func_id_is_fatal_without_change() {
    let mut e = engine_with_conn(1, INITIAL_CREDIT);
    map_all(&mut e);
    e.enqueue_tx(request(1, 5, 0));
    e.next_send().unwrap().unwrap();
    let bad = MessageMeta { conn_id: 1, call_id: 5, func_id: 99, msg_type: RpcMsgType::Response };
    let err = receive(&mut e, 1, bad, 1).unwrap_err();
    assert_eq!(err, DatapathError::Marshal(MarshalError::UnknownFunc));
    assert!(err.is_fatal());
    assert_eq!(credit(&e, 1), 127);
    assert_eq!(outstanding(&e, 1), vec![ReqContext { call_id: 5, sg_len: 1 }]);
}

#[test]
fn new_mapped_addrs_translates_addresses() {
    let mut e = engine_with_conn(1, INITIAL_CREDIT);
    let r = e.new_mapped_addrs(&vec![(0x10, 0x7f00_0000_0000)]).unwrap();
    match r {
        CompletionKind::NewMappedAddrsInternal(v) => {
            assert_eq!(v, vec![(0x4000_0000 + 0x10 * MIB8, 0x7f00_0000_0000, MIB8)]);
        }
        _ => unreachable!(),
    }
    assert_eq!(e.translate(0x4000_0000 + 0x10 * MIB8 + 0x40), Some(0x7f00_0000_0040));
    assert_eq!(e.translate(0x4000_0000 + 0x11 * MIB8), None);
    let req = MessageMeta { conn_id: 0, call_id: 3, func_id: 0, msg_type: RpcMsgType::Request };
    match receive(&mut e, 1, req, 2).unwrap() {
        EngineRxMessage::RpcMessage(m) => assert_eq!(m.addr_app, 0x7f00_0000_0000),
        other => panic!("unexpected {other:?}"),
    }
}

#[test]
fn new_mapped_addrs_unknown_region_changes_nothing() {
    let mut e = engine_with_conn(1, INITIAL_CREDIT);
    let r = e.new_mapped_addrs(&vec![(0x10, 0x7f00_0000_0000), (0x999, 1)]);
    assert!(matches!(r, Err(ControlPathError::NotFound)));
    assert!(e.tls.state.mapped.is_empty());
}

#[test]
fn credit_conserved_across_traffic() {
    let mut e = engine_with_conn(1, INITIAL_CREDIT);
    map_all(&mut e);
    for call in 0..10u32 {
        e.enqueue_tx(request(1, call, (call % 3) as usize));
    }
    for _ in 0..10 {
        e.next_send().unwrap().unwrap();
        let out: usize = outstanding(&e, 1).iter().map(|r| r.sg_len).sum();
        assert_eq!(credit(&e, 1) + out, INITIAL_CREDIT);
    }
    for call in 0..10u32 {
        let reply = MessageMeta { conn_id: 1, call_id: call, func_id: 0, msg_type: RpcMsgType::Response };
        receive(&mut e, 1, reply, 1).unwrap();
        let out: usize = outstanding(&e, 1).iter().map(|r| r.sg_len).sum();
        assert_eq!(credit(&e, 1) + out, INITIAL_CREDIT);
    }
    assert_eq!(credit(&e, 1), INITIAL_CREDIT);
}

#[test]
fn response_out_of_order_is_fatal() {
    let mut e = engine_with_conn(1, INITIAL_CREDIT);
    map_all(&mut e);
    e.enqueue_tx(request(1, 1, 0));
    e.enqueue_tx(request(1, 2, 0));
    e.next_send().unwrap().unwrap();
    e.next_send().unwrap().unwrap();
    let reply = MessageMeta { conn_id: 1, call_id: 2, func_id: 0, msg_type: RpcMsgType::Response };
    let err = receive(&mut e, 1, reply, 1).unwrap_err();
    assert_eq!(err, DatapathError::Flow(FlowError::CallIdMismatch));
    assert_eq!(credit(&e, 1), 126);
    let reply = MessageMeta { conn_id: 1, call_id: 1, func_id: 0, msg_type: RpcMsgType::Response };
    receive(&mut e, 1, reply, 1).unwrap();
    assert_eq!(outstanding(&e, 1), vec![ReqContext { call_id: 2, sg_len: 1 }]);
}

#[test]
fn response_without_request_is_fatal() {
    let mut e = engine_with_conn(1, INITIAL_CREDIT);
    map_all(&mut e);
    let reply = MessageMeta { conn_id: 1, call_id: 0, func_id: 0, msg_type: RpcMsgType::Response };
    let err = receive(&mut e, 1, reply, 1).unwrap_err();
    assert_eq!(err, DatapathError::Flow(FlowError::NoOutstandingRequest));
}

#[test]
fn framing_marks_only_last_segment() {
    let mut e = engine_with_conn(1, INITIAL_CREDIT);
    e.enqueue_tx(request(1, 1, 4));
    let plan = e.next_send().unwrap().unwrap();
    assert_eq!(plan.posts.len(), 5);
    for (i, p) in plan.posts.iter().enumerate() {
        assert_eq!(p.with_imm, i == 4);
        assert_eq!(p.mr, 1);
    }
    assert_eq!(plan.posts[0].offset, 0x100);
    assert_eq!(plan.posts[1].offset, 0x1000);
    assert_eq!(plan.posts[1].len, 64);
}

#[test]
fn receive_assembles_k_segments() {
    let mut e = engine_with_conn(1, INITIAL_CREDIT);
    map_all(&mut e);
    let req = MessageMeta { conn_id: 0, call_id: 3, func_id: 0, msg_type: RpcMsgType::Request };
    receive(&mut e, 1, req, 4).unwrap();
    assert!(e.tls.state.cmid_table.get(&1).unwrap().receiving_sgl.is_empty());
}

#[test]
fn send_outside_registered_region_drops_message() {
    let mut e = engine_with_conn(1, INITIAL_CREDIT);
    let mut m = request(1, 1, 1);
    m.fields[0].ptr = 0x10;
    e.enqueue_tx(m);
    assert_eq!(e.next_send().unwrap_err(), DatapathError::NotFound);
    assert!(e.local_buffer.is_empty());
    assert_eq!(credit(&e, 1), 128);
}

#[test]
fn send_on_unknown_connection_fails() {
    let mut e = engine_with_conn(1, INITIAL_CREDIT);
    e.enqueue_tx(request(5, 1, 1));
    assert_eq!(e.next_send().unwrap_err(), DatapathError::NotFound);
    assert!(e.next_send().unwrap().is_none());
}

#[test]
fn completions_of_other_kinds() {
    let mut e = engine_with_conn(1, INITIAL_CREDIT);
    let send = WorkCompletion { wr_id: 1, status: WcStatus::Success, opcode: WcOpcode::Send, byte_len: 0, with_imm: false };
    assert!(matches!(e.on_completion(send), Ok(CqAction::Nothing)));
    let failed = WorkCompletion { status: WcStatus::Error(12), ..send };
    assert!(matches!(e.on_completion(failed), Ok(CqAction::Abandon)));
    let invalid = WorkCompletion { opcode: WcOpcode::Invalid, ..send };
    assert_eq!(e.on_completion(invalid).unwrap_err(), DatapathError::InvalidOpcode);
    assert!(DatapathError::InvalidOpcode.is_fatal());
    let unknown = recv_wc(0x5000, 8, true);
    assert_eq!(e.on_completion(unknown).unwrap_err(), DatapathError::NotFound);
    assert!(!DatapathError::NotFound.is_fatal());
}

#[test]
fn command_outcomes() {
    let (c, w) = command_outcome(Err(ControlPathError::InProgress));
    assert!(c.is_none());
    assert_eq!(w, 0);
    let (c, w) = command_outcome(Err(ControlPathError::NoResponse));
    assert!(c.is_none());
    assert_eq!(w, 1);
    let (c, w) = command_outcome(Err(ControlPathError::NotFound));
    assert!(matches!(c, Some(Completion(Err(ControlPathError::NotFound)))));
    assert_eq!(w, 1);
    let (c, w) = command_outcome(Ok(CompletionKind::Bind(4)));
    assert!(matches!(c, Some(Completion(Ok(CompletionKind::Bind(4))))));
    assert_eq!(w, 1);
}

#[test]
fn alloc_shm_registers_send_region() {
    let mut e = RpcAdapterEngine::new(registry(), 0);
    let c = e.alloc_shm(MemoryRegion { handle: 5, addr: 0x9000, len: 0x1000 }, desc(5), 42);
    assert!(matches!(c, CompletionKind::AllocShmInternal(d, 42) if d.handle == 5));
    assert_eq!(e.query_mr(ShmBuf { ptr: 0x9800, len: 0x800 }).map(|m| m.handle), Some(5));
    assert_eq!(e.query_mr(ShmBuf { ptr: 0x9800, len: 0x801 }), None);
}

#[test]
fn receives_are_reposted_only_when_reclaimed() {
    let mut e = engine_with_conn(1, INITIAL_CREDIT);
    map_all(&mut e);
    let req = MessageMeta { conn_id: 0, call_id: 21, func_id: 0, msg_type: RpcMsgType::Request };
    receive(&mut e, 1, req, 3).unwrap();
    assert_eq!(e.tls.state.held_recvs.len(), 1);
    assert!(e.reclaim(1, &vec![99]).is_empty());
    assert!(e.reclaim(2, &vec![21]).is_empty());
    let ids = e.reclaim(1, &vec![21]);
    assert_eq!(ids, vec![0x10, 0x11, 0x12]);
    assert!(e.tls.state.held_recvs.is_empty());
    let regions = e.recv_regions(&ids).unwrap();
    assert_eq!(regions.len(), 3);
    assert_eq!(regions[1].0, 0x11);
    assert_eq!(regions[1].1.handle, 0x11);
    assert_eq!(e.recv_regions(&vec![0x10, 0x9999]).unwrap_err(), DatapathError::NotFound);
}

#[test]
fn failed_delivery_holds_nothing() {
    let mut e = engine_with_conn(1, INITIAL_CREDIT);
    let req = MessageMeta { conn_id: 0, call_id: 4, func_id: 0, msg_type: RpcMsgType::Request };
    assert_eq!(receive(&mut e, 1, req, 1).unwrap_err(), DatapathError::NotFound);
    assert!(e.tls.state.held_recvs.is_empty());
}

#[test]
fn connection_phases_follow_lifecycle() {
    let mut p = ConnPhase::Preparing;
    for (ev, want) in [
        (ConnEvent::AllRecvsPosted, ConnPhase::Posted),
        (ConnEvent::Established, ConnPhase::Connected),
        (ConnEvent::Teardown, ConnPhase::Draining),
        (ConnEvent::Drained, ConnPhase::Closed),
    ] {
        p = next_phase(p, ev).unwrap();
        assert_eq!(p, want);
    }
    assert_eq!(next_phase(ConnPhase::Closed, ConnEvent::Established), None);
    assert_eq!(next_phase(ConnPhase::Preparing, ConnEvent::Teardown), None);
    let mut c = ConnectionContext::new(3, 10);
    assert!(c.is_drained());
    c.on_request_sent(1, 4);
    assert!(!c.is_drained());
}
