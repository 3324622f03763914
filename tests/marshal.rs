use rpc_adapter::marshal::{
    decode_meta, encode_meta, unmarshal, FuncRegistry, MarshalError, MessageMeta, MessageTemplate,
    RpcMsgType, SgList, ShmBuf, META_LEN,
};

fn meta(t: RpcMsgType, func_id: u32, call_id: u32) -> MessageMeta {
    MessageMeta { conn_id: 3, call_id, func_id, msg_type: t }
}

#[test]
fn meta_encoding_is_little_endian() {
    let m = MessageMeta {
        conn_id: 0x0403_0201,
        call_id: 7,
        func_id: 0xdead_beef,
        msg_type: RpcMsgType::Response,
    };
    let b = encode_meta(&m);
    assert_eq!(b.len(), META_LEN);
    assert_eq!(b, vec![1, 2, 3, 4, 7, 0, 0, 0, 0xef, 0xbe, 0xad, 0xde, 1, 0, 0, 0]);
}

#[test]
fn meta_round_trip() {
    for t in [RpcMsgType::Request, RpcMsgType::Response] {
        for (f, c) in [(0u32, 0u32), (99, 7), (u32::MAX, u32::MAX)] {
            let m = meta(t, f, c);
            assert_eq!(decode_meta(&encode_meta(&m)), Ok(m));
        }
    }
}

#[test]
fn decode_rejects_short_or_bad_type() {
    assert_eq!(decode_meta(&[0u8; 15]), Err(MarshalError::Malformed));
    let mut b = encode_meta(&meta(RpcMsgType::Request, 0, 1));
    b[12] = 2;
    assert_eq!(decode_meta(&b), Err(MarshalError::Malformed));
}

#[test]
fn marshal_unmarshal_round_trip() {
    let mut reg = FuncRegistry::new();
    reg.register(RpcMsgType::Request, 0);
    reg.register(RpcMsgType::Response, 0);
    for t in [RpcMsgType::Request, RpcMsgType::Response] {
        let m = MessageTemplate {
            meta: meta(t, 0, 11),
            header: ShmBuf { ptr: 0x1000, len: META_LEN },
            fields: vec![ShmBuf { ptr: 0x2000, len: 5 }, ShmBuf { ptr: 0x3000, len: 9 }],
        };
        let sgl = m.marshal();
        assert_eq!(sgl.0.len(), 3);
        assert_eq!(sgl.0[0], m.header);
        let back = unmarshal(&sgl, &encode_meta(&m.meta), &reg).unwrap();
        assert_eq!(back.meta, m.meta);
        assert_eq!(back.header, m.header);
        assert_eq!(back.fields, m.fields);
    }
}

#[test]
fn unmarshal_unknown_func_fails() {
    let mut reg = FuncRegistry::new();
    reg.register(RpcMsgType::Request, 0);
    let sgl = SgList(vec![ShmBuf { ptr: 0x1000, len: META_LEN }]);
    let hdr = encode_meta(&meta(RpcMsgType::Request, 99, 1));
    assert!(matches!(unmarshal(&sgl, &hdr, &reg), Err(MarshalError::UnknownFunc)));
    let hdr = encode_meta(&meta(RpcMsgType::Response, 0, 1));
    assert!(matches!(unmarshal(&sgl, &hdr, &reg), Err(MarshalError::UnknownFunc)));
}

#[test]
fn unmarshal_empty_list_fails() {
    let mut reg = FuncRegistry::new();
    reg.register(RpcMsgType::Request, 0);
    let hdr = encode_meta(&meta(RpcMsgType::Request, 0, 1));
    assert!(matches!(unmarshal(&SgList(vec![]), &hdr, &reg), Err(MarshalError::Malformed)));
}

#[test]
fn registry_knows_registered_pairs() {
    let mut reg = FuncRegistry::new();
    assert!(!reg.knows(RpcMsgType::Request, 0));
    reg.register(RpcMsgType::Request, 0);
    reg.register(RpcMsgType::Request, 0);
    assert!(reg.knows(RpcMsgType::Request, 0));
    assert!(!reg.knows(RpcMsgType::Response, 0));
    assert_eq!(reg.entries.len(), 1);
}
