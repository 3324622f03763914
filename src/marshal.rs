//! Framing of an RPC message as a scatter-gather list: a fixed-size header
//! segment that holds the message metadata, then one segment per payload field.
use vstd::prelude::*;

verus! {

/// Length in bytes of the encoded message metadata.
pub const META_LEN: usize = 16;

/// A segment of shared memory: `len` bytes at backend address `ptr`.
#[derive(Clone, Copy, Debug, PartialEq, Eq, Structural)]
pub struct ShmBuf {
    pub ptr: usize,
    pub len: usize,
}

/// Whether a message is a request or the response to one.
#[derive(Clone, Copy, Debug, PartialEq, Eq, Structural)]
pub enum RpcMsgType {
    Request,
    Response,
}

/// The metadata at the head of every RPC message.
#[derive(Clone, Copy, Debug, PartialEq, Eq, Structural)]
pub struct MessageMeta {
    /// The connection the message travels on; the receiver overwrites it.
    pub conn_id: u32,
    pub call_id: u32,
    pub func_id: u32,
    pub msg_type: RpcMsgType,
}

/// Errors of framing and parsing a message.
#[derive(Clone, Copy, Debug, PartialEq, Eq, Structural)]
pub enum MarshalError {
    /// The segment list is empty or the header bytes do not parse.
    Malformed,
    /// No handler is registered for this message type and function.
    UnknownFunc,
}

pub open spec fn le32(x: u32) -> Seq<u8> {
    seq![
        (x & 0xff) as u8,
        ((x >> 8u32) & 0xff) as u8,
        ((x >> 16u32) & 0xff) as u8,
        ((x >> 24u32) & 0xff) as u8,
    ]
}

pub open spec fn from_le32(b: Seq<u8>) -> u32
    recommends
        b.len() >= 4,
{
    (b[0] as u32) | ((b[1] as u32) << 8u32) | ((b[2] as u32) << 16u32) | ((b[3] as u32) << 24u32)
}

pub open spec fn msg_type_code(t: RpcMsgType) -> u32 {
    match t {
        RpcMsgType::Request => 0,
        RpcMsgType::Response => 1,
    }
}

/// The header bytes of `m`: conn_id, call_id, func_id and the message type
/// (0 request, 1 response), each as four little-endian bytes.
pub open spec fn encode_meta_spec(m: MessageMeta) -> Seq<u8> {
    le32(m.conn_id) + le32(m.call_id) + le32(m.func_id) + le32(msg_type_code(m.msg_type))
}

/// What the header bytes `b` parse to; `None` when they are too short or the
/// type code is neither 0 nor 1.
pub open spec fn decode_meta_spec(b: Seq<u8>) -> Option<MessageMeta> {
    if b.len() < META_LEN {
        None
    } else {
        let code = from_le32(b.subrange(12, 16));
        if code > 1 {
            None
        } else {
            Some(
                MessageMeta {
                    conn_id: from_le32(b.subrange(0, 4)),
                    call_id: from_le32(b.subrange(4, 8)),
                    func_id: from_le32(b.subrange(8, 12)),
                    msg_type: if code == 0 {
                        RpcMsgType::Request
                    } else {
                        RpcMsgType::Response
                    },
                },
            )
        }
    }
}

proof fn lemma_le32_round_trip(x: u32)
    ensures
        from_le32(le32(x)) == x,
{
    let b0 = (x & 0xff) as u8;
    let b1 = ((x >> 8u32) & 0xff) as u8;
    let b2 = ((x >> 16u32) & 0xff) as u8;
    let b3 = ((x >> 24u32) & 0xff) as u8;
    assert((b0 as u32) | ((b1 as u32) << 8u32) | ((b2 as u32) << 16u32) | ((b3 as u32) << 24u32)
        == x) by (bit_vector)
        requires
            b0 == (x & 0xff) as u8,
            b1 == ((x >> 8u32) & 0xff) as u8,
            b2 == ((x >> 16u32) & 0xff) as u8,
            b3 == ((x >> 24u32) & 0xff) as u8,
    ;
}

fn push_le32(out: &mut Vec<u8>, x: u32)
    ensures
        final(out)@ == old(out)@ + le32(x),
{
    out.push((x & 0xff) as u8);
    out.push(((x >> 8u32) & 0xff) as u8);
    out.push(((x >> 16u32) & 0xff) as u8);
    out.push(((x >> 24u32) & 0xff) as u8);
    assert(final(out)@ =~= old(out)@ + le32(x));
}

fn read_le32(b: &[u8], at: usize) -> (r: u32)
    requires
        at + 4 <= b@.len(),
    ensures
        r == from_le32(b@.subrange(at as int, at + 4)),
{
    (b[at] as u32) | ((b[at + 1] as u32) << 8u32) | ((b[at + 2] as u32) << 16u32) | ((b[at
        + 3] as u32) << 24u32)
}

/// Encodes the metadata into the header bytes of a message.
pub fn encode_meta(m: &MessageMeta) -> (r: Vec<u8>)
    ensures
        r@ == encode_meta_spec(*m),
        r@.len() == META_LEN,
{
    let mut out: Vec<u8> = Vec::new();
    push_le32(&mut out, m.conn_id);
    push_le32(&mut out, m.call_id);
    push_le32(&mut out, m.func_id);
    let code: u32 = match m.msg_type {
        RpcMsgType::Request => 0,
        RpcMsgType::Response => 1,
    };
    push_le32(&mut out, code);
    out
}

/// Parses the header bytes of a message.
pub fn decode_meta(b: &[u8]) -> (r: Result<MessageMeta, MarshalError>)
    ensures
        match decode_meta_spec(b@) {
            Some(m) => r == Ok::<MessageMeta, MarshalError>(m),
            None => r == Err::<MessageMeta, MarshalError>(MarshalError::Malformed),
        },
{
    if b.len() < META_LEN {
        return Err(MarshalError::Malformed);
    }
    let code = read_le32(b, 12);
    if code > 1 {
        return Err(MarshalError::Malformed);
    }
    Ok(
        MessageMeta {
            conn_id: read_le32(b, 0),
            call_id: read_le32(b, 4),
            func_id: read_le32(b, 8),
            msg_type: if code == 0 {
                RpcMsgType::Request
            } else {
                RpcMsgType::Response
            },
        },
    )
}

/// Parsing the encoding of any metadata gives it back.
pub proof fn lemma_meta_round_trip(m: MessageMeta)
    ensures
        decode_meta_spec(encode_meta_spec(m)) == Some(m),
{
    let b = encode_meta_spec(m);
    lemma_le32_round_trip(m.conn_id);
    lemma_le32_round_trip(m.call_id);
    lemma_le32_round_trip(m.func_id);
    lemma_le32_round_trip(msg_type_code(m.msg_type));
    assert(b.subrange(0, 4) =~= le32(m.conn_id));
    assert(b.subrange(4, 8) =~= le32(m.call_id));
    assert(b.subrange(8, 12) =~= le32(m.func_id));
    assert(b.subrange(12, 16) =~= le32(msg_type_code(m.msg_type)));
}

/// An ordered scatter-gather list of shared-memory segments.
#[derive(Debug)]
pub struct SgList(pub Vec<ShmBuf>);

/// An RPC message resident in shared memory: its metadata, the segment that
/// holds the encoded metadata, and one segment per payload field in
/// declaration order.
#[derive(Debug)]
pub struct MessageTemplate {
    pub meta: MessageMeta,
    pub header: ShmBuf,
    pub fields: Vec<ShmBuf>,
}

/// What a message is to the logic: metadata, header segment, field segments.
pub struct MessageView {
    pub meta: MessageMeta,
    pub header: ShmBuf,
    pub fields: Seq<ShmBuf>,
}

impl MessageTemplate {
    pub open spec fn view(&self) -> MessageView {
        MessageView { meta: self.meta, header: self.header, fields: self.fields@ }
    }

    /// The scatter-gather list of the message: the header, then the fields.
    pub fn marshal(&self) -> (r: SgList)
        ensures
            r.0@ == marshal_spec(self@),
    {
        let mut v: Vec<ShmBuf> = Vec::new();
        v.push(self.header);
        let mut i: usize = 0;
        while i < self.fields.len()
            invariant
                i <= self.fields@.len(),
                v@ == seq![self.header] + self.fields@.take(i as int),
            decreases self.fields@.len() - i,
        {
            v.push(self.fields[i]);
            i += 1;
            assert(v@ =~= seq![self.header] + self.fields@.take(i as int));
        }
        assert(self.fields@.take(i as int) =~= self.fields@);
        SgList(v)
    }

    pub fn is_request(&self) -> (r: bool)
        ensures
            r == (self.meta.msg_type == RpcMsgType::Request),
    {
        match self.meta.msg_type {
            RpcMsgType::Request => true,
            RpcMsgType::Response => false,
        }
    }
}

/// The segments of a message in the order they are sent.
pub open spec fn marshal_spec(m: MessageView) -> Seq<ShmBuf> {
    seq![m.header] + m.fields
}

/// The message that a received segment list with header bytes `header`
/// rebuilds, given the registered (type, function) pairs `known`.
pub open spec fn unmarshal_spec(sgl: Seq<ShmBuf>, header: Seq<u8>, known: Seq<(RpcMsgType, u32)>) -> Result<
    MessageView,
    MarshalError,
> {
    if sgl.len() == 0 {
        Err(MarshalError::Malformed)
    } else {
        match decode_meta_spec(header) {
            None => Err(MarshalError::Malformed),
            Some(meta) => if known.contains((meta.msg_type, meta.func_id)) {
                Ok(MessageView { meta, header: sgl[0], fields: sgl.drop_first() })
            } else {
                Err(MarshalError::UnknownFunc)
            },
        }
    }
}

/// The (message type, function id) pairs that a service handles.
pub struct FuncRegistry {
    pub entries: Vec<(RpcMsgType, u32)>,
}

impl FuncRegistry {
    pub open spec fn known(&self) -> Seq<(RpcMsgType, u32)> {
        self.entries@
    }

    /// A registry with no function.
    pub fn new() -> (r: FuncRegistry)
        ensures
            r.known() == Seq::<(RpcMsgType, u32)>::empty(),
    {
        FuncRegistry { entries: Vec::new() }
    }

    /// Whether `func_id` is handled for messages of type `msg_type`.
    pub fn knows(&self, msg_type: RpcMsgType, func_id: u32) -> (r: bool)
        ensures
            r == self.known().contains((msg_type, func_id)),
    {
        let mut i: usize = 0;
        while i < self.entries.len()
            invariant
                i <= self.entries@.len(),
                forall|j: int| 0 <= j < i ==> self.entries@[j] != (msg_type, func_id),
            decreases self.entries@.len() - i,
        {
            let (t, f) = self.entries[i];
            if t == msg_type && f == func_id {
                assert(self.entries@[i as int] == (msg_type, func_id));
                return true;
            }
            i += 1;
        }
        false
    }

    /// Registers a handler for `func_id` on messages of type `msg_type`.
    pub fn register(&mut self, msg_type: RpcMsgType, func_id: u32)
        ensures
            final(self).known().contains((msg_type, func_id)),
            forall|e: (RpcMsgType, u32)|
                #[trigger] final(self).known().contains(e) <==> old(self).known().contains(e) || e
                    == (msg_type, func_id),
    {
        if !self.knows(msg_type, func_id) {
            self.entries.push((msg_type, func_id));
            assert(final(self).known()[old(self).known().len() as int] == (msg_type, func_id));
            assert forall|e: (RpcMsgType, u32)| #[trigger] final(self).known().contains(e) <==> old(self).known().contains(e) || e
                    == (msg_type, func_id) by {
                if old(self).known().contains(e) {
                    let j = choose|j: int| 0 <= j < old(self).known().len() && old(self).known()[j] == e;
                    assert(final(self).known()[j] == e);
                }
                if final(self).known().contains(e) {
                    let j = choose|j: int| 0 <= j < final(self).known().len() && final(self).known()[j] == e;
                    if j < old(self).known().len() {
                        assert(old(self).known()[j] == e);
                    }
                }
            }
        }
    }
}

/// Rebuilds a received message from its segment list and the bytes of its
/// first segment. Fails on an empty list or unparsable header, and on a
/// (type, function) pair that the registry does not handle.
pub fn unmarshal(sgl: &SgList, header: &[u8], registry: &FuncRegistry) -> (r: Result<
    MessageTemplate,
    MarshalError,
>)
    ensures
        match unmarshal_spec(sgl.0@, header@, registry.known()) {
            Ok(v) => r is Ok && r->Ok_0@ == v,
            Err(e) => r == Err::<MessageTemplate, MarshalError>(e),
        },
{
    if sgl.0.len() == 0 {
        return Err(MarshalError::Malformed);
    }
    let meta = match decode_meta(header) {
        Ok(m) => m,
        Err(e) => return Err(e),
    };
    if !registry.knows(meta.msg_type, meta.func_id) {
        return Err(MarshalError::UnknownFunc);
    }
    let mut fields: Vec<ShmBuf> = Vec::new();
    let mut i: usize = 1;
    while i < sgl.0.len()
        invariant
            1 <= i <= sgl.0@.len(),
            fields@ == sgl.0@.subrange(1, i as int),
        decreases sgl.0@.len() - i,
    {
        fields.push(sgl.0[i]);
        i += 1;
        assert(fields@ =~= sgl.0@.subrange(1, i as int));
    }
    assert(fields@ =~= sgl.0@.drop_first());
    Ok(MessageTemplate { meta, header: sgl.0[0], fields })
}

/// A message whose type and function are registered comes back unchanged
/// from its own segment list and the encoding of its metadata.
pub proof fn lemma_marshal_round_trip(m: MessageView, known: Seq<(RpcMsgType, u32)>)
    requires
        known.contains((m.meta.msg_type, m.meta.func_id)),
    ensures
        unmarshal_spec(marshal_spec(m), encode_meta_spec(m.meta), known) == Ok::<
            MessageView,
            MarshalError,
        >(m),
{
    lemma_meta_round_trip(m.meta);
    assert(marshal_spec(m).drop_first() =~= m.fields);
}

} // verus!
