//! The control-plane vocabulary: commands from the application-facing engine,
//! their completions, and the transport's settings.
use vstd::prelude::*;

verus! {

/// Errors of the resource tables and of control-plane commands.
#[derive(Clone, Copy, Debug, PartialEq, Eq, Structural)]
pub enum ControlPathError {
    /// A handle names nothing in the table it was looked up in.
    NotFound,
    /// The transport failed with this error code.
    Transport(i32),
    /// The command completes later; nothing is sent now.
    InProgress,
    /// The command completes without a completion.
    NoResponse,
}

/// Which transport the service runs over.
#[derive(Clone, Copy, Debug, PartialEq, Eq, Structural)]
pub enum TransportType {
    Rdma,
    Tcp,
}

/// Descriptor of a registered memory region, as the peer needs it to map it.
#[derive(Clone, Copy, Debug, PartialEq, Eq, Structural)]
pub struct MrDescriptor {
    pub handle: u32,
    pub rkey: u32,
    pub vaddr: u64,
    pub map_len: u64,
    pub file_off: u64,
    pub pd: u64,
}

/// A control request to the adapter.
#[derive(Debug)]
pub enum Command {
    SetTransport(TransportType),
    AllocShm(u64),
    Connect(String),
    Bind(String),
    /// Application-side addresses at which the given regions are mapped.
    NewMappedAddrs(Vec<(u32, u64)>),
}

/// What a successful command returns.
#[derive(Debug)]
pub enum CompletionKind {
    /// The connection, its receive regions and their file descriptors.
    ConnectInternal(u32, Vec<MrDescriptor>, Vec<i32>),
    /// An accepted connection, its receive regions and their descriptors.
    NewConnectionInternal(u32, Vec<MrDescriptor>, Vec<i32>),
    AllocShmInternal(MrDescriptor, i32),
    Bind(u32),
    /// For each mapped region: backend address, application address, length.
    NewMappedAddrsInternal(Vec<(usize, usize, usize)>),
}

/// The reply to a command.
#[derive(Debug)]
pub struct Completion(pub Result<CompletionKind, ControlPathError>);

/// Settings of the transport.
#[derive(Clone, Copy, Debug, Default)]
pub struct Setting {
    /// The NIC to use.
    pub nic_index: usize,
}

} // verus!
