//! Verified core of a shared-memory RPC adapter: the receive-buffer pool,
//! message framing, per-connection flow control, the adapter engine's
//! decision logic, and the relocation arithmetic of the loader that
//! hot-loads engines.

pub mod bitmap;
pub mod pool;
pub mod marshal;
pub mod conn;
pub mod schedule;
pub mod message;
pub mod control;
pub mod engine;
pub mod linker;
