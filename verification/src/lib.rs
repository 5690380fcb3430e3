//! The driver of one node of a replicated key-value store built on a Raft engine.
//!
//! The driver owns the address table, the peer registry and the registry of pending
//! client requests. It turns each inbound event and each ready batch of the engine into
//! an ordered list of steps. The caller performs the steps in that order: it calls the
//! engine, writes to the log store, sends on the network and invokes callbacks. Every
//! decision is taken here, and each is stated against the model in [`model`].

pub mod address;
pub mod change;
pub mod clock;
pub mod codec;
pub mod driver;
pub mod laws;
pub mod model;
pub mod registry;
pub mod step;

pub use address::AddressTable;
pub use change::{ConfChange, ConfChangeType};
pub use clock::{TickTimer, DEFAULT_TICK_INTERVAL};
pub use driver::Driver;
pub use registry::{CallbackRegistry, PeerRegistry};
pub use step::{CommittedEntry, EntryKind, Fault, Msg, Outbound, Outcome, ReadyBatch, Step};
