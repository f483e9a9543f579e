//! Status synchronization engine for a Moonraker-style control server.
//!
//! The crate keeps an in-memory snapshot of a multi-subsystem device that is
//! fed by merge-patch status notifications over a reconnecting socket.  The
//! verified core is pure state logic: topic parsing and rendering
//! ([`topic`]), merge-patch application over JSON-shaped values ([`value`]),
//! the per-subsystem status cache ([`cache`]), call/response correlation
//! over one multiplexed socket ([`correlator`]), the wire envelope ([`rpc`])
//! and the event-driven engine that ties them together ([`session`]).
//!
//! The surrounding process owns the socket, the channels and the timers: it
//! decodes each inbound text frame into a [`value::JsonValue`], hands it to
//! the engine as an event, and carries out the actions the engine returns.

pub mod cache;
pub mod correlator;
pub mod rpc;
pub mod session;
pub mod topic;
pub mod value;
