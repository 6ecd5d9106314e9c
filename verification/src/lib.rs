//! Post-execution event streaming for a ledger node.
//!
//! After a transaction commits, this library turns its effects into an
//! ordered list of typed, topic-tagged event payloads, ready to be handed
//! to a publisher:
//!
//! * [`topic`] names the closed set of event kinds, round-trips each kind
//!   through its string form, and derives epoch-scoped topic identifiers.
//! * [`data`] models the object-change taxonomy, the event bodies, and the
//!   payload envelope.
//! * [`store`] is the read-only object store the extraction engine resolves
//!   object bytes through.
//! * [`extract`] classifies every state transition of a committed
//!   transaction and emits the event list in its contractual order.
//! * [`codec`] encodes each envelope to a canonical byte sequence and
//!   decodes it back, an exact round trip.

pub mod codec;
pub mod data;
pub mod extract;
pub mod store;
pub mod topic;
