//! A schema-constrained, multi-writer DHT record engine.
//!
//! Records are addressed by a deterministic `RecordKey` and hold a fixed set
//! of independently versioned subkeys. An SMPL ("simple multi-party list")
//! schema grants the record's creator a leading range of exclusive subkeys
//! and each member an exclusive range of its own. Writes are authorized
//! against the schema, bump a strictly increasing per-subkey sequence
//! number, and fan out change notifications to registered watch
//! subscriptions. Readers either poll through inspection reports or receive
//! pushed change events, deduplicating by `(subkey, sequence)`.

pub mod codec;
pub mod events;
pub mod record;
pub mod schema;
pub mod store;
pub mod sync;
pub mod watch;
