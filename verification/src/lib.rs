//! An in-process, multi-type key-value store with per-key time-to-live
//! expiration, together with a channel-scoped publish/subscribe broadcast
//! facility.
//!
//! The store engine maps string keys to typed values (scalar string, list,
//! set, hash), each with an optional absolute expiry instant. Expiry is
//! lazy: an entry whose deadline has passed is evicted the next time the
//! key is accessed. All engine operations take the current time as an
//! explicit parameter, so the engine itself is deterministic and fully
//! verified; reading the clock is left to the caller.
//!
//! The concurrency gate wraps the engine in a single exclusive lock so
//! that concurrent callers observe a serialized, consistent view.
//!
//! The pub/sub broadcast keeps a registry of subscribers, each with a
//! bounded message buffer; a full buffer drops its oldest message and the
//! subscriber is told how many messages it missed.

pub mod assoc;
pub mod errors;
pub mod gate;
pub mod laws;
pub mod numbers;
pub mod pubsub;
pub mod store;
pub mod text;
pub mod value;
