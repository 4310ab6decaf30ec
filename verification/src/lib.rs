//! Core of a personal feed aggregator: seed and article bookkeeping with a
//! deduplicating ingest protocol, keyset-paginated queries, unread-count
//! events, watch-keyword matching, settings parsing, format adapters and the
//! scheduler's due logic. Every operation carries a verified contract; the
//! host supplies storage, HTTP and timers around this crate.

pub mod adapter;
pub mod error;
pub mod events;
pub mod query;
pub mod seed;
pub mod settings;
pub mod store;
pub mod t66y;
pub mod text;
