//! Verified core of an event-indexing pipeline for on-chain market
//! registrations: log decoding, deduplication, metadata enrichment with
//! bounded retry, and idempotent create-or-merge persistence, together with
//! the pure planning and parsing helpers the surrounding binaries use.

pub mod backfill;
pub mod constants;
pub mod dedup;
pub mod enrich;
pub mod events;
pub mod hex_str;
pub mod live;
pub mod market;
pub mod provider;
pub mod store;
pub mod strings;
pub mod text;
pub mod util;
