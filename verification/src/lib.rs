//! Core of a content-addressed conversion cache.
//!
//! Clients upload a binary document over a framed byte stream; the service
//! deduplicates it by content hash, has an external converter produce a
//! derived artifact, caches the artifact, and streams it back. A recurring
//! sweep evicts entries that have not been visited within a configured
//! window.
//!
//! This crate holds the verified core: the wire codec, the content-addressed
//! cache with its metadata ledger, the document-kind policy, and the eviction
//! rule. Sockets, the cache directory, and the external converter live in the
//! unverified shell around it.

use vstd::prelude::*;

pub mod codec;
pub mod digest;
pub mod evict;
pub mod handler;
pub mod kind;
pub mod store;

verus! {

/// The error taxonomy of the service core.
#[derive(Clone, Copy, Debug, PartialEq, Eq, Structural)]
pub enum CacheError {
    /// Header/length inconsistency or a payload of fewer than two bytes.
    MalformedFrame,
    /// A derived artifact was requested but is absent.
    NotFound,
    /// The external tool ran but produced no output.
    ConversionFailed,
    /// A filesystem failure during read, write or delete.
    StorageIo,
    /// A bounded wait on a frame or on the converter elapsed.
    Timeout,
}

} // verus!
