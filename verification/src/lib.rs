//! A record-indexing library over an embedded sorted key-value store.
//!
//! Heterogeneous record kinds (tables, menu offers, orders) share one flat
//! keyspace.  Each record is stored under a composite key built from its
//! namespace, status tags, secondary identifiers and main identifier, so that
//! lexicographic prefix scans answer four query granularities: all records of
//! a kind, records of a kind with a given status, records of a kind with a
//! given status and secondary group, and one exact record.

use vstd::prelude::*;

pub mod codec;
pub mod element;
pub mod keys;
pub mod laws;
pub mod protocol;
pub mod records;
pub mod store;

verus! {

/// The failure modes of the store operations.
///
/// `NotFound` is reserved for operations whose precondition names a record
/// that is missing; a point lookup reports absence as `Ok(None)` instead.
/// `Lock` is never produced by the library itself: it is the kind under which
/// a caller that serializes access to a store reports a poisoned or
/// unacquirable lock, kept distinct from `Store` so that a data-integrity
/// failure is never conflated with a synchronization failure.
#[derive(Clone, Copy, Debug, PartialEq, Eq, Structural)]
pub enum DbError {
    /// A record could not be encoded.
    Serialization,
    /// A stored value could not be decoded; treated as data corruption.
    Deserialization,
    /// The underlying store reported an I/O or internal failure.
    Store,
    /// A record named by the operation is absent.
    NotFound,
    /// A caller's mutual-exclusion lock could not be acquired or was poisoned.
    Lock,
}

} // verus!
