//! Identifier interning for an append-only event graph.
//!
//! Every long-form identifier the system encounters (event id, room id,
//! composite state key, state-snapshot hash) is assigned a compact 64-bit
//! surrogate, and the library maintains a durable bijection between the two
//! forms on top of a byte-keyed key-value store and a monotonic counter.
//!
//! `short` holds the four interning tables and their shared check-then-create
//! algorithm; `codec` the id and composite-key encodings; `store` the
//! byte-keyed maps; `counter` the id source; `ident` the validity of stored
//! identifier text; `laws` the properties the layer guarantees; `well_known`
//! and `dns` the decisions behind the discovery endpoints and resolver setup.

use vstd::prelude::*;

pub mod codec;
pub mod counter;
pub mod dns;
pub mod ident;
pub mod laws;
pub mod short;
pub mod store;
pub mod well_known;

verus! {

/// The one failure class this layer raises of its own: persisted bytes that
/// violate a structural invariant. Counter exhaustion aborts a create before
/// any write happens.
#[derive(Clone, Copy, PartialEq, Eq, Structural, Debug)]
pub enum DataError {
    /// Stored bytes violate an expected structural invariant.
    CorruptData,
    /// The id counter cannot mint another value.
    CounterExhausted,
}

} // verus!
