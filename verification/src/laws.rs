//! The guarantees of the interning layer, stated once over the tables and
//! proved from the mapping invariant. Together with the exact contracts of
//! the operations they pin down the behaviour of every call sequence.

use vstd::prelude::*;

use crate::codec::{
    lemma_be_decode_encode, lemma_be_roundtrip, lemma_statekey_roundtrip, split_statekey,
    statekey_bytes, u64_be_bytes, u64_from_be_seq, STATEKEY_DELIM,
};
use crate::short::{holds_id, Data};

verus! {

/// Bijection: whatever short id `s` the forward event table holds for an
/// identifier `x`, the reverse table takes the stored encoding of `s` back to
/// exactly `x`. Because every operation only ever adds entries for fresh
/// identifiers and freshly minted ids (see their contracts), interleaving
/// `get_or_create` calls on other identifiers leaves both entries untouched,
/// so this keeps holding afterwards.
pub proof fn lemma_event_bijection(d: Data, x: Seq<u8>, s: u64)
    requires
        d.wf(),
        d.eventid_shorteventid@.contains_key(x),
        d.eventid_shorteventid@[x] == u64_be_bytes(s),
    ensures
        d.shorteventid_eventid@.contains_key(u64_be_bytes(s)),
        d.shorteventid_eventid@[u64_be_bytes(s)] == x,
{
}

/// Idempotence: once a call has stored the encoding of `s` under `x`, that
/// entry is sound — exactly 8 bytes decoding back to `s`. By the contract of
/// `get_or_create_shorteventid`, a second call with `x` therefore takes the
/// hit branch: it returns the same `s` and changes no table and no counter,
/// so no new id is minted.
pub proof fn lemma_event_idempotent(d: Data, x: Seq<u8>, s: u64)
    requires
        d.eventid_shorteventid@.contains_key(x),
        d.eventid_shorteventid@[x] == u64_be_bytes(s),
    ensures
        d.eventid_shorteventid@[x].len() == 8,
        u64_from_be_seq(d.eventid_shorteventid@[x]) == s,
{
    lemma_be_roundtrip(s);
}

/// Injectivity: two distinct identifiers never decode to the same short id.
/// This is the durable core of the concurrency requirement — at most one
/// short id per identifier — once callers serialize their check-then-create
/// sequences; the serialization itself (a lock around the compound sequence)
/// is the caller's, not this layer's.
pub proof fn lemma_event_injective(d: Data, x1: Seq<u8>, x2: Seq<u8>)
    requires
        d.wf(),
        d.eventid_shorteventid@.contains_key(x1),
        d.eventid_shorteventid@.contains_key(x2),
        x1 != x2,
    ensures
        u64_from_be_seq(d.eventid_shorteventid@[x1]) != u64_from_be_seq(
            d.eventid_shorteventid@[x2],
        ),
{
    let f = d.eventid_shorteventid@;
    let r = d.shorteventid_eventid@;
    if u64_from_be_seq(f[x1]) == u64_from_be_seq(f[x2]) {
        lemma_be_decode_encode(f[x1]);
        lemma_be_decode_encode(f[x2]);
        assert(f[x1] == f[x2]);
        assert(r[f[x1]] == x1 && r[f[x2]] == x2);
    }
}

/// Ids are unique across tables: all four tables draw from the one counter,
/// so a short id stored for an event identifier is never also stored for a
/// room identifier. The mapping invariant states the same for every other
/// pair of tables.
pub proof fn lemma_ids_unique_across_tables(d: Data, x: Seq<u8>, y: Seq<u8>)
    requires
        d.wf(),
        d.eventid_shorteventid@.contains_key(x),
        d.roomid_shortroomid@.contains_key(y),
    ensures
        u64_from_be_seq(d.eventid_shorteventid@[x]) != u64_from_be_seq(
            d.roomid_shortroomid@[y],
        ),
{
    let s = u64_from_be_seq(d.eventid_shorteventid@[x]);
    if u64_from_be_seq(d.roomid_shortroomid@[y]) == s {
        assert(holds_id(d.eventid_shorteventid@, s));
        assert(holds_id(d.roomid_shortroomid@, s));
    }
}

/// Composite round trip: once the composite key of an event type and state
/// key is interned under `s`, the reverse entry splits back into exactly that
/// event type and state key — given that the event-type bytes contain no
/// delimiter byte, which holds for all UTF-8 text.
pub proof fn lemma_statekey_table_roundtrip(
    d: Data,
    event_type: Seq<u8>,
    state_key: Seq<u8>,
    s: u64,
)
    requires
        d.wf(),
        !event_type.contains(STATEKEY_DELIM),
        d.statekey_shortstatekey@.contains_key(statekey_bytes(event_type, state_key)),
        d.statekey_shortstatekey@[statekey_bytes(event_type, state_key)] == u64_be_bytes(s),
    ensures
        d.shortstatekey_statekey@.contains_key(u64_be_bytes(s)),
        d.shortstatekey_statekey@[u64_be_bytes(s)] == statekey_bytes(event_type, state_key),
        split_statekey(d.shortstatekey_statekey@[u64_be_bytes(s)]) == Some(
            (event_type, state_key),
        ),
{
    lemma_statekey_roundtrip(event_type, state_key);
}

/// Existence flag: interning a fresh state hash stores a sound entry — 8
/// bytes decoding back to the minted id. By the contract of
/// `get_or_create_shortstatehash`, whose flag is true exactly on a hit, the
/// first call with a fresh hash reports `false` and a repeat call takes the
/// hit branch and returns the same id with `true`.
pub proof fn lemma_statehash_flag(d: Data, h: Seq<u8>, s: u64)
    requires
        d.statehash_shortstatehash@.contains_key(h),
        d.statehash_shortstatehash@[h] == u64_be_bytes(s),
    ensures
        d.statehash_shortstatehash@[h].len() == 8,
        u64_from_be_seq(d.statehash_shortstatehash@[h]) == s,
{
    lemma_be_roundtrip(s);
}

} // verus!
