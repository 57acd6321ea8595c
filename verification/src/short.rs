//! The four interning tables and their shared check-then-create algorithm.
//!
//! Each table is one or two byte-keyed maps: a forward map from identifier
//! bytes to the 8-byte big-endian encoding of its short id, and, where the
//! system needs to travel back, a reverse map from that encoding to the
//! identifier. All tables draw ids from one shared monotonic counter, so a
//! freshly minted id can never collide with an id already stored anywhere.
//!
//! Create means: obtain a new id, write forward, write reverse, in that
//! order, and only after allocation succeeded. A burned id (allocated, then
//! never written because of a failure) is wasted rather than ever reused.

use vstd::prelude::*;

use crate::DataError;
use crate::codec::{
    decode_statekey, encode_statekey, lemma_be_decode_encode, lemma_be_injective,
    lemma_be_roundtrip, split_statekey, statekey_bytes, u64_be_bytes, u64_from_be_bytes,
    u64_from_be_seq, u64_to_be_vec,
};
use crate::counter::Counter;
use crate::ident::{bytes_are_utf8, event_id_bytes_valid, event_id_ok, utf8_ok};
use crate::store::KvMap;

verus! {

/// A forward map is sound below a counter value: every stored value is an
/// 8-byte encoding of an id the counter has already handed out.
pub open spec fn fwd_wf(f: Map<Seq<u8>, Seq<u8>>, c: u64) -> bool {
    forall|k: Seq<u8>|
        #[trigger] f.contains_key(k) ==> f[k].len() == 8 && u64_from_be_seq(f[k]) <= c
}

/// A forward/reverse pair is an exact inverse: each forward entry has its
/// reverse entry and the other way round, and all ids stay below the counter.
pub open spec fn pair_wf(f: Map<Seq<u8>, Seq<u8>>, r: Map<Seq<u8>, Seq<u8>>, c: u64) -> bool {
    &&& fwd_wf(f, c)
    &&& forall|k: Seq<u8>| #[trigger] f.contains_key(k) ==> r.contains_key(f[k]) && r[f[k]] == k
    &&& forall|v: Seq<u8>|
        #[trigger] r.contains_key(v) ==> v.len() == 8 && u64_from_be_seq(v) <= c
            && f.contains_key(r[v]) && f[r[v]] == v
}

/// An id is stored in a forward map when some key's value decodes to it.
pub open spec fn holds_id(f: Map<Seq<u8>, Seq<u8>>, s: u64) -> bool {
    exists|k: Seq<u8>| #[trigger] f.contains_key(k) && u64_from_be_seq(f[k]) == s
}

/// No id is stored in both maps: ids are unique across tables.
pub open spec fn tables_disjoint(a: Map<Seq<u8>, Seq<u8>>, b: Map<Seq<u8>, Seq<u8>>) -> bool {
    forall|s: u64| !(#[trigger] holds_id(a, s) && holds_id(b, s))
}

proof fn lemma_disjoint_sym(a: Map<Seq<u8>, Seq<u8>>, b: Map<Seq<u8>, Seq<u8>>)
    requires
        tables_disjoint(a, b),
    ensures
        tables_disjoint(b, a),
{
    assert forall|s: u64| !(#[trigger] holds_id(b, s) && holds_id(a, s)) by {
        assert(!(holds_id(a, s) && holds_id(b, s)));
    }
}

/// A freshly minted id cannot land in a map whose ids the counter bounds, so
/// creating with it keeps two tables disjoint.
proof fn lemma_disjoint_create(a: Map<Seq<u8>, Seq<u8>>, b: Map<Seq<u8>, Seq<u8>>, c: u64, k: Seq<u8>)
    requires
        tables_disjoint(a, b),
        fwd_wf(b, c),
        c < u64::MAX,
    ensures
        tables_disjoint(a.insert(k, u64_be_bytes((c + 1) as u64)), b),
{
    let s0 = (c + 1) as u64;
    let a2 = a.insert(k, u64_be_bytes(s0));
    lemma_be_roundtrip(s0);
    assert forall|s: u64| !(#[trigger] holds_id(a2, s) && holds_id(b, s)) by {
        if holds_id(a2, s) && holds_id(b, s) {
            let k2 = choose|k2: Seq<u8>| #[trigger] a2.contains_key(k2) && u64_from_be_seq(a2[k2])
                == s;
            let kb = choose|kb: Seq<u8>| #[trigger] b.contains_key(kb) && u64_from_be_seq(b[kb])
                == s;
            if k2 == k {
                // s is the fresh id, above every id b holds
                assert(u64_from_be_seq(b[kb]) <= c);
            } else {
                assert(a.contains_key(k2) && u64_from_be_seq(a[k2]) == s);
                assert(holds_id(a, s));
            }
        }
    }
}

proof fn lemma_fwd_wf_raise(f: Map<Seq<u8>, Seq<u8>>, c: u64, c2: u64)
    requires
        fwd_wf(f, c),
        c <= c2,
    ensures
        fwd_wf(f, c2),
{
}

proof fn lemma_pair_wf_raise(f: Map<Seq<u8>, Seq<u8>>, r: Map<Seq<u8>, Seq<u8>>, c: u64, c2: u64)
    requires
        pair_wf(f, r, c),
        c <= c2,
    ensures
        pair_wf(f, r, c2),
{
}

/// Creating an entry in a forward-only table with the next counter value
/// keeps the table sound.
proof fn lemma_fwd_create_wf(f: Map<Seq<u8>, Seq<u8>>, c: u64, k: Seq<u8>)
    requires
        fwd_wf(f, c),
        c < u64::MAX,
    ensures
        fwd_wf(f.insert(k, u64_be_bytes((c + 1) as u64)), (c + 1) as u64),
{
    let s = (c + 1) as u64;
    lemma_be_roundtrip(s);
    let f2 = f.insert(k, u64_be_bytes(s));
    assert forall|k2: Seq<u8>| #[trigger] f2.contains_key(k2) implies f2[k2].len() == 8
        && u64_from_be_seq(f2[k2]) <= s by {
        if k2 != k {
            assert(f.contains_key(k2));
        }
    }
}

/// Creating an entry pair with the next counter value keeps forward and
/// reverse exact inverses: the fresh id cannot collide with any stored one.
proof fn lemma_pair_create_wf(
    f: Map<Seq<u8>, Seq<u8>>,
    r: Map<Seq<u8>, Seq<u8>>,
    c: u64,
    k: Seq<u8>,
)
    requires
        pair_wf(f, r, c),
        !f.contains_key(k),
        c < u64::MAX,
    ensures
        pair_wf(
            f.insert(k, u64_be_bytes((c + 1) as u64)),
            r.insert(u64_be_bytes((c + 1) as u64), k),
            (c + 1) as u64,
        ),
{
    let s = (c + 1) as u64;
    let v = u64_be_bytes(s);
    lemma_be_roundtrip(s);
    let f2 = f.insert(k, v);
    let r2 = r.insert(v, k);
    assert forall|k2: Seq<u8>| #[trigger] f2.contains_key(k2) implies f2[k2].len() == 8
        && u64_from_be_seq(f2[k2]) <= s && r2.contains_key(f2[k2]) && r2[f2[k2]] == k2 by {
        if k2 == k {
        } else {
            assert(f.contains_key(k2));
            assert(f[k2] != v) by {
                if f[k2] == v {
                    assert(u64_from_be_seq(f[k2]) == s);
                }
            }
        }
    }
    assert forall|v2: Seq<u8>| #[trigger] r2.contains_key(v2) implies v2.len() == 8
        && u64_from_be_seq(v2) <= s && f2.contains_key(r2[v2]) && f2[r2[v2]] == v2 by {
        if v2 == v {
        } else {
            assert(r.contains_key(v2));
            assert(r[v2] != k);
        }
    }
}

/// The interning core: four tables over six byte-keyed maps plus the shared
/// id counter. The maps are exposed so that callers and tests can inspect
/// what is persisted; the operations below are the only ones that keep the
/// bijection intact.
pub struct Data {
    pub eventid_shorteventid: KvMap,
    pub shorteventid_eventid: KvMap,
    pub statekey_shortstatekey: KvMap,
    pub shortstatekey_statekey: KvMap,
    pub roomid_shortroomid: KvMap,
    pub statehash_shortstatehash: KvMap,
    pub counter: Counter,
}

/// Everything outside the event-id table is untouched.
pub open spec fn unchanged_except_event(pre: Data, post: Data) -> bool {
    &&& post.statekey_shortstatekey@ == pre.statekey_shortstatekey@
    &&& post.shortstatekey_statekey@ == pre.shortstatekey_statekey@
    &&& post.roomid_shortroomid@ == pre.roomid_shortroomid@
    &&& post.statehash_shortstatehash@ == pre.statehash_shortstatehash@
}

/// Everything outside the state-key table is untouched.
pub open spec fn unchanged_except_statekey(pre: Data, post: Data) -> bool {
    &&& post.eventid_shorteventid@ == pre.eventid_shorteventid@
    &&& post.shorteventid_eventid@ == pre.shorteventid_eventid@
    &&& post.roomid_shortroomid@ == pre.roomid_shortroomid@
    &&& post.statehash_shortstatehash@ == pre.statehash_shortstatehash@
}

/// Everything outside the room-id table is untouched.
pub open spec fn unchanged_except_room(pre: Data, post: Data) -> bool {
    &&& post.eventid_shorteventid@ == pre.eventid_shorteventid@
    &&& post.shorteventid_eventid@ == pre.shorteventid_eventid@
    &&& post.statekey_shortstatekey@ == pre.statekey_shortstatekey@
    &&& post.shortstatekey_statekey@ == pre.shortstatekey_statekey@
    &&& post.statehash_shortstatehash@ == pre.statehash_shortstatehash@
}

/// Everything outside the state-hash table is untouched.
pub open spec fn unchanged_except_hash(pre: Data, post: Data) -> bool {
    &&& post.eventid_shorteventid@ == pre.eventid_shorteventid@
    &&& post.shorteventid_eventid@ == pre.shorteventid_eventid@
    &&& post.statekey_shortstatekey@ == pre.statekey_shortstatekey@
    &&& post.shortstatekey_statekey@ == pre.shortstatekey_statekey@
    &&& post.roomid_shortroomid@ == pre.roomid_shortroomid@
}

/// No table and no counter changed.
pub open spec fn same_state(pre: Data, post: Data) -> bool {
    &&& post.eventid_shorteventid@ == pre.eventid_shorteventid@
    &&& post.shorteventid_eventid@ == pre.shorteventid_eventid@
    &&& post.statekey_shortstatekey@ == pre.statekey_shortstatekey@
    &&& post.shortstatekey_statekey@ == pre.shortstatekey_statekey@
    &&& post.roomid_shortroomid@ == pre.roomid_shortroomid@
    &&& post.statehash_shortstatehash@ == pre.statehash_shortstatehash@
    &&& post.counter@ == pre.counter@
}

impl Data {
    /// The mapping invariant: every table with both directions is an exact
    /// bijection between identifiers and stored ids, every stored id was
    /// handed out by the counter, and so no two identifiers anywhere share
    /// an id and no future id can collide with a stored one.
    pub open spec fn wf(&self) -> bool {
        &&& pair_wf(self.eventid_shorteventid@, self.shorteventid_eventid@, self.counter@)
        &&& pair_wf(self.statekey_shortstatekey@, self.shortstatekey_statekey@, self.counter@)
        &&& fwd_wf(self.roomid_shortroomid@, self.counter@)
        &&& fwd_wf(self.statehash_shortstatehash@, self.counter@)
        &&& tables_disjoint(self.eventid_shorteventid@, self.statekey_shortstatekey@)
        &&& tables_disjoint(self.eventid_shorteventid@, self.roomid_shortroomid@)
        &&& tables_disjoint(self.eventid_shorteventid@, self.statehash_shortstatehash@)
        &&& tables_disjoint(self.statekey_shortstatekey@, self.roomid_shortroomid@)
        &&& tables_disjoint(self.statekey_shortstatekey@, self.statehash_shortstatehash@)
        &&& tables_disjoint(self.roomid_shortroomid@, self.statehash_shortstatehash@)
    }

    /// Fresh, empty tables with a counter that has minted nothing.
    pub fn new() -> (r: Data)
        ensures
            r.eventid_shorteventid@ == Map::<Seq<u8>, Seq<u8>>::empty(),
            r.shorteventid_eventid@ == Map::<Seq<u8>, Seq<u8>>::empty(),
            r.statekey_shortstatekey@ == Map::<Seq<u8>, Seq<u8>>::empty(),
            r.shortstatekey_statekey@ == Map::<Seq<u8>, Seq<u8>>::empty(),
            r.roomid_shortroomid@ == Map::<Seq<u8>, Seq<u8>>::empty(),
            r.statehash_shortstatehash@ == Map::<Seq<u8>, Seq<u8>>::empty(),
            r.counter@ == 0,
            r.wf(),
    {
        Data {
            eventid_shorteventid: KvMap::new(),
            shorteventid_eventid: KvMap::new(),
            statekey_shortstatekey: KvMap::new(),
            shortstatekey_statekey: KvMap::new(),
            roomid_shortroomid: KvMap::new(),
            statehash_shortstatehash: KvMap::new(),
            counter: Counter::new(),
        }
    }

    /// The counter's current high-water mark: how many ids have been minted
    /// by a fresh instance.
    pub fn current_count(&self) -> (r: u64)
        ensures
            r == self.counter@,
    {
        self.counter.current()
    }

    /// Short id of an event identifier: the stored one on a hit, a freshly
    /// minted one (both directions written) on a miss. A stored value that is
    /// not exactly 8 bytes is corrupt.
    pub fn get_or_create_shorteventid(&mut self, event_id: &[u8]) -> (r: Result<u64, DataError>)
        ensures
            unchanged_except_event(*old(self), *final(self)),
            old(self).wf() ==> final(self).wf(),
            ({
                let f = old(self).eventid_shorteventid@;
                let rev = old(self).shorteventid_eventid@;
                let c = old(self).counter@;
                let ff = final(self).eventid_shorteventid@;
                let rr = final(self).shorteventid_eventid@;
                let cc = final(self).counter@;
                if f.contains_key(event_id@) {
                    &&& ff == f
                    &&& rr == rev
                    &&& cc == c
                    &&& if f[event_id@].len() == 8 {
                        r == Ok::<u64, DataError>(u64_from_be_seq(f[event_id@]))
                    } else {
                        r == Err::<u64, DataError>(DataError::CorruptData)
                    }
                } else if c < u64::MAX {
                    &&& r == Ok::<u64, DataError>((c + 1) as u64)
                    &&& ff == f.insert(event_id@, u64_be_bytes((c + 1) as u64))
                    &&& rr == rev.insert(u64_be_bytes((c + 1) as u64), event_id@)
                    &&& cc == c + 1
                } else {
                    &&& r == Err::<u64, DataError>(DataError::CounterExhausted)
                    &&& ff == f
                    &&& rr == rev
                    &&& cc == c
                }
            }),
    {
        match self.eventid_shorteventid.get(event_id) {
            Some(bytes) => {
                let short = u64_from_be_bytes(bytes.as_slice())?;
                Ok(short)
            },
            None => {
                let short = self.counter.next_count()?;
                let sb = u64_to_be_vec(short);
                self.eventid_shorteventid.insert(event_id, sb.as_slice());
                self.shorteventid_eventid.insert(sb.as_slice(), event_id);
                proof {
                    if old(self).wf() {
                        lemma_pair_create_wf(
                            old(self).eventid_shorteventid@,
                            old(self).shorteventid_eventid@,
                            old(self).counter@,
                            event_id@,
                        );
                        lemma_pair_wf_raise(
                            self.statekey_shortstatekey@,
                            self.shortstatekey_statekey@,
                            old(self).counter@,
                            self.counter@,
                        );
                        lemma_fwd_wf_raise(self.roomid_shortroomid@, old(self).counter@, self.counter@);
                        lemma_fwd_wf_raise(
                            self.statehash_shortstatehash@,
                            old(self).counter@,
                            self.counter@,
                        );
                        lemma_disjoint_create(
                            old(self).eventid_shorteventid@,
                            self.statekey_shortstatekey@,
                            old(self).counter@,
                            event_id@,
                        );
                        lemma_disjoint_create(
                            old(self).eventid_shorteventid@,
                            self.roomid_shortroomid@,
                            old(self).counter@,
                            event_id@,
                        );
                        lemma_disjoint_create(
                            old(self).eventid_shorteventid@,
                            self.statehash_shortstatehash@,
                            old(self).counter@,
                            event_id@,
                        );
                    }
                }
                Ok(short)
            },
        }
    }

    /// Batched form of `get_or_create_shorteventid`: one batched lookup, then
    /// a fresh id for every miss, with both directions written. The result is
    /// positionally aligned with the input, and an identifier that occurs
    /// twice in one batch gets one single id — a later occurrence sees the
    /// entry the earlier one wrote. Writes performed before a failure stand
    /// (ids are burned, never reused), but stored entries are never changed.
    pub fn multi_get_or_create_shorteventid(&mut self, event_ids: &Vec<Vec<u8>>) -> (r: Result<
        Vec<u64>,
        DataError,
    >)
        ensures
            unchanged_except_event(*old(self), *final(self)),
            old(self).wf() ==> final(self).wf(),
            final(self).counter@ >= old(self).counter@,
            // stored forward entries are never changed, only added to
            forall|k: Seq<u8>|
                #[trigger] old(self).eventid_shorteventid@.contains_key(k)
                    ==> final(self).eventid_shorteventid@.contains_key(k)
                    && final(self).eventid_shorteventid@[k] == old(self).eventid_shorteventid@[k],
            old(self).wf() ==> forall|v: Seq<u8>|
                #[trigger] old(self).shorteventid_eventid@.contains_key(v)
                    ==> final(self).shorteventid_eventid@.contains_key(v)
                    && final(self).shorteventid_eventid@[v] == old(self).shorteventid_eventid@[v],
            match r {
                Ok(shorts) => {
                    let f0 = old(self).eventid_shorteventid@;
                    let ff = final(self).eventid_shorteventid@;
                    let rr = final(self).shorteventid_eventid@;
                    &&& shorts@.len() == event_ids@.len()
                    // positional correspondence with the input
                    &&& forall|i: int|
                        0 <= i < event_ids@.len() ==> ff.contains_key(#[trigger] event_ids@[i]@)
                            && ff[event_ids@[i]@] == u64_be_bytes(shorts@[i])
                    // duplicates collapse to one single id
                    &&& forall|i: int, j: int|
                        0 <= i < event_ids@.len() && 0 <= j < event_ids@.len() && event_ids@[i]@
                            == event_ids@[j]@ ==> shorts@[i] == shorts@[j]
                    // a pre-existing mapping is returned, never re-minted
                    &&& forall|i: int|
                        0 <= i < event_ids@.len() && f0.contains_key(#[trigger] event_ids@[i]@)
                            ==> f0[event_ids@[i]@].len() == 8 && shorts@[i] == u64_from_be_seq(
                            f0[event_ids@[i]@],
                        )
                    // a fresh identifier gets a freshly minted id
                    &&& forall|i: int|
                        0 <= i < event_ids@.len() && !f0.contains_key(#[trigger] event_ids@[i]@)
                            ==> shorts@[i] > old(self).counter@
                    // no entry beyond the inputs is created
                    &&& forall|k: Seq<u8>|
                        #[trigger] ff.contains_key(k) ==> f0.contains_key(k) || exists|i: int|
                            0 <= i < event_ids@.len() && event_ids@[i]@ == k
                    // the reverse direction points back, position by position
                    &&& old(self).wf() ==> forall|i: int|
                        0 <= i < event_ids@.len() ==> rr.contains_key(
                            u64_be_bytes(#[trigger] shorts@[i]),
                        ) && rr[u64_be_bytes(shorts@[i])] == event_ids@[i]@
                },
                Err(e) => {
                    let f0 = old(self).eventid_shorteventid@;
                    &&& e == DataError::CorruptData ==> exists|i: int|
                        0 <= i < event_ids@.len() && f0.contains_key(#[trigger] event_ids@[i]@)
                            && f0[event_ids@[i]@].len() != 8
                    &&& e == DataError::CounterExhausted ==> final(self).counter@ == u64::MAX
                },
            },
            // success is owed while stored values are sound and ids suffice
            (old(self).counter@ + event_ids@.len() <= u64::MAX && (forall|i: int|
                0 <= i < event_ids@.len() && old(self).eventid_shorteventid@.contains_key(
                    #[trigger] event_ids@[i]@,
                ) ==> old(self).eventid_shorteventid@[event_ids@[i]@].len() == 8)) ==> r is Ok,
    {
        let ghost f0 = self.eventid_shorteventid@;
        let ghost rev0 = self.shorteventid_eventid@;
        let ghost c0 = self.counter@;
        let lookups = self.eventid_shorteventid.multi_get(event_ids);
        let mut shorts: Vec<u64> = Vec::new();
        let mut i: usize = 0;
        while i < event_ids.len()
            invariant
                0 <= i <= event_ids@.len(),
                shorts@.len() == i,
                f0 == old(self).eventid_shorteventid@,
                rev0 == old(self).shorteventid_eventid@,
                c0 == old(self).counter@,
                lookups@.len() == event_ids@.len(),
                forall|j: int|
                    0 <= j < event_ids@.len() ==> match #[trigger] lookups@[j] {
                        Some(v) => f0.contains_key(event_ids@[j]@) && v@ == f0[event_ids@[j]@],
                        None => !f0.contains_key(event_ids@[j]@),
                    },
                unchanged_except_event(*old(self), *self),
                c0 <= self.counter@ <= c0 + i,
                forall|k: Seq<u8>|
                    #[trigger] f0.contains_key(k) ==> self.eventid_shorteventid@.contains_key(k)
                        && self.eventid_shorteventid@[k] == f0[k],
                old(self).wf() ==> forall|v: Seq<u8>|
                    #[trigger] rev0.contains_key(v) ==> self.shorteventid_eventid@.contains_key(v)
                        && self.shorteventid_eventid@[v] == rev0[v],
                forall|k: Seq<u8>|
                    self.eventid_shorteventid@.contains_key(k) ==> f0.contains_key(k) || exists|
                        j: int,
                    | 0 <= j < i && event_ids@[j]@ == k,
                forall|k: Seq<u8>|
                    self.eventid_shorteventid@.contains_key(k) && !f0.contains_key(k)
                        ==> self.eventid_shorteventid@[k].len() == 8
                        && u64_from_be_seq(self.eventid_shorteventid@[k]) > c0,
                forall|j: int|
                    0 <= j < i && !f0.contains_key(#[trigger] event_ids@[j]@) ==> shorts@[j] > c0,
                forall|j: int|
                    0 <= j < i ==> self.eventid_shorteventid@.contains_key(
                        #[trigger] event_ids@[j]@,
                    ) && self.eventid_shorteventid@[event_ids@[j]@] == u64_be_bytes(shorts@[j]),
                forall|j: int|
                    0 <= j < i && f0.contains_key(#[trigger] event_ids@[j]@) ==> f0[event_ids@[j]@].len()
                        == 8 && shorts@[j] == u64_from_be_seq(f0[event_ids@[j]@]),
                old(self).wf() ==> self.wf(),
                old(self).wf() ==> forall|j: int|
                    0 <= j < i ==> self.shorteventid_eventid@.contains_key(
                        u64_be_bytes(#[trigger] shorts@[j]),
                    ) && self.shorteventid_eventid@[u64_be_bytes(shorts@[j])] == event_ids@[j]@,
            decreases event_ids@.len() - i,
        {
            let event_id: &Vec<u8> = &event_ids[i];
            match &lookups[i] {
                Some(bytes) => {
                    let short = u64_from_be_bytes(bytes.as_slice())?;
                    proof {
                        lemma_be_decode_encode(bytes@);
                        if old(self).wf() {
                            // the reverse entry of a stored id is already there
                            assert(rev0.contains_key(f0[event_ids@[i as int]@]));
                        }
                    }
                    shorts.push(short);
                },
                None => {
                    match self.eventid_shorteventid.get(event_id.as_slice()) {
                        Some(bytes) => {
                            // created earlier in this batch: reuse, do not re-mint
                            let short = u64_from_be_bytes(bytes.as_slice())?;
                            proof {
                                lemma_be_decode_encode(bytes@);
                                if old(self).wf() {
                                    assert(self.shorteventid_eventid@.contains_key(
                                        self.eventid_shorteventid@[event_ids@[i as int]@],
                                    ));
                                }
                            }
                            shorts.push(short);
                        },
                        None => {
                            let ghost pre_f = self.eventid_shorteventid@;
                            let ghost pre_r = self.shorteventid_eventid@;
                            let ghost pre_c = self.counter@;
                            let short = self.counter.next_count()?;
                            let sb = u64_to_be_vec(short);
                            self.eventid_shorteventid.insert(event_id.as_slice(), sb.as_slice());
                            self.shorteventid_eventid.insert(sb.as_slice(), event_id.as_slice());
                            proof {
                                assert(u64_be_bytes(short).len() == 8);
                                lemma_be_roundtrip(short);
                                if old(self).wf() {
                                    lemma_pair_create_wf(
                                        pre_f,
                                        pre_r,
                                        pre_c,
                                        event_ids@[i as int]@,
                                    );
                                    lemma_pair_wf_raise(
                                        self.statekey_shortstatekey@,
                                        self.shortstatekey_statekey@,
                                        pre_c,
                                        self.counter@,
                                    );
                                    lemma_fwd_wf_raise(
                                        self.roomid_shortroomid@,
                                        pre_c,
                                        self.counter@,
                                    );
                                    lemma_fwd_wf_raise(
                                        self.statehash_shortstatehash@,
                                        pre_c,
                                        self.counter@,
                                    );
                                    lemma_disjoint_create(
                                        pre_f,
                                        self.statekey_shortstatekey@,
                                        pre_c,
                                        event_ids@[i as int]@,
                                    );
                                    lemma_disjoint_create(
                                        pre_f,
                                        self.roomid_shortroomid@,
                                        pre_c,
                                        event_ids@[i as int]@,
                                    );
                                    lemma_disjoint_create(
                                        pre_f,
                                        self.statehash_shortstatehash@,
                                        pre_c,
                                        event_ids@[i as int]@,
                                    );
                                    // the fresh id's encoding collides with no
                                    // reverse key already present
                                    assert forall|v: Seq<u8>| pre_r.contains_key(v) implies v
                                        != u64_be_bytes(short) by {
                                        if v == u64_be_bytes(short) {
                                            lemma_be_roundtrip(short);
                                        }
                                    }
                                }
                            }
                            shorts.push(short);
                        },
                    }
                },
            }
            i += 1;
        }
        proof {
            assert forall|i: int, j: int|
                0 <= i < event_ids@.len() && 0 <= j < event_ids@.len() && event_ids@[i]@
                    == event_ids@[j]@ implies shorts@[i] == shorts@[j] by {
                lemma_be_injective(shorts@[i], shorts@[j]);
            }
        }
        Ok(shorts)
    }

    /// The long event identifier a short id stands for: the reverse entry
    /// must exist for an id that was handed out, and its bytes must be
    /// structurally valid event-identifier text; anything else is corrupt.
    pub fn get_eventid_from_short(&self, shorteventid: u64) -> (r: Result<Vec<u8>, DataError>)
        ensures
            ({
                let rev = self.shorteventid_eventid@;
                let k = u64_be_bytes(shorteventid);
                if rev.contains_key(k) && event_id_ok(rev[k]) {
                    r matches Ok(v) && v@ == rev[k]
                } else {
                    r == Err::<Vec<u8>, DataError>(DataError::CorruptData)
                }
            }),
    {
        let key = u64_to_be_vec(shorteventid);
        match self.shorteventid_eventid.get(key.as_slice()) {
            Some(bytes) => {
                if event_id_bytes_valid(bytes.as_slice()) {
                    Ok(bytes)
                } else {
                    Err(DataError::CorruptData)
                }
            },
            None => Err(DataError::CorruptData),
        }
    }

    /// Pure read of a composite state key's short id; absence is an ordinary
    /// outcome, not an error.
    pub fn get_shortstatekey(&self, event_type: &[u8], state_key: &[u8]) -> (r: Result<
        Option<u64>,
        DataError,
    >)
        ensures
            ({
                let f = self.statekey_shortstatekey@;
                let key = statekey_bytes(event_type@, state_key@);
                if f.contains_key(key) {
                    if f[key].len() == 8 {
                        r == Ok::<Option<u64>, DataError>(Some(u64_from_be_seq(f[key])))
                    } else {
                        r == Err::<Option<u64>, DataError>(DataError::CorruptData)
                    }
                } else {
                    r == Ok::<Option<u64>, DataError>(None)
                }
            }),
    {
        let key = encode_statekey(event_type, state_key);
        match self.statekey_shortstatekey.get(key.as_slice()) {
            Some(bytes) => {
                let short = u64_from_be_bytes(bytes.as_slice())?;
                Ok(Some(short))
            },
            None => Ok(None),
        }
    }

    /// Short id of a composite (event-type, state-key) pair, interned under
    /// the encoding `<event-type> 0xFF <state-key>`.
    pub fn get_or_create_shortstatekey(&mut self, event_type: &[u8], state_key: &[u8]) -> (r:
        Result<u64, DataError>)
        ensures
            unchanged_except_statekey(*old(self), *final(self)),
            old(self).wf() ==> final(self).wf(),
            ({
                let key = statekey_bytes(event_type@, state_key@);
                let f = old(self).statekey_shortstatekey@;
                let rev = old(self).shortstatekey_statekey@;
                let c = old(self).counter@;
                let ff = final(self).statekey_shortstatekey@;
                let rr = final(self).shortstatekey_statekey@;
                let cc = final(self).counter@;
                if f.contains_key(key) {
                    &&& ff == f
                    &&& rr == rev
                    &&& cc == c
                    &&& if f[key].len() == 8 {
                        r == Ok::<u64, DataError>(u64_from_be_seq(f[key]))
                    } else {
                        r == Err::<u64, DataError>(DataError::CorruptData)
                    }
                } else if c < u64::MAX {
                    &&& r == Ok::<u64, DataError>((c + 1) as u64)
                    &&& ff == f.insert(key, u64_be_bytes((c + 1) as u64))
                    &&& rr == rev.insert(u64_be_bytes((c + 1) as u64), key)
                    &&& cc == c + 1
                } else {
                    &&& r == Err::<u64, DataError>(DataError::CounterExhausted)
                    &&& ff == f
                    &&& rr == rev
                    &&& cc == c
                }
            }),
    {
        let key = encode_statekey(event_type, state_key);
        match self.statekey_shortstatekey.get(key.as_slice()) {
            Some(bytes) => {
                let short = u64_from_be_bytes(bytes.as_slice())?;
                Ok(short)
            },
            None => {
                let short = self.counter.next_count()?;
                let sb = u64_to_be_vec(short);
                self.statekey_shortstatekey.insert(key.as_slice(), sb.as_slice());
                self.shortstatekey_statekey.insert(sb.as_slice(), key.as_slice());
                proof {
                    if old(self).wf() {
                        lemma_pair_create_wf(
                            old(self).statekey_shortstatekey@,
                            old(self).shortstatekey_statekey@,
                            old(self).counter@,
                            key@,
                        );
                        lemma_pair_wf_raise(
                            self.eventid_shorteventid@,
                            self.shorteventid_eventid@,
                            old(self).counter@,
                            self.counter@,
                        );
                        lemma_fwd_wf_raise(self.roomid_shortroomid@, old(self).counter@, self.counter@);
                        lemma_fwd_wf_raise(
                            self.statehash_shortstatehash@,
                            old(self).counter@,
                            self.counter@,
                        );
                        lemma_disjoint_sym(
                            self.eventid_shorteventid@,
                            old(self).statekey_shortstatekey@,
                        );
                        lemma_disjoint_create(
                            old(self).statekey_shortstatekey@,
                            self.eventid_shorteventid@,
                            old(self).counter@,
                            key@,
                        );
                        lemma_disjoint_sym(
                            self.statekey_shortstatekey@,
                            self.eventid_shorteventid@,
                        );
                        lemma_disjoint_create(
                            old(self).statekey_shortstatekey@,
                            self.roomid_shortroomid@,
                            old(self).counter@,
                            key@,
                        );
                        lemma_disjoint_create(
                            old(self).statekey_shortstatekey@,
                            self.statehash_shortstatehash@,
                            old(self).counter@,
                            key@,
                        );
                    }
                }
                Ok(short)
            },
        }
    }

    /// The composite pair a short state-key id stands for, split at the first
    /// delimiter byte. A missing reverse entry, a missing delimiter, or a
    /// segment that is not text is corrupt.
    pub fn get_statekey_from_short(&self, shortstatekey: u64) -> (r: Result<
        (Vec<u8>, Vec<u8>),
        DataError,
    >)
        ensures
            ({
                let rev = self.shortstatekey_statekey@;
                let k = u64_be_bytes(shortstatekey);
                if rev.contains_key(k) {
                    match split_statekey(rev[k]) {
                        Some(parts) => {
                            if utf8_ok(parts.0) && utf8_ok(parts.1) {
                                r matches Ok(p) && p.0@ == parts.0 && p.1@ == parts.1
                            } else {
                                r == Err::<(Vec<u8>, Vec<u8>), DataError>(DataError::CorruptData)
                            }
                        },
                        None => r == Err::<(Vec<u8>, Vec<u8>), DataError>(DataError::CorruptData),
                    }
                } else {
                    r == Err::<(Vec<u8>, Vec<u8>), DataError>(DataError::CorruptData)
                }
            }),
    {
        let key = u64_to_be_vec(shortstatekey);
        match self.shortstatekey_statekey.get(key.as_slice()) {
            Some(bytes) => {
                let (event_type, state_key) = decode_statekey(bytes.as_slice())?;
                if !bytes_are_utf8(event_type.as_slice()) {
                    return Err(DataError::CorruptData);
                }
                if !bytes_are_utf8(state_key.as_slice()) {
                    return Err(DataError::CorruptData);
                }
                Ok((event_type, state_key))
            },
            None => Err(DataError::CorruptData),
        }
    }

    /// Short id of a room-state snapshot hash, plus whether this exact
    /// snapshot was already known (so callers can skip re-resolving state).
    /// Forward direction only.
    pub fn get_or_create_shortstatehash(&mut self, state_hash: &[u8]) -> (r: Result<
        (u64, bool),
        DataError,
    >)
        ensures
            unchanged_except_hash(*old(self), *final(self)),
            old(self).wf() ==> final(self).wf(),
            ({
                let f = old(self).statehash_shortstatehash@;
                let c = old(self).counter@;
                let ff = final(self).statehash_shortstatehash@;
                let cc = final(self).counter@;
                if f.contains_key(state_hash@) {
                    &&& ff == f
                    &&& cc == c
                    &&& if f[state_hash@].len() == 8 {
                        r == Ok::<(u64, bool), DataError>((u64_from_be_seq(f[state_hash@]), true))
                    } else {
                        r == Err::<(u64, bool), DataError>(DataError::CorruptData)
                    }
                } else if c < u64::MAX {
                    &&& r == Ok::<(u64, bool), DataError>(((c + 1) as u64, false))
                    &&& ff == f.insert(state_hash@, u64_be_bytes((c + 1) as u64))
                    &&& cc == c + 1
                } else {
                    &&& r == Err::<(u64, bool), DataError>(DataError::CounterExhausted)
                    &&& ff == f
                    &&& cc == c
                }
            }),
    {
        match self.statehash_shortstatehash.get(state_hash) {
            Some(bytes) => {
                let short = u64_from_be_bytes(bytes.as_slice())?;
                Ok((short, true))
            },
            None => {
                let short = self.counter.next_count()?;
                let sb = u64_to_be_vec(short);
                self.statehash_shortstatehash.insert(state_hash, sb.as_slice());
                proof {
                    if old(self).wf() {
                        lemma_fwd_create_wf(
                            old(self).statehash_shortstatehash@,
                            old(self).counter@,
                            state_hash@,
                        );
                        lemma_pair_wf_raise(
                            self.eventid_shorteventid@,
                            self.shorteventid_eventid@,
                            old(self).counter@,
                            self.counter@,
                        );
                        lemma_pair_wf_raise(
                            self.statekey_shortstatekey@,
                            self.shortstatekey_statekey@,
                            old(self).counter@,
                            self.counter@,
                        );
                        lemma_fwd_wf_raise(self.roomid_shortroomid@, old(self).counter@, self.counter@);
                        lemma_disjoint_sym(
                            self.eventid_shorteventid@,
                            old(self).statehash_shortstatehash@,
                        );
                        lemma_disjoint_create(
                            old(self).statehash_shortstatehash@,
                            self.eventid_shorteventid@,
                            old(self).counter@,
                            state_hash@,
                        );
                        lemma_disjoint_sym(
                            self.statehash_shortstatehash@,
                            self.eventid_shorteventid@,
                        );
                        lemma_disjoint_sym(
                            self.statekey_shortstatekey@,
                            old(self).statehash_shortstatehash@,
                        );
                        lemma_disjoint_create(
                            old(self).statehash_shortstatehash@,
                            self.statekey_shortstatekey@,
                            old(self).counter@,
                            state_hash@,
                        );
                        lemma_disjoint_sym(
                            self.statehash_shortstatehash@,
                            self.statekey_shortstatekey@,
                        );
                        lemma_disjoint_sym(
                            self.roomid_shortroomid@,
                            old(self).statehash_shortstatehash@,
                        );
                        lemma_disjoint_create(
                            old(self).statehash_shortstatehash@,
                            self.roomid_shortroomid@,
                            old(self).counter@,
                            state_hash@,
                        );
                        lemma_disjoint_sym(
                            self.statehash_shortstatehash@,
                            self.roomid_shortroomid@,
                        );
                    }
                }
                Ok((short, false))
            },
        }
    }

    /// Pure read of a room identifier's short id; absence is an ordinary
    /// outcome, not an error.
    pub fn get_shortroomid(&self, room_id: &[u8]) -> (r: Result<Option<u64>, DataError>)
        ensures
            ({
                let f = self.roomid_shortroomid@;
                if f.contains_key(room_id@) {
                    if f[room_id@].len() == 8 {
                        r == Ok::<Option<u64>, DataError>(Some(u64_from_be_seq(f[room_id@])))
                    } else {
                        r == Err::<Option<u64>, DataError>(DataError::CorruptData)
                    }
                } else {
                    r == Ok::<Option<u64>, DataError>(None)
                }
            }),
    {
        match self.roomid_shortroomid.get(room_id) {
            Some(bytes) => {
                let short = u64_from_be_bytes(bytes.as_slice())?;
                Ok(Some(short))
            },
            None => Ok(None),
        }
    }

    /// Short id of a room identifier. Forward direction only: this layer
    /// never needs a room's long identifier back.
    pub fn get_or_create_shortroomid(&mut self, room_id: &[u8]) -> (r: Result<u64, DataError>)
        ensures
            unchanged_except_room(*old(self), *final(self)),
            old(self).wf() ==> final(self).wf(),
            ({
                let f = old(self).roomid_shortroomid@;
                let c = old(self).counter@;
                let ff = final(self).roomid_shortroomid@;
                let cc = final(self).counter@;
                if f.contains_key(room_id@) {
                    &&& ff == f
                    &&& cc == c
                    &&& if f[room_id@].len() == 8 {
                        r == Ok::<u64, DataError>(u64_from_be_seq(f[room_id@]))
                    } else {
                        r == Err::<u64, DataError>(DataError::CorruptData)
                    }
                } else if c < u64::MAX {
                    &&& r == Ok::<u64, DataError>((c + 1) as u64)
                    &&& ff == f.insert(room_id@, u64_be_bytes((c + 1) as u64))
                    &&& cc == c + 1
                } else {
                    &&& r == Err::<u64, DataError>(DataError::CounterExhausted)
                    &&& ff == f
                    &&& cc == c
                }
            }),
    {
        match self.roomid_shortroomid.get(room_id) {
            Some(bytes) => {
                let short = u64_from_be_bytes(bytes.as_slice())?;
                Ok(short)
            },
            None => {
                let short = self.counter.next_count()?;
                let sb = u64_to_be_vec(short);
                self.roomid_shortroomid.insert(room_id, sb.as_slice());
                proof {
                    if old(self).wf() {
                        lemma_fwd_create_wf(
                            old(self).roomid_shortroomid@,
                            old(self).counter@,
                            room_id@,
                        );
                        lemma_pair_wf_raise(
                            self.eventid_shorteventid@,
                            self.shorteventid_eventid@,
                            old(self).counter@,
                            self.counter@,
                        );
                        lemma_pair_wf_raise(
                            self.statekey_shortstatekey@,
                            self.shortstatekey_statekey@,
                            old(self).counter@,
                            self.counter@,
                        );
                        lemma_fwd_wf_raise(
                            self.statehash_shortstatehash@,
                            old(self).counter@,
                            self.counter@,
                        );
                        lemma_disjoint_sym(
                            self.eventid_shorteventid@,
                            old(self).roomid_shortroomid@,
                        );
                        lemma_disjoint_create(
                            old(self).roomid_shortroomid@,
                            self.eventid_shorteventid@,
                            old(self).counter@,
                            room_id@,
                        );
                        lemma_disjoint_sym(self.roomid_shortroomid@, self.eventid_shorteventid@);
                        lemma_disjoint_sym(
                            self.statekey_shortstatekey@,
                            old(self).roomid_shortroomid@,
                        );
                        lemma_disjoint_create(
                            old(self).roomid_shortroomid@,
                            self.statekey_shortstatekey@,
                            old(self).counter@,
                            room_id@,
                        );
                        lemma_disjoint_sym(self.roomid_shortroomid@, self.statekey_shortstatekey@);
                        lemma_disjoint_create(
                            old(self).roomid_shortroomid@,
                            self.statehash_shortstatehash@,
                            old(self).counter@,
                            room_id@,
                        );
                    }
                }
                Ok(short)
            },
        }
    }
}

} // verus!
