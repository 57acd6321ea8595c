//! Byte-level codecs of the interning layer: 8-byte big-endian short ids,
//! and the composite state-key encoding `<event-type> 0xFF <state-key>`.

use vstd::prelude::*;

verus! {

/// Delimiter between the event-type and state-key segments of a composite
/// state key. Event-type text is assumed never to contain this byte (it is
/// not a valid UTF-8 byte), so the encoding is unambiguous.
pub const STATEKEY_DELIM: u8 = 0xFF;

/// The 8-byte big-endian encoding of a short id, as persisted. Big-endian so
/// that ordered iteration over a reverse map also sorts numerically.
pub open spec fn u64_be_bytes(n: u64) -> Seq<u8> {
    seq![
        (n >> 56) as u8,
        (n >> 48) as u8,
        (n >> 40) as u8,
        (n >> 32) as u8,
        (n >> 24) as u8,
        (n >> 16) as u8,
        (n >> 8) as u8,
        n as u8,
    ]
}

/// The short id stored in an 8-byte big-endian value.
pub open spec fn u64_from_be_seq(s: Seq<u8>) -> u64
    recommends
        s.len() == 8,
{
    ((s[0] as u64) << 56) | ((s[1] as u64) << 48) | ((s[2] as u64) << 40) | ((s[3] as u64) << 32)
        | ((s[4] as u64) << 24) | ((s[5] as u64) << 16) | ((s[6] as u64) << 8) | (s[7] as u64)
}

/// Decoding inverts encoding: reading back the 8 bytes of a short id yields
/// the same id.
pub proof fn lemma_be_roundtrip(n: u64)
    ensures
        u64_from_be_seq(u64_be_bytes(n)) == n,
{
    assert((((n >> 56) as u8 as u64) << 56) | (((n >> 48) as u8 as u64) << 48) | (((n >> 40)
        as u8 as u64) << 40) | (((n >> 32) as u8 as u64) << 32) | (((n >> 24) as u8 as u64) << 24)
        | (((n >> 16) as u8 as u64) << 16) | (((n >> 8) as u8 as u64) << 8) | (n as u8 as u64)
        == n) by (bit_vector);
}

/// Encoding inverts decoding on 8-byte values.
pub proof fn lemma_be_decode_encode(s: Seq<u8>)
    requires
        s.len() == 8,
    ensures
        u64_be_bytes(u64_from_be_seq(s)) == s,
{
    let b0 = s[0];
    let b1 = s[1];
    let b2 = s[2];
    let b3 = s[3];
    let b4 = s[4];
    let b5 = s[5];
    let b6 = s[6];
    let b7 = s[7];
    let n = u64_from_be_seq(s);
    assert(n == ((b0 as u64) << 56) | ((b1 as u64) << 48) | ((b2 as u64) << 40) | ((b3
        as u64) << 32) | ((b4 as u64) << 24) | ((b5 as u64) << 16) | ((b6 as u64) << 8) | (b7
        as u64));
    assert({
        let m = ((b0 as u64) << 56) | ((b1 as u64) << 48) | ((b2 as u64) << 40) | ((b3
            as u64) << 32) | ((b4 as u64) << 24) | ((b5 as u64) << 16) | ((b6 as u64) << 8) | (b7
            as u64);
        (m >> 56) as u8 == b0 && (m >> 48) as u8 == b1 && (m >> 40) as u8 == b2 && (m >> 32) as u8
            == b3 && (m >> 24) as u8 == b4 && (m >> 16) as u8 == b5 && (m >> 8) as u8 == b6 && m
            as u8 == b7
    }) by (bit_vector);
    assert(u64_be_bytes(n) =~= s);
}

/// Two distinct short ids never share an encoding.
pub proof fn lemma_be_injective(a: u64, b: u64)
    requires
        u64_be_bytes(a) == u64_be_bytes(b),
    ensures
        a == b,
{
    lemma_be_roundtrip(a);
    lemma_be_roundtrip(b);
}

/// Encode a short id as persisted: 8 bytes, big-endian.
pub fn u64_to_be_vec(n: u64) -> (r: Vec<u8>)
    ensures
        r@ == u64_be_bytes(n),
{
    let mut r: Vec<u8> = Vec::new();
    r.push((n >> 56) as u8);
    r.push((n >> 48) as u8);
    r.push((n >> 40) as u8);
    r.push((n >> 32) as u8);
    r.push((n >> 24) as u8);
    r.push((n >> 16) as u8);
    r.push((n >> 8) as u8);
    r.push(n as u8);
    proof {
        assert(r@ =~= u64_be_bytes(n));
    }
    r
}

/// Decode a persisted short id. Anything but exactly 8 bytes is corrupt.
pub fn u64_from_be_bytes(b: &[u8]) -> (r: Result<u64, crate::DataError>)
    ensures
        b@.len() == 8 ==> r == Ok::<u64, crate::DataError>(u64_from_be_seq(b@)),
        b@.len() != 8 ==> r == Err::<u64, crate::DataError>(crate::DataError::CorruptData),
{
    if b.len() != 8 {
        return Err(crate::DataError::CorruptData);
    }
    let n = ((b[0] as u64) << 56) | ((b[1] as u64) << 48) | ((b[2] as u64) << 40) | ((b[3]
        as u64) << 32) | ((b[4] as u64) << 24) | ((b[5] as u64) << 16) | ((b[6] as u64) << 8) | (
    b[7] as u64);
    Ok(n)
}

/// The composite state-key encoding: event-type bytes, one delimiter byte,
/// raw state-key bytes.
pub open spec fn statekey_bytes(event_type: Seq<u8>, state_key: Seq<u8>) -> Seq<u8> {
    event_type + seq![STATEKEY_DELIM] + state_key
}

/// Index of the first delimiter byte, or the length if none occurs.
pub open spec fn delim_index(s: Seq<u8>) -> int
    decreases s.len(),
{
    if s.len() == 0 {
        0
    } else if s[0] == STATEKEY_DELIM {
        0
    } else {
        1 + delim_index(s.skip(1))
    }
}

/// The two segments of a stored composite key, split at the first delimiter;
/// nothing if no delimiter is present (a corrupt entry).
pub open spec fn split_statekey(s: Seq<u8>) -> Option<(Seq<u8>, Seq<u8>)> {
    if delim_index(s) < s.len() {
        Some((s.take(delim_index(s)), s.skip(delim_index(s) + 1)))
    } else {
        None
    }
}

pub proof fn lemma_delim_index_bounds(s: Seq<u8>)
    ensures
        0 <= delim_index(s) <= s.len(),
        forall|j: int| 0 <= j < delim_index(s) ==> s[j] != STATEKEY_DELIM,
        delim_index(s) < s.len() ==> s[delim_index(s)] == STATEKEY_DELIM,
    decreases s.len(),
{
    if s.len() == 0 {
    } else if s[0] == STATEKEY_DELIM {
    } else {
        lemma_delim_index_bounds(s.skip(1));
        assert forall|j: int| 0 <= j < delim_index(s) implies s[j] != STATEKEY_DELIM by {
            if j > 0 {
                assert(s.skip(1)[j - 1] == s[j]);
            }
        }
        if delim_index(s) < s.len() {
            assert(s.skip(1)[delim_index(s) - 1] == s[delim_index(s)]);
        }
    }
}

/// The first delimiter of an encoded composite key is the one the encoder
/// wrote, provided the event-type segment contains none itself (guaranteed
/// for UTF-8 text).
pub proof fn lemma_delim_index_of_encoding(event_type: Seq<u8>, state_key: Seq<u8>)
    requires
        !event_type.contains(STATEKEY_DELIM),
    ensures
        delim_index(statekey_bytes(event_type, state_key)) == event_type.len(),
    decreases event_type.len(),
{
    let s = statekey_bytes(event_type, state_key);
    if event_type.len() == 0 {
        assert(s[0] == STATEKEY_DELIM);
    } else {
        assert(s[0] == event_type[0]);
        assert(event_type.contains(event_type[0]));
        lemma_delim_index_of_encoding(event_type.skip(1), state_key);
        assert forall|b: u8| event_type.skip(1).contains(b) implies event_type.contains(b) by {
            let j = choose|j: int| 0 <= j < event_type.skip(1).len() && event_type.skip(1)[j] == b;
            assert(event_type[j + 1] == b);
        }
        assert(s.skip(1) =~= statekey_bytes(event_type.skip(1), state_key));
    }
}

/// Composite round trip: splitting an encoded composite key recovers exactly
/// the event type and state key that were encoded.
pub proof fn lemma_statekey_roundtrip(event_type: Seq<u8>, state_key: Seq<u8>)
    requires
        !event_type.contains(STATEKEY_DELIM),
    ensures
        split_statekey(statekey_bytes(event_type, state_key)) == Some(
            (event_type, state_key),
        ),
{
    let s = statekey_bytes(event_type, state_key);
    lemma_delim_index_of_encoding(event_type, state_key);
    assert(s.take(event_type.len() as int) =~= event_type);
    assert(s.skip(event_type.len() as int + 1) =~= state_key);
}

/// Build the composite key as persisted.
pub fn encode_statekey(event_type: &[u8], state_key: &[u8]) -> (r: Vec<u8>)
    ensures
        r@ == statekey_bytes(event_type@, state_key@),
{
    let mut r: Vec<u8> = Vec::new();
    r.extend_from_slice(event_type);
    r.push(STATEKEY_DELIM);
    r.extend_from_slice(state_key);
    proof {
        assert(r@ =~= statekey_bytes(event_type@, state_key@));
    }
    r
}

/// Split a stored composite key at its first delimiter; a missing delimiter
/// is corrupt data.
pub fn decode_statekey(bytes: &[u8]) -> (r: Result<(Vec<u8>, Vec<u8>), crate::DataError>)
    ensures
        match split_statekey(bytes@) {
            Some(parts) => r matches Ok(p) && p.0@ == parts.0 && p.1@ == parts.1,
            None => r == Err::<(Vec<u8>, Vec<u8>), crate::DataError>(crate::DataError::CorruptData),
        },
{
    proof {
        lemma_delim_index_bounds(bytes@);
    }
    let mut i: usize = 0;
    while i < bytes.len()
        invariant
            0 <= i <= bytes@.len(),
            forall|j: int| 0 <= j < i ==> bytes@[j] != STATEKEY_DELIM,
            0 <= delim_index(bytes@) <= bytes@.len(),
            forall|j: int| 0 <= j < delim_index(bytes@) ==> bytes@[j] != STATEKEY_DELIM,
            delim_index(bytes@) < bytes@.len() ==> bytes@[delim_index(bytes@)] == STATEKEY_DELIM,
        decreases bytes@.len() - i,
    {
        if bytes[i] == STATEKEY_DELIM {
            // i is the first delimiter, so it is delim_index.
            proof {
                if delim_index(bytes@) < i {
                    assert(bytes@[delim_index(bytes@)] != STATEKEY_DELIM);
                }
                assert(delim_index(bytes@) == i);
            }
            let event_type = slice_to_vec_prefix(bytes, i);
            let state_key = slice_to_vec_suffix(bytes, i + 1);
            return Ok((event_type, state_key));
        }
        i += 1;
    }
    proof {
        if delim_index(bytes@) < bytes@.len() {
            assert(bytes@[delim_index(bytes@)] != STATEKEY_DELIM);
        }
    }
    Err(crate::DataError::CorruptData)
}

/// Copy the first `n` bytes of a slice.
fn slice_to_vec_prefix(b: &[u8], n: usize) -> (r: Vec<u8>)
    requires
        n <= b@.len(),
    ensures
        r@ == b@.take(n as int),
{
    let mut r: Vec<u8> = Vec::new();
    let mut i: usize = 0;
    while i < n
        invariant
            0 <= i <= n <= b@.len(),
            r@ =~= b@.take(i as int),
        decreases n - i,
    {
        r.push(b[i]);
        i += 1;
        proof {
            assert(r@ =~= b@.take(i as int));
        }
    }
    r
}

/// Copy the bytes of a slice from position `n` on.
fn slice_to_vec_suffix(b: &[u8], n: usize) -> (r: Vec<u8>)
    requires
        n <= b@.len(),
    ensures
        r@ == b@.skip(n as int),
{
    let mut r: Vec<u8> = Vec::new();
    let mut i: usize = n;
    while i < b.len()
        invariant
            n <= i <= b@.len(),
            r@ =~= b@.subrange(n as int, i as int),
        decreases b@.len() - i,
    {
        r.push(b[i]);
        i += 1;
        proof {
            assert(r@ =~= b@.subrange(n as int, i as int));
        }
    }
    proof {
        assert(b@.subrange(n as int, b@.len() as int) =~= b@.skip(n as int));
    }
    r
}

} // verus!
