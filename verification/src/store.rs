//! The byte-ordered key-value maps the interning tables persist into: each
//! table is one or two independently addressed maps supporting `get`,
//! `insert` and `multi_get` over raw byte keys, with read-your-writes
//! consistency for a single caller.

use vstd::prelude::*;

verus! {

/// One byte-keyed map. Stored as an append-only entry list where the latest
/// entry for a key wins; the view is the resulting mathematical map.
pub struct KvMap {
    entries: Vec<(Vec<u8>, Vec<u8>)>,
}

/// The map described by an entry list, later entries overriding earlier ones.
pub open spec fn map_of_entries(s: Seq<(Vec<u8>, Vec<u8>)>) -> Map<Seq<u8>, Seq<u8>>
    decreases s.len(),
{
    if s.len() == 0 {
        Map::empty()
    } else {
        map_of_entries(s.drop_last()).insert(s.last().0@, s.last().1@)
    }
}

/// A key is in the map exactly when some entry carries it.
pub proof fn lemma_map_of_entries_contains(s: Seq<(Vec<u8>, Vec<u8>)>, k: Seq<u8>)
    ensures
        map_of_entries(s).contains_key(k) <==> exists|i: int| 0 <= i < s.len() && s[i].0@ == k,
    decreases s.len(),
{
    if s.len() > 0 {
        lemma_map_of_entries_contains(s.drop_last(), k);
        if s.last().0@ == k {
            assert(s[s.len() - 1].0@ == k);
        } else if map_of_entries(s).contains_key(k) {
            let i = choose|i: int| 0 <= i < s.len() - 1 && s.drop_last()[i].0@ == k;
            assert(s[i].0@ == k);
        } else {
            assert forall|i: int| 0 <= i < s.len() implies s[i].0@ != k by {
                if i < s.len() - 1 {
                    assert(s.drop_last()[i].0@ == s[i].0@);
                }
            }
        }
    }
}

/// The value of a key is the one of its latest entry.
pub proof fn lemma_map_of_entries_value(s: Seq<(Vec<u8>, Vec<u8>)>, i: int)
    requires
        0 <= i < s.len(),
        forall|j: int| i < j < s.len() ==> s[j].0@ != s[i].0@,
    ensures
        map_of_entries(s).contains_key(s[i].0@),
        map_of_entries(s)[s[i].0@] == s[i].1@,
    decreases s.len(),
{
    lemma_map_of_entries_contains(s, s[i].0@);
    if i == s.len() - 1 {
    } else {
        assert(s.last().0@ != s[i].0@);
        assert(s.drop_last()[i] == s[i]);
        lemma_map_of_entries_value(s.drop_last(), i);
    }
}

/// Byte-string equality.
pub fn bytes_eq(a: &[u8], b: &[u8]) -> (r: bool)
    ensures
        r <==> a@ == b@,
{
    if a.len() != b.len() {
        proof {
            assert(a@.len() != b@.len());
        }
        return false;
    }
    let mut i: usize = 0;
    while i < a.len()
        invariant
            0 <= i <= a@.len(),
            a@.len() == b@.len(),
            forall|j: int| 0 <= j < i ==> a@[j] == b@[j],
        decreases a@.len() - i,
    {
        if a[i] != b[i] {
            return false;
        }
        i += 1;
    }
    proof {
        assert(a@ =~= b@);
    }
    true
}

/// Copy a byte slice into an owned vector.
pub fn bytes_to_vec(b: &[u8]) -> (r: Vec<u8>)
    ensures
        r@ == b@,
{
    let mut r: Vec<u8> = Vec::new();
    let mut i: usize = 0;
    while i < b.len()
        invariant
            0 <= i <= b@.len(),
            r@ =~= b@.take(i as int),
        decreases b@.len() - i,
    {
        r.push(b[i]);
        i += 1;
        proof {
            assert(r@ =~= b@.take(i as int));
        }
    }
    proof {
        assert(b@.take(b@.len() as int) =~= b@);
    }
    r
}

impl KvMap {
    pub closed spec fn view(&self) -> Map<Seq<u8>, Seq<u8>> {
        map_of_entries(self.entries@)
    }

    /// An empty map.
    pub fn new() -> (r: KvMap)
        ensures
            r@ == Map::<Seq<u8>, Seq<u8>>::empty(),
    {
        KvMap { entries: Vec::new() }
    }

    /// Read the value stored under a key, if any.
    pub fn get(&self, key: &[u8]) -> (r: Option<Vec<u8>>)
        ensures
            match r {
                Some(v) => self@.contains_key(key@) && v@ == self@[key@],
                None => !self@.contains_key(key@),
            },
    {
        let ghost s = self.entries@;
        let mut i: usize = self.entries.len();
        while i > 0
            invariant
                0 <= i <= s.len(),
                s == self.entries@,
                forall|j: int| i <= j < s.len() ==> s[j].0@ != key@,
            decreases i,
        {
            i -= 1;
            let entry_key: &Vec<u8> = &self.entries[i].0;
            if bytes_eq(entry_key.as_slice(), key) {
                proof {
                    lemma_map_of_entries_value(s, i as int);
                }
                let value: &Vec<u8> = &self.entries[i].1;
                return Some(bytes_to_vec(value.as_slice()));
            }
        }
        proof {
            lemma_map_of_entries_contains(s, key@);
        }
        None
    }

    /// Store a value under a key, replacing any earlier value.
    pub fn insert(&mut self, key: &[u8], value: &[u8])
        ensures
            final(self)@ == old(self)@.insert(key@, value@),
    {
        let k = bytes_to_vec(key);
        let v = bytes_to_vec(value);
        self.entries.push((k, v));
        proof {
            assert(self.entries@.drop_last() =~= old(self).entries@);
        }
    }

    /// One batched lookup: the result holds, position by position, what `get`
    /// would return for each key.
    pub fn multi_get(&self, keys: &Vec<Vec<u8>>) -> (r: Vec<Option<Vec<u8>>>)
        ensures
            r@.len() == keys@.len(),
            forall|i: int|
                0 <= i < keys@.len() ==> match #[trigger] r@[i] {
                    Some(v) => self@.contains_key(keys@[i]@) && v@ == self@[keys@[i]@],
                    None => !self@.contains_key(keys@[i]@),
                },
    {
        let mut r: Vec<Option<Vec<u8>>> = Vec::new();
        let mut i: usize = 0;
        while i < keys.len()
            invariant
                0 <= i <= keys@.len(),
                r@.len() == i,
                forall|j: int|
                    0 <= j < i ==> match #[trigger] r@[j] {
                        Some(v) => self@.contains_key(keys@[j]@) && v@ == self@[keys@[j]@],
                        None => !self@.contains_key(keys@[j]@),
                    },
            decreases keys@.len() - i,
        {
            let key: &Vec<u8> = &keys[i];
            r.push(self.get(key.as_slice()));
            i += 1;
        }
        r
    }
}

} // verus!
