//! The store state: a mapping from text keys to text values.
//!
//! The mapping is held as a vector of entries whose keys are pairwise
//! distinct; its mathematical view is a `Map<Seq<char>, Seq<char>>`, and
//! every operation's contract is stated against that map.

use vstd::prelude::*;

verus! {

/// One entry of the store: a key with its current value.
#[derive(Debug, Clone)]
struct Entry {
    key: String,
    value: String,
}

/// Whether some entry of `s` carries the key `k`.
spec fn has_key(s: Seq<Entry>, k: Seq<char>) -> bool {
    exists|i: int| 0 <= i < s.len() && #[trigger] s[i].key@ == k
}

/// The index of the entry of `s` carrying the key `k` (meaningful only
/// when `has_key(s, k)` holds and keys are distinct).
spec fn index_of(s: Seq<Entry>, k: Seq<char>) -> int {
    choose|i: int| 0 <= i < s.len() && #[trigger] s[i].key@ == k
}

/// No two entries of `s` carry the same key.
spec fn distinct_keys(s: Seq<Entry>) -> bool {
    forall|i: int, j: int|
        0 <= i < s.len() && 0 <= j < s.len() && #[trigger] s[i].key@ == #[trigger] s[j].key@
            ==> i == j
}

/// The mapping that a sequence of entries denotes.
spec fn map_of(s: Seq<Entry>) -> Map<Seq<char>, Seq<char>> {
    Map::new(|k: Seq<char>| has_key(s, k), |k: Seq<char>| s[index_of(s, k)].value@)
}

/// The key-value mapping owned by a store instance.
///
/// Callers never observe a partially applied operation: each of `get`,
/// `set` and `delete` relates the whole view before the call to the whole
/// view after it.
#[derive(Debug, Clone)]
pub struct StoreState {
    entries: Vec<Entry>,
}

impl View for StoreState {
    type V = Map<Seq<char>, Seq<char>>;

    closed spec fn view(&self) -> Map<Seq<char>, Seq<char>> {
        map_of(self.entries@)
    }
}

impl StoreState {
    /// Well-formedness: the entry vector never carries a key twice.
    pub closed spec fn wf(&self) -> bool {
        distinct_keys(self.entries@)
    }

    /// Creates an empty store.
    pub fn new() -> (s: StoreState)
        ensures
            s.wf(),
            s@ == Map::<Seq<char>, Seq<char>>::empty(),
    {
        let s = StoreState { entries: Vec::new() };
        proof {
            assert(s@ =~= Map::<Seq<char>, Seq<char>>::empty());
        }
        s
    }

    /// Finds the position of `key` among the entries, if it is present.
    fn position_of(&self, key: &String) -> (r: Option<usize>)
        requires
            self.wf(),
        ensures
            match r {
                Some(i) => {
                    &&& i < self.entries@.len()
                    &&& self.entries@[i as int].key@ == key@
                    &&& self@.contains_key(key@)
                },
                None => !self@.contains_key(key@),
            },
    {
        let n = self.entries.len();
        for i in 0..n
            invariant
                n == self.entries@.len(),
                forall|j: int| 0 <= j < i ==> #[trigger] self.entries@[j].key@ != key@,
        {
            if self.entries[i].key == *key {
                proof {
                    assert(has_key(self.entries@, key@));
                }
                return Some(i);
            }
        }
        proof {
            assert(!has_key(self.entries@, key@));
        }
        None
    }

    /// Returns the current value for `key`, or `None` if the key was never
    /// set or was deleted since. No side effect.
    pub fn get(&self, key: &String) -> (r: Option<String>)
        requires
            self.wf(),
        ensures
            match r {
                Some(v) => self@.contains_key(key@) && v@ == self@[key@],
                None => !self@.contains_key(key@),
            },
    {
        match self.position_of(key) {
            Some(i) => {
                proof {
                    let j = index_of(self.entries@, key@);
                    assert(0 <= j < self.entries@.len() && self.entries@[j].key@ == key@);
                    assert(j == i);
                }
                Some(self.entries[i].value.clone())
            },
            None => None,
        }
    }

    /// Inserts or overwrites the value for `key`.
    pub fn set(&mut self, key: String, value: String)
        requires
            old(self).wf(),
        ensures
            final(self).wf(),
            final(self)@ == old(self)@.insert(key@, value@),
    {
        let ghost s0 = self.entries@;
        match self.position_of(&key) {
            Some(i) => {
                let ghost k = key@;
                let ghost v = value@;
                self.entries[i] = Entry { key, value };
                proof {
                    let s1 = self.entries@;
                    assert(s1 == s0.update(i as int, s1[i as int]));
                    assert forall|p: int, q: int|
                        0 <= p < s1.len() && 0 <= q < s1.len()
                            && #[trigger] s1[p].key@ == #[trigger] s1[q].key@ implies p == q by {
                        assert(s1[p].key@ == s0[p].key@);
                        assert(s1[q].key@ == s0[q].key@);
                    }
                    lemma_same_keys_same_map_update(s0, s1, i as int, k, v);
                    assert(map_of(s1) =~= map_of(s0).insert(k, v));
                }
            },
            None => {
                let ghost k = key@;
                let ghost v = value@;
                self.entries.push(Entry { key, value });
                proof {
                    let s1 = self.entries@;
                    let n = s0.len() as int;
                    assert(s1[n].key@ == k && s1[n].value@ == v);
                    lemma_push_inserts(s0, s1[n]);
                    assert(map_of(s1) =~= map_of(s0).insert(k, v));
                }
            },
        }
    }

    /// Removes `key` if present; a no-op (not an error) if absent.
    pub fn delete(&mut self, key: &String)
        requires
            old(self).wf(),
        ensures
            final(self).wf(),
            final(self)@ == old(self)@.remove(key@),
    {
        let ghost s0 = self.entries@;
        match self.position_of(key) {
            Some(i) => {
                let ghost k = key@;
                self.entries.remove(i);
                proof {
                    let s1 = self.entries@;
                    assert(s1 == s0.remove(i as int));
                    assert forall|p: int| 0 <= p < s1.len() implies #[trigger] s1[p]
                        == (if p < i as int { s0[p] } else { s0[p + 1] }) by {
                    }
                    assert forall|p: int, q: int|
                        0 <= p < s1.len() && 0 <= q < s1.len()
                            && #[trigger] s1[p].key@ == #[trigger] s1[q].key@ implies p == q by {
                        let p0 = if p < i as int { p } else { p + 1 };
                        let q0 = if q < i as int { q } else { q + 1 };
                        assert(s0[p0].key@ == s0[q0].key@);
                    }
                    lemma_remove_at_key(s0, i as int);
                    assert(map_of(s1) =~= map_of(s0).remove(k));
                }
            },
            None => {
                proof {
                    assert(map_of(s0) =~= map_of(s0).remove(key@));
                }
            },
        }
    }
}

/// After updating position `i` of a distinct-keyed sequence to an entry with
/// key `k` and value `v`, where position `i` carried `k` already, the denoted
/// mapping is the old mapping with `k` bound to `v`.
proof fn lemma_same_keys_same_map_update(s0: Seq<Entry>, s1: Seq<Entry>, i: int, k: Seq<char>, v: Seq<char>)
    requires
        distinct_keys(s0),
        distinct_keys(s1),
        0 <= i < s0.len(),
        s1 == s0.update(i, s1[i]),
        s0[i].key@ == k,
        s1[i].key@ == k,
        s1[i].value@ == v,
    ensures
        map_of(s1) =~= map_of(s0).insert(k, v),
{
    assert forall|k2: Seq<char>| #[trigger] has_key(s1, k2) implies k2 == k || has_key(s0, k2) by {
        let p = choose|p: int| 0 <= p < s1.len() && #[trigger] s1[p].key@ == k2;
        if p != i {
            assert(s0[p].key@ == k2);
        }
    }
    assert forall|k2: Seq<char>| #[trigger] has_key(s0, k2) implies has_key(s1, k2) by {
        let p = choose|p: int| 0 <= p < s0.len() && #[trigger] s0[p].key@ == k2;
        if p == i {
            assert(s1[i].key@ == k);
            assert(s0[i].key@ == k);
            assert(k2 == k);
            assert(s1[i].key@ == k2);
        } else {
            assert(s1[p].key@ == k2);
        }
    }
    assert(has_key(s1, k));
    assert forall|k2: Seq<char>| has_key(s1, k2) && k2 != k implies
        #[trigger] map_of(s1)[k2] == map_of(s0)[k2] by {
        let p = index_of(s1, k2);
        assert(0 <= p < s1.len() && s1[p].key@ == k2);
        assert(p != i);
        assert(s0[p].key@ == k2);
        let q = index_of(s0, k2);
        assert(0 <= q < s0.len() && s0[q].key@ == k2);
        assert(q == p);
        assert(s1[p].value@ == s0[p].value@);
    }
    assert(map_of(s1)[k] == s1[index_of(s1, k)].value@);
    assert(index_of(s1, k) == i);
}

/// Appending an entry whose key is absent from a distinct-keyed sequence
/// binds that key to its value and changes nothing else.
proof fn lemma_push_inserts(s0: Seq<Entry>, e: Entry)
    requires
        distinct_keys(s0),
        !has_key(s0, e.key@),
    ensures
        distinct_keys(s0.push(e)),
        map_of(s0.push(e)) =~= map_of(s0).insert(e.key@, e.value@),
{
    let s1 = s0.push(e);
    let n = s0.len() as int;
    let k = e.key@;
    assert(s1[n] == e);
    assert forall|k2: Seq<char>| #[trigger] has_key(s1, k2) implies k2 == k || has_key(s0, k2) by {
        let p = choose|p: int| 0 <= p < s1.len() && #[trigger] s1[p].key@ == k2;
        if p < n {
            assert(s0[p].key@ == k2);
        }
    }
    assert forall|k2: Seq<char>| #[trigger] has_key(s0, k2) implies has_key(s1, k2) by {
        let p = choose|p: int| 0 <= p < s0.len() && #[trigger] s0[p].key@ == k2;
        assert(s1[p].key@ == k2);
    }
    assert(has_key(s1, k));
    assert(distinct_keys(s1)) by {
        assert forall|p: int, q: int|
            0 <= p < s1.len() && 0 <= q < s1.len()
                && #[trigger] s1[p].key@ == #[trigger] s1[q].key@ implies p == q by {
            if p < n && q < n {
                assert(s0[p].key@ == s0[q].key@);
            } else if p < n && q == n {
                assert(s0[p].key@ == k);
                assert(has_key(s0, k));
            } else if p == n && q < n {
                assert(s0[q].key@ == k);
                assert(has_key(s0, k));
            }
        }
    }
    assert forall|k2: Seq<char>| has_key(s1, k2) && k2 != k implies
        #[trigger] map_of(s1)[k2] == map_of(s0)[k2] by {
        let p = index_of(s1, k2);
        assert(0 <= p < s1.len() && s1[p].key@ == k2);
        assert(p != n);
        assert(s0[p].key@ == k2);
        let q = index_of(s0, k2);
        assert(0 <= q < s0.len() && s0[q].key@ == k2);
        assert(s1[q].key@ == k2);
        assert(q == p);
        assert(s1[p].value@ == s0[p].value@);
    }
    assert(index_of(s1, k) == n);
    assert(map_of(s1)[k] == e.value@);
}

/// Removing position `i` of a distinct-keyed sequence removes exactly the
/// binding of the key carried there.
proof fn lemma_remove_at_key(s0: Seq<Entry>, i: int)
    requires
        distinct_keys(s0),
        0 <= i < s0.len(),
    ensures
        map_of(s0.remove(i)) =~= map_of(s0).remove(s0[i].key@),
{
    let s1 = s0.remove(i);
    let k = s0[i].key@;
    assert forall|p: int| 0 <= p < s1.len() implies #[trigger] s1[p]
        == (if p < i { s0[p] } else { s0[p + 1] }) by {
    }
    assert forall|k2: Seq<char>| #[trigger] has_key(s1, k2) implies has_key(s0, k2) && k2 != k by {
        let p = choose|p: int| 0 <= p < s1.len() && #[trigger] s1[p].key@ == k2;
        let p0 = if p < i { p } else { p + 1 };
        assert(s0[p0].key@ == k2);
        if k2 == k {
            assert(s0[p0].key@ == s0[i].key@);
            assert(p0 == i);
            assert(false);
        }
    }
    assert forall|k2: Seq<char>| #[trigger] has_key(s0, k2) && k2 != k implies has_key(s1, k2) by {
        let p = choose|p: int| 0 <= p < s0.len() && #[trigger] s0[p].key@ == k2;
        assert(p != i);
        if p < i {
            assert(s1[p].key@ == k2);
        } else {
            assert(s1[p - 1].key@ == k2);
        }
    }
    assert forall|k2: Seq<char>| has_key(s1, k2) implies
        #[trigger] map_of(s1)[k2] == map_of(s0)[k2] by {
        let p = index_of(s1, k2);
        assert(0 <= p < s1.len() && s1[p].key@ == k2);
        let p0 = if p < i { p } else { p + 1 };
        assert(s0[p0].key@ == k2);
        let q = index_of(s0, k2);
        assert(0 <= q < s0.len() && s0[q].key@ == k2);
        assert(q == p0);
        assert(s1[p].value@ == s0[p0].value@);
    }
}

} // verus!
