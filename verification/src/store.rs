//! The storage engine: a mapping from key to value with optional
//! absolute expiry. An entry whose expiry has passed is logically absent;
//! a read that observes it removes it (lazy expiration).
//!
//! Every mutating operation takes the store exclusively (`&mut self`), so
//! a write and the check-then-evict step of a read are each one atomic
//! critical section. A program sharing one store across threads wraps it
//! in a mutual-exclusion primitive and holds the lock across one whole
//! call.

use vstd::prelude::*;

verus! {

/// One stored entry.
struct Entry {
    key: Vec<u8>,
    value: Vec<u8>,
    expires_at: Option<u64>,
}

/// The mathematical shape of one stored entry: its payload and its
/// optional absolute expiry, in milliseconds of the caller's clock.
pub ghost struct EntryModel {
    pub value: Seq<u8>,
    pub expires_at: Option<u64>,
}

spec fn entry_model(e: Entry) -> EntryModel {
    EntryModel { value: e.value@, expires_at: e.expires_at }
}

spec fn has_key(s: Seq<Entry>, k: Seq<u8>) -> bool {
    exists|i: int| 0 <= i < s.len() && s[i].key@ == k
}

spec fn key_index(s: Seq<Entry>, k: Seq<u8>) -> int {
    choose|i: int| 0 <= i < s.len() && s[i].key@ == k
}

spec fn wf_seq(s: Seq<Entry>) -> bool {
    forall|i: int, j: int|
        0 <= i < s.len() && 0 <= j < s.len() && i != j ==> s[i].key@ != s[j].key@
}

spec fn store_map(s: Seq<Entry>) -> Map<Seq<u8>, EntryModel> {
    Map::new(|k: Seq<u8>| has_key(s, k), |k: Seq<u8>| entry_model(s[key_index(s, k)]))
}

/// Whether an entry is still live at time `now`: no expiry, or an expiry
/// that has not yet passed.
pub open spec fn live_at(e: EntryModel, now: u64) -> bool {
    match e.expires_at {
        None => true,
        Some(t) => t >= now,
    }
}

/// What a read of `k` at time `now` returns: the stored value when the
/// key holds a live entry, nothing otherwise.
pub open spec fn read_result(m: Map<Seq<u8>, EntryModel>, k: Seq<u8>, now: u64) -> Option<
    Seq<u8>,
> {
    if m.dom().contains(k) && live_at(m[k], now) {
        Some(m[k].value)
    } else {
        None
    }
}

/// What the mapping looks like after a read of `k` at time `now`: an
/// expired entry is evicted, everything else is untouched.
pub open spec fn map_after_read(m: Map<Seq<u8>, EntryModel>, k: Seq<u8>, now: u64) -> Map<
    Seq<u8>,
    EntryModel,
> {
    if m.dom().contains(k) && !live_at(m[k], now) {
        m.remove(k)
    } else {
        m
    }
}

/// The mapping from key to entry, shared by every connection handler.
pub struct Store {
    entries: Vec<Entry>,
}

impl View for Store {
    type V = Map<Seq<u8>, EntryModel>;

    closed spec fn view(&self) -> Map<Seq<u8>, EntryModel> {
        store_map(self.entries@)
    }
}

impl Store {
    /// Well-formedness: no key occurs twice.
    pub closed spec fn wf(self) -> bool {
        wf_seq(self.entries@)
    }

    /// An empty store.
    pub fn new() -> (s: Store)
        ensures
            s.wf(),
            s@ == Map::<Seq<u8>, EntryModel>::empty(),
    {
        let s = Store { entries: Vec::new() };
        proof {
            assert(s@ =~= Map::<Seq<u8>, EntryModel>::empty());
        }
        s
    }

    /// The index holding `key`, if any.
    fn find(&self, key: &Vec<u8>) -> (r: Option<usize>)
        ensures
            match r {
                Some(i) => i < self.entries@.len() && self.entries@[i as int].key@ == key@,
                None => !has_key(self.entries@, key@),
            },
    {
        let mut i: usize = 0;
        while i < self.entries.len()
            invariant
                i <= self.entries@.len(),
                forall|j: int| 0 <= j < i ==> self.entries@[j].key@ != key@,
            decreases self.entries@.len() - i,
        {
            if crate::bytes::bytes_eq(&self.entries[i].key, key) {
                return Some(i);
            }
            i = i + 1;
        }
        None
    }

    /// Remove `key`'s entry if present.
    fn remove_key(&mut self, key: &Vec<u8>)
        requires
            old(self).wf(),
        ensures
            final(self).wf(),
            final(self)@ == old(self)@.remove(key@),
            !has_key(final(self).entries@, key@),
    {
        let ghost s0 = self.entries@;
        match self.find(key) {
            None => {
                proof {
                    assert(self@ =~= old(self)@.remove(key@));
                }
            },
            Some(i) => {
                self.entries.remove(i);
                proof {
                    let s1 = self.entries@;
                    assert(s1 == s0.remove(i as int));
                    assert forall|j: int| 0 <= j < s1.len() implies s1[j] == (if j < i {
                        s0[j]
                    } else {
                        s0[j + 1]
                    }) by {
                        assert(s0.remove(i as int) == s0.subrange(0, i as int) + s0.subrange(
                            i + 1,
                            s0.len() as int,
                        ));
                    }
                    assert(wf_seq(s1));
                    assert forall|k2: Seq<u8>| true implies (has_key(s1, k2) <==> (has_key(s0, k2)
                        && k2 != key@)) by {
                        if has_key(s1, k2) {
                            let j = choose|j: int| 0 <= j < s1.len() && s1[j].key@ == k2;
                            if j < i {
                                assert(s0[j].key@ == k2);
                            } else {
                                assert(s0[j + 1].key@ == k2);
                            }
                            assert(has_key(s0, k2));
                            if k2 == key@ {
                                let j0 = if j < i {
                                    j
                                } else {
                                    j + 1
                                };
                                assert(s0[j0].key@ == key@ && j0 != i && s0[i as int].key@
                                    == key@);
                                assert(false);
                            }
                        }
                        if has_key(s0, k2) && k2 != key@ {
                            let j = choose|j: int| 0 <= j < s0.len() && s0[j].key@ == k2;
                            assert(j != i);
                            if j < i {
                                assert(s1[j].key@ == k2);
                            } else {
                                assert(s1[j - 1].key@ == k2);
                            }
                            assert(has_key(s1, k2));
                        }
                    }
                    assert forall|k2: Seq<u8>| has_key(s1, k2) implies entry_model(
                        s1[key_index(s1, k2)],
                    ) == entry_model(s0[key_index(s0, k2)]) by {
                        let j1 = key_index(s1, k2);
                        assert(0 <= j1 < s1.len() && s1[j1].key@ == k2);
                        let j0 = if j1 < i {
                            j1
                        } else {
                            j1 + 1
                        };
                        assert(s0[j0].key@ == k2);
                        let jc = key_index(s0, k2);
                        assert(0 <= jc < s0.len() && s0[jc].key@ == k2);
                        assert(jc == j0);
                        assert(s1[j1] == s0[j0]);
                    }
                    assert(store_map(s1) =~= store_map(s0).remove(key@));
                }
            },
        }
    }

    /// Write `key` to hold `value` with the given absolute expiry,
    /// replacing any previous entry for that key, expiry included.
    /// Always succeeds.
    pub fn write(&mut self, key: Vec<u8>, value: Vec<u8>, expires_at: Option<u64>)
        requires
            old(self).wf(),
        ensures
            final(self).wf(),
            final(self)@ == old(self)@.insert(
                key@,
                EntryModel { value: value@, expires_at },
            ),
    {
        self.remove_key(&key);
        let ghost s1 = self.entries@;
        let ghost em = EntryModel { value: value@, expires_at };
        let ghost k = key@;
        self.entries.push(Entry { key, value, expires_at });
        proof {
            let s2 = self.entries@;
            assert(s2 == s1.push(Entry { key: s2.last().key, value: s2.last().value, expires_at }));
            assert(s2.len() == s1.len() + 1);
            assert(s2[s1.len() as int].key@ == k);
            assert forall|j: int| 0 <= j < s1.len() implies s2[j] == s1[j] by {}
            assert(wf_seq(s2)) by {
                assert forall|i: int, j: int|
                    0 <= i < s2.len() && 0 <= j < s2.len() && i != j implies s2[i].key@
                    != s2[j].key@ by {
                    if i < s1.len() && j < s1.len() {
                    } else if i == s1.len() as int {
                        assert(s2[j].key@ != k) by {
                            if s2[j].key@ == k {
                                assert(has_key(s1, k));
                            }
                        }
                    } else {
                        assert(s2[i].key@ != k) by {
                            if s2[i].key@ == k {
                                assert(has_key(s1, k));
                            }
                        }
                    }
                }
            }
            assert forall|k2: Seq<u8>| true implies (has_key(s2, k2) <==> (has_key(s1, k2) || k2
                == k)) by {
                if has_key(s2, k2) {
                    let j = choose|j: int| 0 <= j < s2.len() && s2[j].key@ == k2;
                    if j < s1.len() {
                        assert(has_key(s1, k2));
                    }
                }
                if has_key(s1, k2) {
                    let j = choose|j: int| 0 <= j < s1.len() && s1[j].key@ == k2;
                    assert(s2[j].key@ == k2);
                }
                if k2 == k {
                    assert(s2[s1.len() as int].key@ == k2);
                }
            }
            assert forall|k2: Seq<u8>| has_key(s2, k2) implies entry_model(s2[key_index(s2, k2)])
                == (if k2 == k {
                em
            } else {
                entry_model(s1[key_index(s1, k2)])
            }) by {
                let j2 = key_index(s2, k2);
                assert(0 <= j2 < s2.len() && s2[j2].key@ == k2);
                if k2 == k {
                    assert(j2 == s1.len() as int) by {
                        if j2 < s1.len() {
                            assert(has_key(s1, k));
                        }
                    }
                    assert(entry_model(s2[j2]) == em);
                } else {
                    assert(j2 < s1.len());
                    let j1 = key_index(s1, k2);
                    assert(0 <= j1 < s1.len() && s1[j1].key@ == k2);
                    assert(j1 == j2);
                }
            }
            assert(store_map(s2) =~= store_map(s1).insert(k, em));
            assert(store_map(s1).insert(k, em) =~= old(self)@.insert(k, em));
        }
    }

    /// Read `key` at time `now`. Returns the stored value when the key
    /// holds a live entry; returns nothing when the key is absent or its
    /// entry has expired, evicting an expired entry as a side effect.
    pub fn read(&mut self, key: &Vec<u8>, now: u64) -> (r: Option<Vec<u8>>)
        requires
            old(self).wf(),
        ensures
            final(self).wf(),
            final(self)@ == map_after_read(old(self)@, key@, now),
            match r {
                Some(v) => read_result(old(self)@, key@, now) == Some(v@),
                None => read_result(old(self)@, key@, now) is None,
            },
    {
        let idx = match self.find(key) {
            None => {
                proof {
                    assert(!self@.dom().contains(key@));
                }
                return None;
            },
            Some(i) => i,
        };
        proof {
            assert(has_key(self.entries@, key@));
            let jc = key_index(self.entries@, key@);
            assert(0 <= jc < self.entries@.len() && self.entries@[jc].key@ == key@);
            assert(jc == idx as int);
            assert(self@.dom().contains(key@));
            assert(self@[key@] == entry_model(self.entries@[idx as int]));
        }
        let expired = match self.entries[idx].expires_at {
            None => false,
            Some(t) => t < now,
        };
        if expired {
            proof {
                assert(!live_at(self@[key@], now));
            }
            self.remove_key(key);
            None
        } else {
            proof {
                assert(live_at(self@[key@], now));
            }
            let value = crate::bytes::copy_bytes(&self.entries[idx].value);
            Some(value)
        }
    }

    /// Whether `key` currently holds an entry, live or expired.
    pub fn contains_key(&self, key: &Vec<u8>) -> (r: bool)
        ensures
            r == self@.dom().contains(key@),
    {
        match self.find(key) {
            Some(_) => {
                proof {
                    assert(has_key(self.entries@, key@));
                }
                true
            },
            None => false,
        }
    }
}

/// Expiry correctness: after a write of `v` under `k` with expiry `t`, a
/// read at any `now <= t` returns `v` and leaves the mapping unchanged; a
/// read at any `now > t` misses, and afterward `k` is absent.
pub proof fn lemma_expiry(m: Map<Seq<u8>, EntryModel>, k: Seq<u8>, v: Seq<u8>, t: u64, now: u64)
    ensures
        ({
            let m2 = m.insert(k, EntryModel { value: v, expires_at: Some(t) });
            &&& now <= t ==> read_result(m2, k, now) == Some(v) && map_after_read(m2, k, now)
                == m2
            &&& now > t ==> read_result(m2, k, now) is None && !map_after_read(
                m2,
                k,
                now,
            ).dom().contains(k)
        }),
{
}

/// Overwrite clears expiry: a write without expiry replaces the whole
/// entry, so the new value is read back at every later time and the read
/// leaves the mapping unchanged.
pub proof fn lemma_overwrite_clears_expiry(
    m: Map<Seq<u8>, EntryModel>,
    k: Seq<u8>,
    v1: Seq<u8>,
    t1: u64,
    v2: Seq<u8>,
    now: u64,
)
    ensures
        ({
            let m2 = m.insert(k, EntryModel { value: v1, expires_at: Some(t1) }).insert(
                k,
                EntryModel { value: v2, expires_at: None },
            );
            read_result(m2, k, now) == Some(v2) && map_after_read(m2, k, now) == m2
        }),
{
}

/// Last write wins: of any two writes to the same key, only the later one
/// is visible; the earlier leaves no trace in the mapping.
pub proof fn lemma_last_write_wins(
    m: Map<Seq<u8>, EntryModel>,
    k: Seq<u8>,
    e1: EntryModel,
    e2: EntryModel,
)
    ensures
        m.insert(k, e1).insert(k, e2) == m.insert(k, e2),
{
    assert(m.insert(k, e1).insert(k, e2) =~= m.insert(k, e2));
}

} // verus!
