//! The expiring key-value store: a map from string keys to string values,
//! each entry carrying an optional absolute expiration timestamp.

use vstd::prelude::*;
use vstd::hash_map::StringHashMap;

verus! {

/// A stored value together with its expiration policy.
/// `expires_at == None` means the entry never expires.
pub struct Entry {
    pub value: String,
    pub expires_at: Option<u64>,
}

/// Mathematical model of an entry: the value as a character sequence,
/// and the same expiration policy.
pub struct EntryModel {
    pub value: Seq<char>,
    pub expires_at: Option<u64>,
}

impl View for Entry {
    type V = EntryModel;

    open spec fn view(&self) -> EntryModel {
        EntryModel { value: self.value@, expires_at: self.expires_at }
    }
}

/// Holds when `k` does not map to an entry that is expired at `now`:
/// either the key is absent, or its entry is still live.
pub open spec fn not_expired_at(m: Map<Seq<char>, Entry>, k: Seq<char>, now: u64) -> bool {
    m.contains_key(k) ==> !is_expired(m[k]@, now)
}

/// The model of a store after a sweep at time `now`: exactly the live
/// entries survive, unchanged.
pub open spec fn swept(m: Map<Seq<char>, EntryModel>, now: u64) -> Map<Seq<char>, EntryModel> {
    Map::new(|k: Seq<char>| m.contains_key(k) && !is_expired(m[k], now), |k: Seq<char>| m[k])
}

/// An entry is expired at time `now` iff it has an expiration timestamp
/// that is not strictly in the future.
pub open spec fn is_expired(e: EntryModel, now: u64) -> bool {
    match e.expires_at {
        Some(t) => t <= now,
        None => false,
    }
}

/// The absolute expiration timestamp for a `set` at time `now` with the
/// given time-to-live, saturating at the largest representable time.
pub open spec fn expiry(now: u64, ttl: u64) -> u64 {
    if now + ttl <= u64::MAX {
        (now + ttl) as u64
    } else {
        u64::MAX
    }
}

/// The in-memory database. Its model is a map from keys (as character
/// sequences) to entry models. A side index of keys makes the periodic
/// sweep possible; it may hold stale keys, but always covers the map.
pub struct InMemoryDB {
    map: StringHashMap<Entry>,
    keys: Vec<String>,
}

impl View for InMemoryDB {
    type V = Map<Seq<char>, EntryModel>;

    closed spec fn view(&self) -> Map<Seq<char>, EntryModel> {
        Map::new(|k: Seq<char>| self.map@.contains_key(k), |k: Seq<char>| self.map@[k]@)
    }
}

impl InMemoryDB {
    /// Every key present in the map also appears in the key index.
    pub closed spec fn wf(&self) -> bool {
        forall|k: Seq<char>| #[trigger] self.map@.contains_key(k)
            ==> exists|i: int| 0 <= i < self.keys@.len() && self.keys@[i]@ == k
    }

    /// A store whose map lost entries but kept its key index stays
    /// well-formed.
    proof fn lemma_wf_after_shrink(&self, prev: &Self)
        requires
            prev.wf(),
            self.keys@ == prev.keys@,
            forall|k: Seq<char>| #[trigger] self.map@.contains_key(k)
                ==> prev.map@.contains_key(k),
        ensures
            self.wf(),
    {
        assert forall|k: Seq<char>| #[trigger] self.map@.contains_key(k)
            implies exists|i: int| 0 <= i < self.keys@.len() && self.keys@[i]@ == k by {
            assert(prev.map@.contains_key(k));
        }
    }

    /// Creates an empty store.
    pub fn new() -> (r: Self)
        ensures
            r.wf(),
            r@ == Map::<Seq<char>, EntryModel>::empty(),
    {
        let r = InMemoryDB { map: StringHashMap::new(), keys: Vec::new() };
        proof {
            assert(r@ =~= Map::<Seq<char>, EntryModel>::empty());
        }
        r
    }

    /// Inserts or overwrites the entry for `key`. With a time-to-live the
    /// entry expires at `now + ttl` (saturating); without one it never
    /// expires, clearing any earlier expiration policy on the key.
    pub fn set(&mut self, key: String, value: String, ttl: Option<u64>, now: u64)
        requires
            old(self).wf(),
        ensures
            final(self).wf(),
            final(self)@ == old(self)@.insert(key@, EntryModel {
                value: value@,
                expires_at: match ttl {
                    Some(d) => Some(expiry(now, d)),
                    None => None,
                },
            }),
    {
        let expires_at = match ttl {
            Some(d) => Some(now.saturating_add(d)),
            None => None,
        };
        let ghost k = key@;
        let ghost m = EntryModel { value: value@, expires_at };
        self.keys.push(key.clone());
        self.map.insert(key, Entry { value, expires_at });
        proof {
            assert(self@ =~= old(self)@.insert(k, m));
            assert forall|q: Seq<char>| #[trigger] self.map@.contains_key(q)
                implies exists|i: int| 0 <= i < self.keys@.len() && self.keys@[i]@ == q by {
                if q == k {
                    assert(self.keys@[self.keys@.len() - 1]@ == q);
                } else {
                    assert(old(self).map@.contains_key(q));
                    let i = choose|i: int| 0 <= i < old(self).keys@.len()
                        && old(self).keys@[i]@ == q;
                    assert(self.keys@[i]@ == q);
                }
            }
        }
    }

    /// Looks `key` up at time `now`. An absent key yields `None`. A present
    /// but expired entry is removed as a side effect and yields `None`. A
    /// live entry is returned as a copy and the store is unchanged.
    pub fn get(&mut self, key: &str, now: u64) -> (r: Option<String>)
        requires
            old(self).wf(),
        ensures
            final(self).wf(),
            match r {
                Some(v) => {
                    &&& old(self)@.contains_key(key@)
                    &&& !is_expired(old(self)@[key@], now)
                    &&& v@ == old(self)@[key@].value
                    &&& final(self)@ == old(self)@
                },
                None => {
                    &&& old(self)@.contains_key(key@)
                            ==> is_expired(old(self)@[key@], now)
                    &&& final(self)@ == old(self)@.remove(key@)
                },
            },
    {
        let entry = self.map.get(key);
        match entry {
            Some(e) => {
                let expired = match e.expires_at {
                    Some(t) => t <= now,
                    None => false,
                };
                if expired {
                    self.map.remove(key);
                    proof {
                        assert(self@ =~= old(self)@.remove(key@));
                        self.lemma_wf_after_shrink(old(self));
                    }
                    None
                } else {
                    let v = e.value.clone();
                    Some(v)
                }
            },
            None => {
                proof {
                    assert(self@ =~= old(self)@.remove(key@));
                }
                None
            },
        }
    }

    /// One tick of the periodic sweep: removes every entry whose
    /// expiration timestamp has passed at time `now`, and nothing else.
    pub fn sweep(&mut self, now: u64)
        requires
            old(self).wf(),
        ensures
            final(self).wf(),
            final(self)@ == swept(old(self)@, now),
    {
        let ghost m0 = self.map@;
        let n = self.keys.len();
        let mut i: usize = 0;
        while i < n
            invariant
                n == self.keys@.len(),
                i <= n,
                self.keys@ == old(self).keys@,
                m0 == old(self).map@,
                forall|k: Seq<char>| #[trigger] self.map@.contains_key(k)
                    ==> m0.contains_key(k) && self.map@[k] == m0[k],
                forall|k: Seq<char>| m0.contains_key(k) && !is_expired(m0[k]@, now)
                    ==> #[trigger] self.map@.contains_key(k),
                forall|j: int| 0 <= j < i
                    ==> #[trigger] not_expired_at(self.map@, self.keys@[j]@, now),
            decreases n - i,
        {
            let ghost mp = self.map@;
            let k = self.keys[i].clone();
            let e = self.map.get(k.as_str());
            let expired = match e {
                Some(en) => match en.expires_at {
                    Some(t) => t <= now,
                    None => false,
                },
                None => false,
            };
            if expired {
                self.map.remove(k.as_str());
            }
            proof {
                assert forall|j: int| 0 <= j < i + 1
                    implies #[trigger] not_expired_at(self.map@, self.keys@[j]@, now) by {
                    if j < i {
                        assert(not_expired_at(mp, self.keys@[j]@, now));
                        if self.map@.contains_key(self.keys@[j]@) {
                            assert(self.map@[self.keys@[j]@] == mp[self.keys@[j]@]);
                        }
                    }
                }
            }
            i += 1;
        }
        proof {
            assert(old(self).wf());
            assert forall|k: Seq<char>| #[trigger] self.map@.contains_key(k)
                implies m0.contains_key(k) && !is_expired(m0[k]@, now) by {
                let j = choose|j: int| 0 <= j < old(self).keys@.len()
                    && old(self).keys@[j]@ == k;
                assert(not_expired_at(self.map@, self.keys@[j]@, now));
            }
            assert(self@ =~= swept(old(self)@, now));
            self.lemma_wf_after_shrink(old(self));
        }
    }

    /// Removes the entry for `key` and reports whether a live entry was
    /// removed at time `now`. An already-expired entry counts as absent —
    /// the report does not distinguish the two — though it too is removed
    /// as a side effect.
    pub fn delete(&mut self, key: &str, now: u64) -> (r: bool)
        requires
            old(self).wf(),
        ensures
            final(self).wf(),
            r == (old(self)@.contains_key(key@) && !is_expired(old(self)@[key@], now)),
            final(self)@ == old(self)@.remove(key@),
    {
        let live = match self.map.get(key) {
            Some(e) => match e.expires_at {
                Some(t) => t > now,
                None => true,
            },
            None => false,
        };
        self.map.remove(key);
        proof {
            assert(self@ =~= old(self)@.remove(key@));
            self.lemma_wf_after_shrink(old(self));
        }
        live
    }
}

} // verus!
