//! An executable model of the host's shared key-value store: a process-wide
//! map whose every read returns the value together with an opaque version
//! token, and whose every write must present the token it read. A write is
//! accepted only while the stored version is still the one the token names —
//! optimistic concurrency by compare-and-swap. The consumer's counter
//! protocol is verified against this model; the host's real store offers the
//! same read/compare-and-swap interface.

use vstd::prelude::*;
use crate::bytes::bytes_eq;
use crate::bytes::push_all;

verus! {

/// One stored entry: a key, its current value, and its current version.
pub struct StoreEntry {
    pub key: Vec<u8>,
    pub value: Vec<u8>,
    pub version: u64,
}

/// The versioned key-value store.
pub struct SharedStore {
    entries: Vec<StoreEntry>,
}

/// The first entry for `key`, scanning from the front.
spec fn find_at(s: Seq<StoreEntry>, key: Seq<u8>) -> Option<(Seq<u8>, u64)>
    decreases s.len(),
{
    if s.len() == 0 {
        Option::None
    } else if s[0].key@ == key {
        Option::Some((s[0].value@, s[0].version))
    } else {
        find_at(s.skip(1), key)
    }
}

proof fn lemma_find_skip(s: Seq<StoreEntry>, key: Seq<u8>, i: int)
    requires
        0 <= i < s.len(),
        s[i].key@ != key,
    ensures
        find_at(s.skip(i), key) == find_at(s.skip(i + 1), key),
{
    assert(s.skip(i).len() > 0);
    assert(s.skip(i)[0] == s[i]);
    assert(s.skip(i).skip(1) =~= s.skip(i + 1));
}

proof fn lemma_find_push(s: Seq<StoreEntry>, e: StoreEntry, key: Seq<u8>)
    ensures
        find_at(s.push(e), key) == (if find_at(s, key) is Some {
            find_at(s, key)
        } else if key == e.key@ {
            Option::Some((e.value@, e.version))
        } else {
            Option::<(Seq<u8>, u64)>::None
        }),
    decreases s.len(),
{
    if s.len() == 0 {
        assert(s.push(e)[0] == e);
        assert(s.push(e).skip(1) =~= Seq::<StoreEntry>::empty());
        assert(find_at(s, key) is None);
        if key == e.key@ {
            assert(find_at(s.push(e), key) == Option::Some((e.value@, e.version)));
        } else {
            assert(find_at(s.push(e), key) == find_at(s.push(e).skip(1), key));
        }
    } else {
        assert(s.push(e)[0] == s[0]);
        assert(s.push(e).skip(1) =~= s.skip(1).push(e));
        lemma_find_push(s.skip(1), e, key);
        if s[0].key@ != key {
            assert(find_at(s.push(e), key) == find_at(s.skip(1).push(e), key));
            assert(find_at(s, key) == find_at(s.skip(1), key));
        }
    }
}

proof fn lemma_find_update(s: Seq<StoreEntry>, i: int, e: StoreEntry, k2: Seq<u8>)
    requires
        0 <= i < s.len(),
        forall|j: int| 0 <= j < i ==> (#[trigger] s[j]).key@ != s[i].key@,
        e.key@ == s[i].key@,
    ensures
        find_at(s.update(i, e), s[i].key@) == Option::Some((e.value@, e.version)),
        k2 != s[i].key@ ==> find_at(s.update(i, e), k2) == find_at(s, k2),
    decreases i,
{
    if i == 0 {
        assert(s.update(0, e)[0] == e);
        assert(s.update(0, e).skip(1) =~= s.skip(1));
    } else {
        assert(s.update(i, e)[0] == s[0]);
        assert(s[0].key@ != s[i].key@);
        assert(s.update(i, e).skip(1) =~= s.skip(1).update(i - 1, e));
        assert(s.skip(1)[i - 1] == s[i]);
        assert forall|j: int| 0 <= j < i - 1 implies (#[trigger] s.skip(1)[j]).key@ != s.skip(
            1,
        )[i - 1].key@ by {
            assert(s.skip(1)[j] == s[j + 1]);
        }
        lemma_find_update(s.skip(1), i - 1, e, k2);
    }
}

impl SharedStore {
    /// What the store holds for `key`: its value and version, if present.
    pub closed spec fn spec_get(self, key: Seq<u8>) -> Option<(Seq<u8>, u64)> {
        find_at(self.entries@, key)
    }

    /// The version token a read of `key` hands out: zero names an absent key.
    pub open spec fn spec_version(self, key: Seq<u8>) -> u64 {
        match self.spec_get(key) {
            Option::None => 0,
            Option::Some(p) => p.1,
        }
    }

    /// The value stored under `key`, if present.
    pub open spec fn spec_value(self, key: Seq<u8>) -> Option<Seq<u8>> {
        match self.spec_get(key) {
            Option::None => Option::None,
            Option::Some(p) => Option::Some(p.0),
        }
    }

    /// An empty store.
    pub fn new() -> (r: SharedStore)
        ensures
            forall|k: Seq<u8>| r.spec_get(k) is None,
    {
        SharedStore { entries: Vec::new() }
    }

    /// Finds the first entry for `key`; callers see its position's contract
    /// through `spec_get`.
    fn find(&self, key: &Vec<u8>) -> (r: Option<usize>)
        ensures
            r matches Some(i) ==> i < self.entries@.len() && self.entries@[i as int].key@ == key@
                && self.spec_get(key@) == Option::Some(
                (self.entries@[i as int].value@, self.entries@[i as int].version),
            ) && (forall|j: int| 0 <= j < i ==> (#[trigger] self.entries@[j]).key@ != key@),
            r is None ==> self.spec_get(key@) is None,
    {
        proof {
            assert(self.entries@.skip(0) =~= self.entries@);
        }
        let mut i: usize = 0;
        while i < self.entries.len()
            invariant
                i <= self.entries@.len(),
                find_at(self.entries@, key@) == find_at(self.entries@.skip(i as int), key@),
                forall|j: int| 0 <= j < i ==> (#[trigger] self.entries@[j]).key@ != key@,
            decreases self.entries@.len() - i,
        {
            if bytes_eq(&self.entries[i].key, key) {
                proof {
                    assert(self.entries@.skip(i as int)[0] == self.entries@[i as int]);
                }
                return Some(i);
            }
            proof {
                lemma_find_skip(self.entries@, key@, i as int);
            }
            i = i + 1;
        }
        proof {
            assert(self.entries@.skip(i as int) =~= Seq::<StoreEntry>::empty());
        }
        None
    }

    /// Reads `key`: the stored value, if any, and the version token that a
    /// later conditional write of `key` must present.
    pub fn read(&self, key: &Vec<u8>) -> (r: (Option<Vec<u8>>, u64))
        ensures
            self.spec_get(key@) is None ==> r.0 is None && r.1 == 0,
            self.spec_get(key@) matches Some(p) ==> (r.0 matches Some(b) && b@ == p.0 && r.1
                == p.1),
    {
        match self.find(key) {
            Some(i) => {
                let mut copy: Vec<u8> = Vec::new();
                push_all(&mut copy, &self.entries[i].value);
                let version = self.entries[i].version;
                (Some(copy), version)
            },
            None => (None, 0),
        }
    }

    /// The conditional write: accepted exactly when `token` still names the
    /// stored version of `key` (zero for an absent key) and the version
    /// space is not exhausted. On acceptance the value is replaced and the
    /// version moves past the token; on refusal nothing changes. No other
    /// key is ever touched.
    pub fn write(&mut self, key: Vec<u8>, value: Vec<u8>, token: u64) -> (ok: bool)
        ensures
            ok == (token == old(self).spec_version(key@) && token < u64::MAX),
            ok ==> final(self).spec_get(key@) == Option::Some((value@, (token + 1) as u64)),
            !ok ==> *final(self) == *old(self),
            forall|k2: Seq<u8>| k2 != key@ ==> final(self).spec_get(k2) == old(self).spec_get(k2),
    {
        match self.find(&key) {
            Some(i) => {
                let current = self.entries[i].version;
                if token != current || token == u64::MAX {
                    return false;
                }
                let ghost entries0 = self.entries@;
                let e = StoreEntry { key, value, version: current + 1 };
                let ghost ge = e;
                let ghost k = e.key@;
                self.entries.set(i, e);
                proof {
                    lemma_find_update(entries0, i as int, ge, k);
                    assert forall|k2: Seq<u8>| k2 != k implies find_at(self.entries@, k2)
                        == find_at(entries0, k2) by {
                        lemma_find_update(entries0, i as int, ge, k2);
                    }
                }
                true
            },
            None => {
                if token != 0 {
                    return false;
                }
                let ghost entries0 = self.entries@;
                let e = StoreEntry { key, value, version: 1 };
                let ghost ge = e;
                let ghost k = e.key@;
                self.entries.push(e);
                proof {
                    lemma_find_push(entries0, ge, k);
                    assert forall|k2: Seq<u8>| k2 != k implies find_at(self.entries@, k2)
                        == find_at(entries0, k2) by {
                        lemma_find_push(entries0, ge, k2);
                    }
                }
                true
            },
        }
    }
}

} // verus!
