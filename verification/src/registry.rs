//! The identity registry: the authoritative, immutable snapshot mapping
//! public keys to entities. One key maps to at most one entity; the set of
//! keys that have a mapping is exactly the registry's key pool. A reload
//! builds a brand-new snapshot and publishes it as a unit.

use vstd::prelude::*;

use crate::entity::Entity;

verus! {

/// Whether some entity in `es` carries the key `k`. The key pool of a
/// sequence of entities is exactly the set of keys satisfying this.
pub open spec fn has_key(es: Seq<Entity>, k: Seq<u8>) -> bool {
    exists|i: int| 0 <= i < es.len() && es[i]@.key == k
}

/// Whether the keys of `es` are pairwise distinct, so that each key
/// resolves to at most one entity.
pub open spec fn keys_distinct(es: Seq<Entity>) -> bool {
    forall|i: int, j: int| 0 <= i < j < es.len() ==> es[i]@.key != es[j]@.key
}

/// Whether `e` is the value of one of the entities in `es`.
pub open spec fn from_entities(es: Seq<Entity>, e: crate::entity::EntityV) -> bool {
    exists|j: int| #![auto] 0 <= j < es.len() && es[j]@ == e
}

/// An immutable registry snapshot: the entities known to the service,
/// with pairwise-distinct keys. Lookup by key and the key pool are both
/// derived from this one sequence, so the key-to-entity index and the
/// pool can never disagree.
pub struct Registry {
    pub entities: Vec<Entity>,
}

impl Registry {
    /// The snapshot's structural invariant: one key, one entity.
    pub open spec fn wf(&self) -> bool {
        keys_distinct(self.entities@)
    }

    /// Whether `k` is in the snapshot's key pool.
    pub open spec fn spec_has_key(&self, k: Seq<u8>) -> bool {
        has_key(self.entities@, k)
    }

    /// Builds a snapshot from the entities handed back by the backing
    /// store's load operation. Entities repeating an earlier key replace
    /// the earlier mapping, so the result maps each offered key to exactly
    /// one of the entities that carried it, and its pool is exactly the
    /// set of offered keys.
    pub fn new(entities: Vec<Entity>) -> (r: Registry)
        ensures
            r.wf(),
            forall|k: Seq<u8>| r.spec_has_key(k) <==> has_key(entities@, k),
            forall|i: int|
                0 <= i < r.entities@.len() ==> from_entities(
                    entities@,
                    #[trigger] r.entities@[i]@,
                ),
    {
        let mut out: Vec<Entity> = Vec::new();
        let n = entities.len();
        let mut idx: usize = 0;
        while idx < n
            invariant
                n == entities@.len(),
                idx <= n,
                keys_distinct(out@),
                forall|k: Seq<u8>| has_key(out@, k) <==> has_key(entities@.subrange(0, idx as int), k),
                forall|i: int|
                    0 <= i < out@.len() ==> from_entities(entities@, #[trigger] out@[i]@),
            decreases n - idx,
        {
            let ghost out0 = out@;
            let ghost kk = entities@[idx as int]@.key;
            let e = &entities[idx];
            let pos = find_key(&out, &e.key);
            match pos {
                Some(p) => {
                    out[p] = e.clone();
                }
                None => {
                    out.push(e.clone());
                }
            }
            proof {
                // Every key of the new `out` is an old key or the key just
                // taken in, and conversely.
                assert forall|k: Seq<u8>| has_key(out@, k) <==> (has_key(out0, k) || k == kk) by {
                    if has_key(out@, k) {
                        let i = choose|i: int| 0 <= i < out@.len() && out@[i]@.key == k;
                        if !(k == kk) {
                            match pos {
                                Some(p) => {
                                    assert(out@[i] == out0[i]);
                                    assert(has_key(out0, k));
                                }
                                None => {
                                    assert(i < out0.len());
                                    assert(has_key(out0, k));
                                }
                            }
                        }
                    }
                    if has_key(out0, k) {
                        let i = choose|i: int| 0 <= i < out0.len() && out0[i]@.key == k;
                        match pos {
                            Some(p) => {
                                if i == p {
                                    assert(out@[i]@.key == kk);
                                    assert(out0[p as int]@.key == kk);
                                } else {
                                    assert(out@[i]@.key == k);
                                }
                            }
                            None => {
                                assert(out@[i]@.key == k);
                            }
                        }
                    }
                    if k == kk {
                        match pos {
                            Some(p) => {
                                assert(out@[p as int]@.key == kk);
                            }
                            None => {
                                assert(out@.last()@.key == kk);
                            }
                        }
                    }
                }
                // The same, for the prefix of the input already taken in.
                let pre = entities@.subrange(0, idx as int);
                let cur = entities@.subrange(0, idx + 1);
                assert forall|k: Seq<u8>| has_key(pre, k) || k == kk implies has_key(cur, k) by {
                    if has_key(pre, k) {
                        let i = choose|i: int| 0 <= i < pre.len() && pre[i]@.key == k;
                        assert(cur[i]@.key == k);
                    } else {
                        assert(cur[idx as int]@.key == kk);
                    }
                }
                assert forall|k: Seq<u8>| has_key(cur, k) implies (has_key(pre, k) || k == kk) by {
                    let i = choose|i: int| 0 <= i < cur.len() && cur[i]@.key == k;
                    if i < idx {
                        assert(pre[i]@.key == k);
                    }
                }
                assert forall|k: Seq<u8>| has_key(out@, k) <==> has_key(cur, k) by {
                    assert(has_key(out0, k) <==> has_key(pre, k));
                    assert(has_key(out@, k) <==> (has_key(out0, k) || k == kk));
                    assert((has_key(pre, k) || k == kk) <==> has_key(cur, k));
                }
                // Distinctness: an update keeps the key it replaces, a push
                // adds a key that was absent.
                assert forall|i: int, j: int| 0 <= i < j < out@.len() implies
                    out@[i]@.key != out@[j]@.key by {
                    match pos {
                        Some(p) => {
                            assert(out0[p as int]@.key == kk);
                            if i == p {
                                assert(out@[j] == out0[j]);
                            } else if j == p {
                                assert(out@[i] == out0[i]);
                            } else {
                                assert(out@[i] == out0[i] && out@[j] == out0[j]);
                            }
                        }
                        None => {
                            if j == out@.len() - 1 {
                                assert(out@[i] == out0[i]);
                                assert(!has_key(out0, kk));
                                assert(out0[i]@.key != kk);
                            } else {
                                assert(out@[i] == out0[i] && out@[j] == out0[j]);
                            }
                        }
                    }
                }
                assert forall|i: int| 0 <= i < out@.len() implies
                    from_entities(entities@, #[trigger] out@[i]@) by {
                    match pos {
                        Some(p) => {
                            if i != p {
                                assert(out@[i] == out0[i]);
                            } else {
                                assert(out@[i]@ == entities@[idx as int]@);
                            }
                        }
                        None => {
                            if i < out0.len() {
                                assert(out@[i] == out0[i]);
                            } else {
                                assert(out@[i]@ == entities@[idx as int]@);
                            }
                        }
                    }
                }
            }
            idx += 1;
        }
        proof {
            assert(entities@.subrange(0, n as int) =~= entities@);
        }
        Registry { entities: out }
    }

    /// Pure read: resolves a key to the entity it is bound to, if any.
    /// Returns `Some` exactly when the key is in the pool, and the entity
    /// returned carries that key.
    pub fn lookup(&self, key: &Vec<u8>) -> (r: Option<&Entity>)
        ensures
            match r {
                Some(e) => {
                    &&& self.spec_has_key(key@)
                    &&& e@.key == key@
                    &&& from_entities(self.entities@, e@)
                },
                None => !self.spec_has_key(key@),
            },
    {
        let n = self.entities.len();
        let mut idx: usize = 0;
        while idx < n
            invariant
                n == self.entities@.len(),
                idx <= n,
                forall|i: int| 0 <= i < idx ==> self.entities@[i]@.key != key@,
            decreases n - idx,
        {
            if keys_equal(&self.entities[idx].key, key) {
                return Some(&self.entities[idx]);
            }
            idx += 1;
        }
        None
    }
}

/// Index of the entity carrying key `k` in `es`, if any.
pub(crate) fn find_key(es: &Vec<Entity>, k: &Vec<u8>) -> (r: Option<usize>)
    ensures
        match r {
            Some(p) => p < es@.len() && es@[p as int]@.key == k@,
            None => !has_key(es@, k@),
        },
{
    let n = es.len();
    let mut idx: usize = 0;
    while idx < n
        invariant
            n == es@.len(),
            idx <= n,
            forall|i: int| 0 <= i < idx ==> es@[i]@.key != k@,
        decreases n - idx,
    {
        if keys_equal(&es[idx].key, k) {
            return Some(idx);
        }
        idx += 1;
    }
    None
}

/// Byte-comparison of two pieces of public-key material.
pub fn keys_equal(a: &Vec<u8>, b: &Vec<u8>) -> (r: bool)
    ensures
        r <==> a@ == b@,
{
    if a.len() != b.len() {
        return false;
    }
    let n = a.len();
    let mut idx: usize = 0;
    while idx < n
        invariant
            n == a@.len(),
            n == b@.len(),
            idx <= n,
            forall|i: int| 0 <= i < idx ==> a@[i] == b@[i],
        decreases n - idx,
    {
        if a[idx] != b[idx] {
            return false;
        }
        idx += 1;
    }
    proof {
        assert(a@ =~= b@);
    }
    true
}

} // verus!
