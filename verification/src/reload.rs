//! The reload coordinator: an elevated-tier session can have the registry
//! re-read from the backing store. The new snapshot is diffed against the
//! old one; sessions authenticated under a key that vanished (stray keys)
//! are revoked, and only if every revocation succeeded is the new snapshot
//! committed — as a single unit, never half-applied. A session that was
//! already forced off stays off even when the commit is abandoned, but the
//! registry then remains the old one, and the ids that could not be
//! revoked are reported, never silently dropped.
//!
//! The forced disconnects themselves are transport work done outside this
//! crate: the caller asks for the plan, performs the disconnects, and
//! hands back the ids that failed.

use vstd::prelude::*;

use crate::entity::Entity;
use crate::registry::{find_key, from_entities, has_key, Registry};
use crate::session::{
    pair_matched, rev_ids_distinct, session_ids_distinct, session_indexed, RevPair, SessionRec,
};
use crate::state::ServerState;
use crate::manager::find_session;

verus! {

broadcast use vstd::seq_lib::group_filter_ensures;

/// What can go wrong around a reload: the backing store cannot be read or
/// parsed, or forced disconnects failed for the listed session ids and the
/// new snapshot was therefore not committed.
pub enum ChatError {
    StoreUnavailable,
    StoreMalformed,
    RevocationFailed(Vec<usize>),
}

/// The session records that survive a reload given the newly loaded
/// entities and the ids whose forced disconnect failed: a session stays
/// exactly when its key is still in the new pool, or it could not be
/// disconnected (it then stays live under the retained old snapshot).
pub open spec fn surviving_sessions(
    s: Seq<SessionRec>,
    new_entities: Seq<Entity>,
    failed: Seq<usize>,
) -> Seq<SessionRec> {
    s.filter(|rec: SessionRec| has_key(new_entities, rec.entity@.key) || failed.contains(rec.id))
}

/// The reverse-index edges that survive a reload, by the same rule.
pub open spec fn surviving_pairs(
    r: Seq<RevPair>,
    new_entities: Seq<Entity>,
    failed: Seq<usize>,
) -> Seq<RevPair> {
    r.filter(|pr: RevPair| has_key(new_entities, pr.key@) || failed.contains(pr.id))
}

/// Whether some live record in `s` carries id `id` and a key absent from
/// the newly loaded entities — a session a reload must revoke.
pub open spec fn stray_session_id(
    s: Seq<SessionRec>,
    new_entities: Seq<Entity>,
    id: usize,
) -> bool {
    exists|j: int| #![auto]
        0 <= j < s.len() && s[j].id == id && !has_key(new_entities, s[j].entity@.key)
}

/// Whether `v` lists the id `id`.
fn contains_id(v: &Vec<usize>, id: usize) -> (r: bool)
    ensures
        r <==> v@.contains(id),
{
    let n = v.len();
    let mut i: usize = 0;
    while i < n
        invariant
            n == v@.len(),
            i <= n,
            forall|j: int| 0 <= j < i ==> v@[j] != id,
        decreases n - i,
    {
        if v[i] == id {
            return true;
        }
        i += 1;
    }
    false
}

/// An owned copy of a list of session ids.
fn copy_ids(v: &Vec<usize>) -> (r: Vec<usize>)
    ensures
        r@ == v@,
{
    let n = v.len();
    let mut r: Vec<usize> = Vec::new();
    let mut i: usize = 0;
    while i < n
        invariant
            n == v@.len(),
            i <= n,
            r@.len() == i,
            forall|j: int| 0 <= j < i ==> r@[j] == v@[j],
        decreases n - i,
    {
        r.push(v[i]);
        i += 1;
    }
    proof {
        assert(r@ =~= v@);
    }
    r
}

impl ServerState {
    /// Whether the session `id` may trigger a reload: only a live session
    /// bound to an elevated entity may. A standard session's request is a
    /// no-op, not an error.
    pub fn reload_allowed(&self, id: usize) -> (r: bool)
        requires
            self.wf(),
        ensures
            r <==> exists|i: int| #![auto]
                0 <= i < self.sessions@.len() && self.sessions@[i].id == id
                    && self.sessions@[i].entity@.role is Elevated,
    {
        match find_session(&self.sessions, id) {
            Some(p) => {
                let el = match self.sessions[p].entity.role {
                    crate::entity::Role::Elevated => true,
                    crate::entity::Role::Standard => false,
                };
                proof {
                    if !el {
                        if exists|i: int| #![auto]
                            0 <= i < self.sessions@.len() && self.sessions@[i].id == id
                                && self.sessions@[i].entity@.role is Elevated {
                            let i = choose|i: int| #![auto]
                                0 <= i < self.sessions@.len() && self.sessions@[i].id == id
                                    && self.sessions@[i].entity@.role is Elevated;
                            assert(i == p as int);
                        }
                    }
                }
                el
            }
            None => false,
        }
    }

    /// The revocation plan of a reload: the ids of every live session
    /// whose key is stray — present before, absent from the newly loaded
    /// entities. Walks the reverse index; because the index lists each id
    /// exactly once, each victim appears exactly once, so a session is
    /// revoked at most once even if its key is listed repeatedly.
    pub fn reload_plan(&self, new_entities: &Vec<Entity>) -> (victims: Vec<usize>)
        requires
            self.wf(),
        ensures
            victims@.no_duplicates(),
            forall|a: int| #![trigger victims@[a]]
                0 <= a < victims@.len() ==> stray_session_id(
                    self.sessions@,
                    new_entities@,
                    victims@[a],
                ),
            forall|j: int| #![auto]
                0 <= j < self.sessions@.len() && !has_key(
                    new_entities@,
                    self.sessions@[j].entity@.key,
                ) ==> victims@.contains(self.sessions@[j].id),
    {
        let mut victims: Vec<usize> = Vec::new();
        let n = self.rev.len();
        let mut i: usize = 0;
        while i < n
            invariant
                self.wf(),
                n == self.rev@.len(),
                i <= n,
                forall|a: int| #![trigger victims@[a]]
                    0 <= a < victims@.len() ==> exists|i0: int| #![auto]
                        0 <= i0 < i && self.rev@[i0].id == victims@[a] && !has_key(
                            new_entities@,
                            self.rev@[i0].key@,
                        ),
                forall|i0: int| #![auto]
                    0 <= i0 < i && !has_key(new_entities@, self.rev@[i0].key@)
                        ==> victims@.contains(self.rev@[i0].id),
                forall|a: int, b: int| 0 <= a < b < victims@.len() ==> victims@[a] != victims@[b],
            decreases n - i,
        {
            let ghost v0 = victims@;
            if find_key(new_entities, &self.rev[i].key).is_none() {
                victims.push(self.rev[i].id);
                proof {
                    assert forall|a: int, b: int| 0 <= a < b < victims@.len() implies victims@[a]
                        != victims@[b] by {
                        if b == victims@.len() - 1 {
                            let i0 = choose|i0: int| #![auto]
                                0 <= i0 < i && self.rev@[i0].id == v0[a] && !has_key(
                                    new_entities@,
                                    self.rev@[i0].key@,
                                );
                            assert(self.rev@[i0].id != self.rev@[i as int].id);
                        }
                    }
                    assert forall|i0: int| #![auto]
                        0 <= i0 < i + 1 && !has_key(new_entities@, self.rev@[i0].key@)
                            implies victims@.contains(self.rev@[i0].id) by {
                        if i0 < i {
                            assert(v0.contains(self.rev@[i0].id));
                            let w = choose|w: int| 0 <= w < v0.len() && v0[w] == self.rev@[i0].id;
                            assert(victims@[w] == self.rev@[i0].id);
                        } else {
                            assert(victims@[victims@.len() - 1] == self.rev@[i as int].id);
                        }
                    }
                }
            }
            i += 1;
        }
        proof {
            assert forall|a: int| #![trigger victims@[a]] 0 <= a < victims@.len() implies
                stray_session_id(self.sessions@, new_entities@, victims@[a]) by {
                let va = victims@[a];
                assert(exists|i0: int| #![auto]
                    0 <= i0 < i && self.rev@[i0].id == va && !has_key(
                        new_entities@,
                        self.rev@[i0].key@,
                    ));
                let i0 = choose|i0: int| #![auto]
                    0 <= i0 < i && self.rev@[i0].id == va && !has_key(
                        new_entities@,
                        self.rev@[i0].key@,
                    );
                assert(pair_matched(self.rev@[i0], self.sessions@));
                let j = choose|j: int|
                    0 <= j < self.sessions@.len() && self.sessions@[j].id == self.rev@[i0].id
                        && self.sessions@[j].entity@.key == self.rev@[i0].key@;
                assert(0 <= j < self.sessions@.len() && self.sessions@[j].id == va
                    && !has_key(new_entities@, self.sessions@[j].entity@.key));
                assert(stray_session_id(self.sessions@, new_entities@, va));
            }
            assert forall|j: int| #![auto]
                0 <= j < self.sessions@.len() && !has_key(
                    new_entities@,
                    self.sessions@[j].entity@.key,
                ) implies victims@.contains(self.sessions@[j].id) by {
                assert(session_indexed(self.sessions@[j], self.rev@));
                let i0 = choose|i0: int|
                    0 <= i0 < self.rev@.len() && self.rev@[i0].id == self.sessions@[j].id
                        && self.rev@[i0].key@ == self.sessions@[j].entity@.key;
                assert(victims@.contains(self.rev@[i0].id));
            }
            assert(victims@.no_duplicates());
        }
        victims
    }

    /// Finishes a reload after the caller has force-disconnected the
    /// planned victims: drops every stray session that was actually
    /// disconnected, and commits the new snapshot — registry, key-to-entity
    /// index and key pool, all derived from the one new entity sequence —
    /// if and only if every revocation succeeded (`failed` is empty).
    /// Otherwise the old snapshot stays authoritative, untouched, and the
    /// ids that could not be revoked are reported back. The history and
    /// sessions with valid keys are never affected either way.
    pub fn reload_apply(&mut self, new_entities: Vec<Entity>, failed: &Vec<usize>) -> (r: Result<
        (),
        ChatError,
    >)
        requires
            old(self).wf(),
        ensures
            final(self).wf(),
            r is Ok <==> failed@.len() == 0,
            (r matches Err(e) ==> e matches ChatError::RevocationFailed(ids) && ids@ == failed@),
            final(self).history == old(self).history,
            final(self).next_id == old(self).next_id,
            final(self).sessions@ == surviving_sessions(old(self).sessions@, new_entities@, failed@),
            final(self).rev@ == surviving_pairs(old(self).rev@, new_entities@, failed@),
            failed@.len() == 0 ==> {
                &&& forall|k: Seq<u8>| final(self).registry.spec_has_key(k) <==> has_key(
                    new_entities@,
                    k,
                )
                &&& forall|i: int|
                    0 <= i < final(self).registry.entities@.len() ==> from_entities(
                        new_entities@,
                        #[trigger] final(self).registry.entities@[i]@,
                    )
                &&& forall|i: int| #![auto]
                    0 <= i < final(self).sessions@.len() ==> has_key(
                        new_entities@,
                        final(self).sessions@[i].entity@.key,
                    )
            },
            failed@.len() > 0 ==> final(self).registry == old(self).registry,
    {
        let ghost olds = self.sessions@;
        let ghost oldr = self.rev@;
        // Drop the revoked session records, keeping the original order.
        let mut kept: Vec<SessionRec> = Vec::new();
        proof {
            assert(self.sessions@ =~= olds.subrange(0, olds.len() as int));
            assert(surviving_sessions(olds.subrange(olds.len() as int, olds.len() as int), new_entities@, failed@)
                =~= Seq::<SessionRec>::empty());
        }
        while self.sessions.len() > 0
            invariant
                self.registry == old(self).registry,
                self.rev == old(self).rev,
                self.history == old(self).history,
                self.next_id == old(self).next_id,
                self.sessions@ == olds.subrange(0, self.sessions@.len() as int),
                self.sessions@.len() <= olds.len(),
                kept@ == surviving_sessions(
                    olds.subrange(self.sessions@.len() as int, olds.len() as int),
                    new_entities@,
                    failed@,
                ),
            decreases self.sessions@.len(),
        {
            let ghost m = self.sessions@.len() as int;
            let s = self.sessions.pop().unwrap();
            proof {
                assert(s == olds[m - 1]);
                assert(self.sessions@ =~= olds.subrange(0, m - 1));
            }
            let keep = find_key(&new_entities, &s.entity.key).is_some() || contains_id(
                failed,
                s.id,
            );
            proof {
                let suffix = olds.subrange(m, olds.len() as int);
                let suffix1 = olds.subrange(m - 1, olds.len() as int);
                assert(suffix1 =~= seq![s] + suffix);
                lemma_filter_one_more_session(s, suffix, new_entities@, failed@);
            }
            if keep {
                kept.insert(0, s);
                proof {
                    assert(kept@ =~= seq![olds[m - 1]] + surviving_sessions(
                        olds.subrange(m, olds.len() as int),
                        new_entities@,
                        failed@,
                    ));
                }
            }
        }
        proof {
            assert(olds.subrange(0, olds.len() as int) =~= olds);
        }
        self.sessions = kept;
        // The same for the reverse index.
        let mut keptr: Vec<RevPair> = Vec::new();
        proof {
            assert(self.rev@ =~= oldr.subrange(0, oldr.len() as int));
            assert(surviving_pairs(oldr.subrange(oldr.len() as int, oldr.len() as int), new_entities@, failed@)
                =~= Seq::<RevPair>::empty());
        }
        while self.rev.len() > 0
            invariant
                self.registry == old(self).registry,
                self.sessions@ == surviving_sessions(olds, new_entities@, failed@),
                self.history == old(self).history,
                self.next_id == old(self).next_id,
                self.rev@ == oldr.subrange(0, self.rev@.len() as int),
                self.rev@.len() <= oldr.len(),
                keptr@ == surviving_pairs(
                    oldr.subrange(self.rev@.len() as int, oldr.len() as int),
                    new_entities@,
                    failed@,
                ),
            decreases self.rev@.len(),
        {
            let ghost m = self.rev@.len() as int;
            let pr = self.rev.pop().unwrap();
            proof {
                assert(pr == oldr[m - 1]);
                assert(self.rev@ =~= oldr.subrange(0, m - 1));
            }
            let keep = find_key(&new_entities, &pr.key).is_some() || contains_id(failed, pr.id);
            proof {
                let suffix = oldr.subrange(m, oldr.len() as int);
                let suffix1 = oldr.subrange(m - 1, oldr.len() as int);
                assert(suffix1 =~= seq![pr] + suffix);
                lemma_filter_one_more_pair(pr, suffix, new_entities@, failed@);
            }
            if keep {
                keptr.insert(0, pr);
                proof {
                    assert(keptr@ =~= seq![oldr[m - 1]] + surviving_pairs(
                        oldr.subrange(m, oldr.len() as int),
                        new_entities@,
                        failed@,
                    ));
                }
            }
        }
        proof {
            assert(oldr.subrange(0, oldr.len() as int) =~= oldr);
        }
        self.rev = keptr;
        proof {
            lemma_surviving_state_wf(*old(self), *self, new_entities@, failed@);
        }
        // Commit the new snapshot only if every revocation succeeded.
        if failed.len() == 0 {
            self.registry = Registry::new(new_entities);
            proof {
                assert forall|i: int| #![auto] 0 <= i < self.sessions@.len() implies has_key(
                    new_entities@,
                    self.sessions@[i].entity@.key,
                ) by {
                    assert(!failed@.contains(self.sessions@[i].id));
                }
            }
            Ok(())
        } else {
            Err(ChatError::RevocationFailed(copy_ids(failed)))
        }
    }
}

/// Law: a fully successful reload (no failed revocation) leaves no session
/// bound to a stray key — every survivor's key is in the new pool — and
/// tears each revoked session down exactly once: the survivors still carry
/// pairwise-distinct ids, so no record was removed twice or kept twice,
/// however often its key was listed in the reverse index.
pub proof fn lemma_reload_revokes_strays_once(s: Seq<SessionRec>, new_entities: Seq<Entity>)
    requires
        session_ids_distinct(s),
    ensures
        forall|i: int| #![auto]
            0 <= i < surviving_sessions(s, new_entities, Seq::<usize>::empty()).len()
                ==> has_key(
                new_entities,
                surviving_sessions(s, new_entities, Seq::<usize>::empty())[i].entity@.key,
            ),
        session_ids_distinct(surviving_sessions(s, new_entities, Seq::<usize>::empty())),
{
    lemma_surviving_sessions_distinct(s, new_entities, Seq::<usize>::empty());
    let surv = surviving_sessions(s, new_entities, Seq::<usize>::empty());
    assert forall|i: int| #![auto] 0 <= i < surv.len() implies has_key(
        new_entities,
        surv[i].entity@.key,
    ) by {
        assert(!Seq::<usize>::empty().contains(surv[i].id));
    }
}

/// Unrolls the survivors of one more record at the front of a suffix.
proof fn lemma_filter_one_more_session(
    s: SessionRec,
    rest: Seq<SessionRec>,
    new_entities: Seq<Entity>,
    failed: Seq<usize>,
)
    ensures
        surviving_sessions(seq![s] + rest, new_entities, failed) == if has_key(
            new_entities,
            s.entity@.key,
        ) || failed.contains(s.id) {
            seq![s] + surviving_sessions(rest, new_entities, failed)
        } else {
            surviving_sessions(rest, new_entities, failed)
        },
    decreases rest.len(),
{
    reveal(Seq::filter);
    let cond = has_key(new_entities, s.entity@.key) || failed.contains(s.id);
    if rest.len() == 0 {
        assert((seq![s] + rest) =~= seq![s]);
        assert(seq![s].drop_last() =~= Seq::<SessionRec>::empty());
        assert(surviving_sessions(Seq::<SessionRec>::empty(), new_entities, failed)
            =~= Seq::<SessionRec>::empty());
        if cond {
            assert(surviving_sessions(seq![s], new_entities, failed) =~= seq![s]);
            assert((seq![s] + surviving_sessions(rest, new_entities, failed)) =~= seq![s]);
        } else {
            assert(surviving_sessions(seq![s], new_entities, failed)
                =~= Seq::<SessionRec>::empty());
        }
    } else {
        let whole = seq![s] + rest;
        assert(whole.drop_last() =~= seq![s] + rest.drop_last());
        lemma_filter_one_more_session(s, rest.drop_last(), new_entities, failed);
        assert(whole.last() == rest.last());
        let fr = surviving_sessions(rest.drop_last(), new_entities, failed);
        if cond {
            assert((seq![s] + fr).push(rest.last()) =~= seq![s] + fr.push(rest.last()));
        }
    }
}

/// Unrolls the survivors of one more edge at the front of a suffix.
proof fn lemma_filter_one_more_pair(
    pr: RevPair,
    rest: Seq<RevPair>,
    new_entities: Seq<Entity>,
    failed: Seq<usize>,
)
    ensures
        surviving_pairs(seq![pr] + rest, new_entities, failed) == if has_key(new_entities, pr.key@)
            || failed.contains(pr.id) {
            seq![pr] + surviving_pairs(rest, new_entities, failed)
        } else {
            surviving_pairs(rest, new_entities, failed)
        },
    decreases rest.len(),
{
    reveal(Seq::filter);
    let cond = has_key(new_entities, pr.key@) || failed.contains(pr.id);
    if rest.len() == 0 {
        assert((seq![pr] + rest) =~= seq![pr]);
        assert(seq![pr].drop_last() =~= Seq::<RevPair>::empty());
        assert(surviving_pairs(Seq::<RevPair>::empty(), new_entities, failed)
            =~= Seq::<RevPair>::empty());
        if cond {
            assert(surviving_pairs(seq![pr], new_entities, failed) =~= seq![pr]);
            assert((seq![pr] + surviving_pairs(rest, new_entities, failed)) =~= seq![pr]);
        } else {
            assert(surviving_pairs(seq![pr], new_entities, failed)
                =~= Seq::<RevPair>::empty());
        }
    } else {
        let whole = seq![pr] + rest;
        assert(whole.drop_last() =~= seq![pr] + rest.drop_last());
        lemma_filter_one_more_pair(pr, rest.drop_last(), new_entities, failed);
        assert(whole.last() == rest.last());
        let fr = surviving_pairs(rest.drop_last(), new_entities, failed);
        if cond {
            assert((seq![pr] + fr).push(rest.last()) =~= seq![pr] + fr.push(rest.last()));
        }
    }
}

/// The elements of the surviving sequences are elements of the originals.
proof fn lemma_surviving_elems(
    s: Seq<SessionRec>,
    r: Seq<RevPair>,
    new_entities: Seq<Entity>,
    failed: Seq<usize>,
)
    ensures
        forall|i: int|
            0 <= i < surviving_sessions(s, new_entities, failed).len() ==> s.contains(
                #[trigger] surviving_sessions(s, new_entities, failed)[i],
            ),
        forall|i: int|
            0 <= i < surviving_pairs(r, new_entities, failed).len() ==> r.contains(
                #[trigger] surviving_pairs(r, new_entities, failed)[i],
            ),
    decreases s.len() + r.len(),
{
    reveal(Seq::filter);
    if s.len() > 0 {
        lemma_surviving_elems(s.drop_last(), r, new_entities, failed);
        assert forall|i: int|
            0 <= i < surviving_sessions(s, new_entities, failed).len() implies s.contains(
            #[trigger] surviving_sessions(s, new_entities, failed)[i],
        ) by {
            let surv = surviving_sessions(s, new_entities, failed);
            let prev = surviving_sessions(s.drop_last(), new_entities, failed);
            if i < prev.len() {
                assert(prev[i] == surv[i]);
                assert(s.drop_last().contains(prev[i]));
                let j = choose|j: int| 0 <= j < s.drop_last().len() && s.drop_last()[j] == prev[i];
                assert(s[j] == prev[i]);
            } else {
                assert(surv[i] == s.last());
            }
        }
    } else if r.len() > 0 {
        lemma_surviving_elems(s, r.drop_last(), new_entities, failed);
        assert forall|i: int|
            0 <= i < surviving_pairs(r, new_entities, failed).len() implies r.contains(
            #[trigger] surviving_pairs(r, new_entities, failed)[i],
        ) by {
            let surv = surviving_pairs(r, new_entities, failed);
            let prev = surviving_pairs(r.drop_last(), new_entities, failed);
            if i < prev.len() {
                assert(prev[i] == surv[i]);
                assert(r.drop_last().contains(prev[i]));
                let j = choose|j: int| 0 <= j < r.drop_last().len() && r.drop_last()[j] == prev[i];
                assert(r[j] == prev[i]);
            } else {
                assert(surv[i] == r.last());
            }
        }
    }
}

/// Filtering the session table cannot make two records share an id.
proof fn lemma_surviving_sessions_distinct(
    s: Seq<SessionRec>,
    new_entities: Seq<Entity>,
    failed: Seq<usize>,
)
    requires
        session_ids_distinct(s),
    ensures
        session_ids_distinct(surviving_sessions(s, new_entities, failed)),
    decreases s.len(),
{
    reveal(Seq::filter);
    if s.len() > 0 {
        let pre = s.drop_last();
        assert(session_ids_distinct(pre));
        lemma_surviving_sessions_distinct(pre, new_entities, failed);
        lemma_surviving_elems(pre, Seq::<RevPair>::empty(), new_entities, failed);
        let fs = surviving_sessions(s, new_entities, failed);
        let fp = surviving_sessions(pre, new_entities, failed);
        assert forall|i: int, j: int| 0 <= i < j < fs.len() implies fs[i].id != fs[j].id by {
            if j < fp.len() {
                assert(fs[i] == fp[i] && fs[j] == fp[j]);
            } else {
                assert(fs[j] == s.last());
                assert(fs[i] == fp[i]);
                assert(pre.contains(fp[i]));
                let w = choose|w: int| 0 <= w < pre.len() && pre[w] == fp[i];
                assert(s[w] == fp[i]);
                assert(s[w].id != s[s.len() - 1].id);
            }
        }
    }
}

/// Filtering the reverse index cannot make two edges share an id.
proof fn lemma_surviving_pairs_distinct(
    r: Seq<RevPair>,
    new_entities: Seq<Entity>,
    failed: Seq<usize>,
)
    requires
        rev_ids_distinct(r),
    ensures
        rev_ids_distinct(surviving_pairs(r, new_entities, failed)),
    decreases r.len(),
{
    reveal(Seq::filter);
    if r.len() > 0 {
        let pre = r.drop_last();
        assert(rev_ids_distinct(pre));
        lemma_surviving_pairs_distinct(pre, new_entities, failed);
        lemma_surviving_elems(Seq::<SessionRec>::empty(), pre, new_entities, failed);
        let fs = surviving_pairs(r, new_entities, failed);
        let fp = surviving_pairs(pre, new_entities, failed);
        assert forall|i: int, j: int| 0 <= i < j < fs.len() implies fs[i].id != fs[j].id by {
            if j < fp.len() {
                assert(fs[i] == fp[i] && fs[j] == fp[j]);
            } else {
                assert(fs[j] == r.last());
                assert(fs[i] == fp[i]);
                assert(pre.contains(fp[i]));
                let w = choose|w: int| 0 <= w < pre.len() && pre[w] == fp[i];
                assert(r[w] == fp[i]);
                assert(r[w].id != r[r.len() - 1].id);
            }
        }
    }
}

/// Dropping the same set of stray, successfully disconnected sessions from
/// the table and from the reverse index preserves the cross-structure
/// invariant, whatever happens to the registry afterwards, because a record
/// and its edge agree on id and key and therefore survive together.
proof fn lemma_surviving_state_wf(
    pre: ServerState,
    post: ServerState,
    new_entities: Seq<Entity>,
    failed: Seq<usize>,
)
    requires
        pre.wf(),
        post.sessions@ == surviving_sessions(pre.sessions@, new_entities, failed),
        post.rev@ == surviving_pairs(pre.rev@, new_entities, failed),
        post.next_id == pre.next_id,
    ensures
        session_ids_distinct(post.sessions@),
        rev_ids_distinct(post.rev@),
        forall|i: int| #![auto] 0 <= i < post.sessions@.len() ==> post.sessions@[i].id < post.next_id,
        forall|i: int| #![auto]
            0 <= i < post.sessions@.len() ==> pre.registry.spec_has_key(
                post.sessions@[i].entity@.key,
            ),
        forall|i: int| #![auto] 0 <= i < post.rev@.len() ==> pair_matched(post.rev@[i], post.sessions@),
        forall|j: int| #![auto]
            0 <= j < post.sessions@.len() ==> session_indexed(post.sessions@[j], post.rev@),
{
    lemma_surviving_elems(pre.sessions@, pre.rev@, new_entities, failed);
    lemma_surviving_sessions_distinct(pre.sessions@, new_entities, failed);
    lemma_surviving_pairs_distinct(pre.rev@, new_entities, failed);
    let survs = post.sessions@;
    let survr = post.rev@;
    assert forall|i: int| #![auto] 0 <= i < survs.len() implies survs[i].id < post.next_id
        && pre.registry.spec_has_key(survs[i].entity@.key) by {
        assert(pre.sessions@.contains(survs[i]));
        let j = choose|j: int| 0 <= j < pre.sessions@.len() && pre.sessions@[j] == survs[i];
    }
    assert forall|i: int| 0 <= i < survr.len() implies #[trigger] pair_matched(
        survr[i],
        survs,
    ) by {
        assert(pre.rev@.contains(survr[i]));
        let i0 = choose|i0: int| 0 <= i0 < pre.rev@.len() && pre.rev@[i0] == survr[i];
        assert(pair_matched(pre.rev@[i0], pre.sessions@));
        let j0 = choose|j0: int|
            0 <= j0 < pre.sessions@.len() && pre.sessions@[j0].id == pre.rev@[i0].id
                && pre.sessions@[j0].entity@.key == pre.rev@[i0].key@;
        assert(survs.contains(pre.sessions@[j0]));
        let j = choose|j: int| 0 <= j < survs.len() && survs[j] == pre.sessions@[j0];
        assert(survs[j].id == survr[i].id && survs[j].entity@.key == survr[i].key@);
    }
    assert forall|j: int| 0 <= j < survs.len() implies #[trigger] session_indexed(
        survs[j],
        survr,
    ) by {
        assert(pre.sessions@.contains(survs[j]));
        let j0 = choose|j0: int| 0 <= j0 < pre.sessions@.len() && pre.sessions@[j0] == survs[j];
        assert(session_indexed(pre.sessions@[j0], pre.rev@));
        let i0 = choose|i0: int|
            0 <= i0 < pre.rev@.len() && pre.rev@[i0].id == pre.sessions@[j0].id
                && pre.rev@[i0].key@ == pre.sessions@[j0].entity@.key;
        assert(survr.contains(pre.rev@[i0]));
        let i = choose|i: int| 0 <= i < survr.len() && survr[i] == pre.rev@[i0];
        assert(survr[i].id == survs[j].id && survr[i].key@ == survs[j].entity@.key);
    }
}

} // verus!
