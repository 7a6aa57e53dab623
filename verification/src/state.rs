//! The serializing owner of all shared state: registry snapshot, session
//! table, reverse index, chat history, and the id counter. Every session
//! event goes through one of its operations, so no caller can ever observe
//! a mix of old and new registry state or a reverse index pointing at a
//! dead session.

use vstd::prelude::*;

use crate::entity::Entity;
use crate::registry::{has_key, Registry};
use crate::session::{
    pair_matched, rev_ids_distinct, session_ids_distinct, session_indexed, spec_has_session,
    RevPair, SessionRec,
};

verus! {

/// The whole in-memory state of the service.
pub struct ServerState {
    pub registry: Registry,
    pub sessions: Vec<SessionRec>,
    pub rev: Vec<RevPair>,
    pub history: Vec<String>,
    pub next_id: usize,
}

impl ServerState {
    /// The cross-structure invariant, maintained by every operation:
    /// - the registry maps each key to at most one entity;
    /// - session ids are pairwise distinct and below the id counter;
    /// - every live session's key is in the current registry's pool;
    /// - the reverse index lists each session id at most once, every edge
    ///   points at a live session authenticated under that key, and every
    ///   live session is listed under its key.
    pub open spec fn wf(&self) -> bool {
        &&& self.registry.wf()
        &&& session_ids_distinct(self.sessions@)
        &&& forall|i: int| #![auto]
            0 <= i < self.sessions@.len() ==> self.sessions@[i].id < self.next_id
        &&& forall|i: int| #![auto]
            0 <= i < self.sessions@.len() ==> self.registry.spec_has_key(
                self.sessions@[i].entity@.key,
            )
        &&& rev_ids_distinct(self.rev@)
        &&& forall|i: int| #![auto]
            0 <= i < self.rev@.len() ==> pair_matched(self.rev@[i], self.sessions@)
        &&& forall|j: int| #![auto]
            0 <= j < self.sessions@.len() ==> session_indexed(self.sessions@[j], self.rev@)
    }

    /// Startup: build the first registry snapshot from the backing store's
    /// load result; no sessions, no history yet. The snapshot's pool is
    /// exactly the loaded keys, and every entity in it — name and tier
    /// included — is one of the loaded entities.
    pub fn new(entities: Vec<Entity>) -> (r: ServerState)
        ensures
            r.wf(),
            forall|k: Seq<u8>| r.registry.spec_has_key(k) <==> has_key(entities@, k),
            forall|i: int|
                0 <= i < r.registry.entities@.len() ==> crate::registry::from_entities(
                    entities@,
                    #[trigger] r.registry.entities@[i]@,
                ),
            r.sessions@.len() == 0,
            r.rev@.len() == 0,
            r.history@.len() == 0,
            r.next_id == 0,
    {
        ServerState {
            registry: Registry::new(entities),
            sessions: Vec::new(),
            rev: Vec::new(),
            history: Vec::new(),
            next_id: 0,
        }
    }

    /// Allocates the id for the next inbound connection. Every id ever
    /// handed out is distinct, so a session id never names two sessions.
    pub fn fresh_id(&mut self) -> (r: usize)
        requires
            old(self).next_id < usize::MAX,
        ensures
            r == old(self).next_id,
            final(self).next_id == old(self).next_id + 1,
            final(self).registry == old(self).registry,
            final(self).sessions == old(self).sessions,
            final(self).rev == old(self).rev,
            final(self).history == old(self).history,
            old(self).wf() ==> final(self).wf(),
            old(self).wf() ==> !spec_has_session(final(self).sessions@, r),
    {
        let r = self.next_id;
        self.next_id = self.next_id + 1;
        proof {
            if old(self).wf() && spec_has_session(self.sessions@, r) {
                let i = choose|i: int|
                    0 <= i < self.sessions@.len() && self.sessions@[i].id == r;
            }
        }
        r
    }

    /// The authentication gate: looks the offered key up in the current
    /// snapshot. If it is bound to an entity, the session id is bound to
    /// that entity and listed in the reverse index under the key, and the
    /// connection is accepted; otherwise it is rejected and no state is
    /// created.
    pub fn authenticate(&mut self, id: usize, key: &Vec<u8>) -> (accepted: bool)
        requires
            old(self).wf(),
            !spec_has_session(old(self).sessions@, id),
            id < old(self).next_id,
        ensures
            final(self).wf(),
            accepted <==> old(self).registry.spec_has_key(key@),
            final(self).registry == old(self).registry,
            final(self).history == old(self).history,
            final(self).next_id == old(self).next_id,
            !accepted ==> final(self).sessions == old(self).sessions && final(self).rev == old(
                self,
            ).rev,
            accepted ==> {
                &&& final(self).sessions@.len() == old(self).sessions@.len() + 1
                &&& forall|i: int| #![auto]
                    0 <= i < old(self).sessions@.len()
                        ==> final(self).sessions@[i] == old(self).sessions@[i]
                &&& final(self).sessions@.last().id == id
                &&& !final(self).sessions@.last().open
                &&& final(self).sessions@.last().width == 0
                &&& final(self).sessions@.last().height == 0
                &&& final(self).sessions@.last().input@ == Seq::<char>::empty()
                &&& final(self).sessions@.last().entity@.key == key@
                &&& crate::registry::from_entities(
                    old(self).registry.entities@,
                    final(self).sessions@.last().entity@,
                )
                &&& final(self).rev@.len() == old(self).rev@.len() + 1
                &&& forall|i: int| #![auto]
                    0 <= i < old(self).rev@.len() ==> final(self).rev@[i] == old(self).rev@[i]
                &&& final(self).rev@.last().id == id
                &&& final(self).rev@.last().key@ == key@
            },
    {
        let found = match self.registry.lookup(key) {
            Some(e) => Some(e.clone()),
            None => None,
        };
        match found {
            Some(ent) => {
                self.sessions.push(
                    SessionRec {
                        id,
                        entity: ent,
                        open: false,
                        width: 0,
                        height: 0,
                        input: String::new(),
                    },
                );
                self.rev.push(RevPair { key: key.clone(), id });
                proof {
                    let s1 = self.sessions@;
                    let r1 = self.rev@;
                    assert forall|i: int| 0 <= i < r1.len() implies #[trigger] pair_matched(
                        r1[i],
                        s1,
                    ) by {
                        if i < r1.len() - 1 {
                            assert(pair_matched(old(self).rev@[i], old(self).sessions@));
                            let j = choose|j: int|
                                0 <= j < old(self).sessions@.len()
                                    && old(self).sessions@[j].id == r1[i].id
                                    && old(self).sessions@[j].entity@.key == r1[i].key@;
                            assert(s1[j].id == r1[i].id && s1[j].entity@.key == r1[i].key@);
                        } else {
                            assert(s1.last().id == r1[i].id
                                && s1.last().entity@.key == r1[i].key@);
                        }
                    }
                    assert forall|j: int| 0 <= j < s1.len() implies #[trigger] session_indexed(
                        s1[j],
                        r1,
                    ) by {
                        if j < s1.len() - 1 {
                            assert(session_indexed(old(self).sessions@[j], old(self).rev@));
                            let i = choose|i: int|
                                0 <= i < old(self).rev@.len()
                                    && old(self).rev@[i].id == old(self).sessions@[j].id
                                    && old(self).rev@[i].key@
                                        == old(self).sessions@[j].entity@.key;
                            assert(r1[i].id == s1[j].id && r1[i].key@ == s1[j].entity@.key);
                        } else {
                            assert(r1.last().id == s1[j].id && r1.last().key@
                                == s1[j].entity@.key);
                        }
                    }
                    assert forall|i: int, j: int| 0 <= i < j < r1.len() implies r1[i].id
                        != r1[j].id by {
                        if j == r1.len() - 1 && i < j {
                            assert(pair_matched(old(self).rev@[i], old(self).sessions@));
                            if r1[i].id == id {
                                let w = choose|w: int|
                                    0 <= w < old(self).sessions@.len()
                                        && old(self).sessions@[w].id == old(self).rev@[i].id
                                        && old(self).sessions@[w].entity@.key
                                            == old(self).rev@[i].key@;
                                assert(spec_has_session(old(self).sessions@, id));
                            }
                        }
                    }
                }
                true
            }
            None => false,
        }
    }
}

/// Law: in any well-formed state — so between any two operations, and in
/// particular after every completed reload and every teardown — no live
/// session is bound to a key outside the registry's current pool, and the
/// reverse index lists exactly the live sessions, each id once. (The
/// key-to-entity index and the key pool cannot disagree at all here: both
/// are derived from the one entity sequence of the snapshot.)
pub proof fn lemma_indexes_consistent(st: ServerState)
    requires
        st.wf(),
    ensures
        forall|i: int| #![auto]
            0 <= i < st.sessions@.len() ==> st.registry.spec_has_key(
                st.sessions@[i].entity@.key,
            ),
        forall|i: int| #![auto]
            0 <= i < st.rev@.len() ==> pair_matched(st.rev@[i], st.sessions@),
        forall|j: int| #![auto]
            0 <= j < st.sessions@.len() ==> session_indexed(st.sessions@[j], st.rev@),
        rev_ids_distinct(st.rev@),
        session_ids_distinct(st.sessions@),
{
}

} // verus!
