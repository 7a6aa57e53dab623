//! Session lifecycle and session events: opening the rendering surface at
//! channel-open (with the join announcement), viewport resizes, keeping the
//! session's input buffer, message submission, and teardown. Teardown
//! removes the record and its reverse-index listing whatever the cause, so
//! the reverse index never accumulates references to dead sessions.

use vstd::prelude::*;

use crate::session::{
    pair_matched, session_indexed, spec_has_session, RevPair, SessionRec,
};
use crate::state::ServerState;
use crate::text::{join_line, message_line, spec_join_line, spec_message_line};

verus! {

/// Index of the record carrying session id `id`, if any.
pub(crate) fn find_session(s: &Vec<SessionRec>, id: usize) -> (r: Option<usize>)
    ensures
        match r {
            Some(p) => p < s@.len() && s@[p as int].id == id,
            None => !spec_has_session(s@, id),
        },
{
    let n = s.len();
    let mut i: usize = 0;
    while i < n
        invariant
            n == s@.len(),
            i <= n,
            forall|j: int| 0 <= j < i ==> s@[j].id != id,
        decreases n - i,
    {
        if s[i].id == id {
            return Some(i);
        }
        i += 1;
    }
    None
}

/// Index of the reverse-index edge carrying session id `id`, if any.
pub(crate) fn find_rev(r: &Vec<RevPair>, id: usize) -> (res: Option<usize>)
    ensures
        match res {
            Some(p) => p < r@.len() && r@[p as int].id == id,
            None => forall|j: int| 0 <= j < r@.len() ==> r@[j].id != id,
        },
{
    let n = r.len();
    let mut i: usize = 0;
    while i < n
        invariant
            n == r@.len(),
            i <= n,
            forall|j: int| 0 <= j < i ==> r@[j].id != id,
        decreases n - i,
    {
        if r[i].id == id {
            return Some(i);
        }
        i += 1;
    }
    None
}

impl ServerState {
    /// Opens the session's rendering surface when its channel opens: the
    /// record (created at authentication) is marked open with a zero-sized
    /// viewport until the first resize arrives, and a join announcement
    /// crediting the entity's name and role is appended to the history.
    /// Returns false, changing nothing, if no session carries `id`.
    pub fn open_session(&mut self, id: usize) -> (r: bool)
        requires
            old(self).wf(),
        ensures
            final(self).wf(),
            r <==> spec_has_session(old(self).sessions@, id),
            final(self).registry == old(self).registry,
            final(self).rev == old(self).rev,
            final(self).next_id == old(self).next_id,
            !r ==> final(self).sessions == old(self).sessions && final(self).history == old(
                self,
            ).history,
            r ==> exists|p: int|
                {
                    &&& 0 <= p < old(self).sessions@.len()
                    &&& old(self).sessions@[p].id == id
                    &&& final(self).sessions@ == old(self).sessions@.update(
                        p,
                        SessionRec { open: true, ..old(self).sessions@[p] },
                    )
                    &&& final(self).history@.len() == old(self).history@.len() + 1
                    &&& forall|i: int| #![auto]
                        0 <= i < old(self).history@.len() ==> final(self).history@[i] == old(
                            self,
                        ).history@[i]
                    &&& final(self).history@.last()@ == spec_join_line(
                        old(self).sessions@[p].entity@.name,
                        old(self).sessions@[p].entity@.role,
                    )
                },
    {
        match find_session(&self.sessions, id) {
            Some(p) => {
                let line = join_line(
                    self.sessions[p].entity.name.as_str(),
                    self.sessions[p].entity.role,
                );
                self.history.push(line);
                self.sessions[p].open = true;
                proof {
                    let ghost pi = p as int;
                    assert((*self).sessions@ == old(self).sessions@.update(
                        pi,
                        SessionRec { open: true, ..old(self).sessions@[pi] },
                    ));
                    lemma_update_keeps_wf(
                        *old(self),
                        *self,
                        pi,
                        SessionRec { open: true, ..old(self).sessions@[pi] },
                    );
                }
                true
            }
            None => false,
        }
    }

    /// A viewport resize for one session: updates only that session's
    /// viewport, no other session is touched. Unknown ids are ignored.
    pub fn resize(&mut self, id: usize, width: u16, height: u16)
        requires
            old(self).wf(),
        ensures
            final(self).wf(),
            final(self).registry == old(self).registry,
            final(self).rev == old(self).rev,
            final(self).history == old(self).history,
            final(self).next_id == old(self).next_id,
            !spec_has_session(old(self).sessions@, id) ==> final(self).sessions == old(
                self,
            ).sessions,
            spec_has_session(old(self).sessions@, id) ==> exists|p: int|
                {
                    &&& 0 <= p < old(self).sessions@.len()
                    &&& old(self).sessions@[p].id == id
                    &&& final(self).sessions@ == old(self).sessions@.update(
                        p,
                        SessionRec { width, height, ..old(self).sessions@[p] },
                    )
                },
    {
        match find_session(&self.sessions, id) {
            Some(p) => {
                self.sessions[p].width = width;
                self.sessions[p].height = height;
                proof {
                    let ghost pi = p as int;
                    assert((*self).sessions@ == old(self).sessions@.update(
                        pi,
                        SessionRec { width, height, ..old(self).sessions@[pi] },
                    ));
                    lemma_update_keeps_wf(
                        *old(self),
                        *self,
                        pi,
                        SessionRec { width, height, ..old(self).sessions@[pi] },
                    );
                }
            }
            None => {},
        }
    }

    /// Records the session's current input-buffer content, as edited on
    /// its input surface. Unknown ids are ignored.
    pub fn set_input(&mut self, id: usize, input: String)
        requires
            old(self).wf(),
        ensures
            final(self).wf(),
            final(self).registry == old(self).registry,
            final(self).rev == old(self).rev,
            final(self).history == old(self).history,
            final(self).next_id == old(self).next_id,
            !spec_has_session(old(self).sessions@, id) ==> final(self).sessions == old(
                self,
            ).sessions,
            spec_has_session(old(self).sessions@, id) ==> exists|p: int|
                {
                    &&& 0 <= p < old(self).sessions@.len()
                    &&& old(self).sessions@[p].id == id
                    &&& final(self).sessions@ == old(self).sessions@.update(
                        p,
                        SessionRec { input, ..old(self).sessions@[p] },
                    )
                },
    {
        match find_session(&self.sessions, id) {
            Some(p) => {
                self.sessions[p].input = input;
                proof {
                    let ghost pi = p as int;
                    lemma_update_keeps_wf(
                        *old(self),
                        *self,
                        pi,
                        (*self).sessions@[pi],
                    );
                }
            }
            None => {},
        }
    }

    /// A message submission: appends the line `[name]: text` to the shared
    /// history — attributed to the submitting session's currently bound
    /// entity — and clears that session's input buffer. Returns false,
    /// changing nothing, if no session carries `id`.
    pub fn submit_message(&mut self, id: usize, text: &str) -> (r: bool)
        requires
            old(self).wf(),
        ensures
            final(self).wf(),
            r <==> spec_has_session(old(self).sessions@, id),
            final(self).registry == old(self).registry,
            final(self).rev == old(self).rev,
            final(self).next_id == old(self).next_id,
            !r ==> final(self).sessions == old(self).sessions && final(self).history == old(
                self,
            ).history,
            r ==> exists|p: int|
                {
                    &&& 0 <= p < old(self).sessions@.len()
                    &&& old(self).sessions@[p].id == id
                    &&& final(self).sessions@ == old(self).sessions@.update(
                        p,
                        SessionRec {
                            input: final(self).sessions@[p].input,
                            ..old(self).sessions@[p]
                        },
                    )
                    &&& final(self).sessions@[p].input@ == Seq::<char>::empty()
                    &&& final(self).history@.len() == old(self).history@.len() + 1
                    &&& forall|i: int| #![auto]
                        0 <= i < old(self).history@.len() ==> final(self).history@[i] == old(
                            self,
                        ).history@[i]
                    &&& final(self).history@.last()@ == spec_message_line(
                        old(self).sessions@[p].entity@.name,
                        text@,
                    )
                },
    {
        match find_session(&self.sessions, id) {
            Some(p) => {
                let line = message_line(self.sessions[p].entity.name.as_str(), text);
                self.history.push(line);
                self.sessions[p].input = String::new();
                proof {
                    let ghost pi = p as int;
                    lemma_update_keeps_wf(
                        *old(self),
                        *self,
                        pi,
                        (*self).sessions@[pi],
                    );
                }
                true
            }
            None => false,
        }
    }
}

impl ServerState {
    /// The entity a live session is currently bound to, if the id names
    /// one. Submissions and titles go by this binding.
    pub fn session_entity(&self, id: usize) -> (r: Option<&crate::entity::Entity>)
        ensures
            match r {
                Some(e) => exists|i: int| #![auto]
                    0 <= i < self.sessions@.len() && self.sessions@[i].id == id
                        && self.sessions@[i].entity == *e,
                None => !spec_has_session(self.sessions@, id),
            },
    {
        match find_session(&self.sessions, id) {
            Some(p) => Some(&self.sessions[p].entity),
            None => None,
        }
    }

    /// Tears a session down, whatever the cause — graceful disconnect,
    /// transport error, or revocation: removes the record, the entity
    /// binding it held, and the session's reverse-index listing, so the
    /// reverse index never points at a dead session. Exactly one record
    /// leaves; unknown ids change nothing, so a second teardown of the
    /// same id is a no-op rather than a double removal.
    pub fn close(&mut self, id: usize)
        requires
            old(self).wf(),
        ensures
            final(self).wf(),
            final(self).registry == old(self).registry,
            final(self).history == old(self).history,
            final(self).next_id == old(self).next_id,
            !spec_has_session(old(self).sessions@, id) ==> final(self).sessions == old(
                self,
            ).sessions && final(self).rev == old(self).rev,
            spec_has_session(old(self).sessions@, id) ==> {
                &&& final(self).sessions@.len() == old(self).sessions@.len() - 1
                &&& !spec_has_session(final(self).sessions@, id)
                &&& exists|p: int| #![auto]
                    0 <= p < old(self).sessions@.len() && old(self).sessions@[p].id == id
                        && final(self).sessions@ == old(self).sessions@.remove(p)
                &&& exists|q: int| #![auto]
                    0 <= q < old(self).rev@.len() && old(self).rev@[q].id == id
                        && final(self).rev@ == old(self).rev@.remove(q)
            },
    {
        match find_session(&self.sessions, id) {
            Some(p) => {
                self.sessions.remove(p);
                match find_rev(&self.rev, id) {
                    Some(q) => {
                        self.rev.remove(q);
                        proof {
                            lemma_remove_keeps_wf(*old(self), *self, p as int, q as int);
                        }
                    }
                    None => {
                        proof {
                            assert(session_indexed(
                                old(self).sessions@[p as int],
                                old(self).rev@,
                            ));
                            assert(false);
                        }
                    }
                }
            }
            None => {},
        }
    }
}

/// Removing one session record together with its one reverse-index edge
/// preserves the cross-structure invariant, and no record with the removed
/// id remains.
proof fn lemma_remove_keeps_wf(pre: ServerState, post: ServerState, p: int, q: int)
    requires
        pre.wf(),
        0 <= p < pre.sessions@.len(),
        0 <= q < pre.rev@.len(),
        pre.rev@[q].id == pre.sessions@[p].id,
        post.sessions@ == pre.sessions@.remove(p),
        post.rev@ == pre.rev@.remove(q),
        post.registry == pre.registry,
        post.next_id == pre.next_id,
    ensures
        post.wf(),
        !spec_has_session(post.sessions@, pre.sessions@[p].id),
{
    let id = pre.sessions@[p].id;
    pre.sessions@.remove_ensures(p);
    pre.rev@.remove_ensures(q);
    // Each surviving record or edge is one of the old ones, at its old
    // index or one to the left; none of them carried the removed id.
    assert forall|j: int| #![trigger post.sessions@[j]] 0 <= j < post.sessions@.len() implies (
    exists|j0: int| #![auto]
        0 <= j0 < pre.sessions@.len() && j0 != p && post.sessions@[j] == pre.sessions@[j0]
            && pre.sessions@[j0].id != id) by {
        if j < p {
            assert(post.sessions@[j] == pre.sessions@[j]);
            assert(pre.sessions@[j].id != id);
        } else {
            assert(post.sessions@[j] == pre.sessions@[j + 1]);
            assert(pre.sessions@[j + 1].id != id);
        }
    }
    assert forall|i: int| #![trigger post.rev@[i]] 0 <= i < post.rev@.len() implies (
    exists|i0: int| #![auto]
        0 <= i0 < pre.rev@.len() && i0 != q && post.rev@[i] == pre.rev@[i0] && pre.rev@[i0].id
            != id) by {
        if i < q {
            assert(post.rev@[i] == pre.rev@[i]);
        } else {
            assert(post.rev@[i] == pre.rev@[i + 1]);
        }
    }
    assert forall|i: int, j: int| 0 <= i < j < post.sessions@.len() implies post.sessions@[i].id
        != post.sessions@[j].id by {
        if j < p {
        } else if i < p {
            assert(post.sessions@[i] == pre.sessions@[i]);
            assert(post.sessions@[j] == pre.sessions@[j + 1]);
        } else {
            assert(post.sessions@[i] == pre.sessions@[i + 1]);
            assert(post.sessions@[j] == pre.sessions@[j + 1]);
        }
    }
    assert forall|i: int, j: int| 0 <= i < j < post.rev@.len() implies post.rev@[i].id
        != post.rev@[j].id by {
        if j < q {
        } else if i < q {
            assert(post.rev@[i] == pre.rev@[i]);
            assert(post.rev@[j] == pre.rev@[j + 1]);
        } else {
            assert(post.rev@[i] == pre.rev@[i + 1]);
            assert(post.rev@[j] == pre.rev@[j + 1]);
        }
    }
    assert forall|i: int| 0 <= i < post.rev@.len() implies #[trigger] pair_matched(
        post.rev@[i],
        post.sessions@,
    ) by {
        let i0 = choose|i0: int| #![auto]
            0 <= i0 < pre.rev@.len() && i0 != q && post.rev@[i] == pre.rev@[i0]
                && pre.rev@[i0].id != id;
        assert(pair_matched(pre.rev@[i0], pre.sessions@));
        let j0 = choose|j0: int|
            0 <= j0 < pre.sessions@.len() && pre.sessions@[j0].id == pre.rev@[i0].id
                && pre.sessions@[j0].entity@.key == pre.rev@[i0].key@;
        assert(j0 != p);
        if j0 < p {
            assert(post.sessions@[j0] == pre.sessions@[j0]);
        } else {
            assert(post.sessions@[j0 - 1] == pre.sessions@[j0]);
        }
    }
    assert forall|j: int| 0 <= j < post.sessions@.len() implies #[trigger] session_indexed(
        post.sessions@[j],
        post.rev@,
    ) by {
        let j0 = choose|j0: int| #![auto]
            0 <= j0 < pre.sessions@.len() && j0 != p && post.sessions@[j] == pre.sessions@[j0]
                && pre.sessions@[j0].id != id;
        assert(session_indexed(pre.sessions@[j0], pre.rev@));
        let i0 = choose|i0: int|
            0 <= i0 < pre.rev@.len() && pre.rev@[i0].id == pre.sessions@[j0].id
                && pre.rev@[i0].key@ == pre.sessions@[j0].entity@.key;
        assert(i0 != q);
        if i0 < q {
            assert(post.rev@[i0] == pre.rev@[i0]);
        } else {
            assert(post.rev@[i0 - 1] == pre.rev@[i0]);
        }
    }
}

/// Replacing one session record with one that keeps the same id and key
/// preserves the cross-structure invariant: distinctness, key validity and
/// the reverse-index correspondence only read ids and keys.
proof fn lemma_update_keeps_wf(pre: ServerState, post: ServerState, p: int, rec: SessionRec)
    requires
        pre.wf(),
        0 <= p < pre.sessions@.len(),
        rec.id == pre.sessions@[p].id,
        rec.entity@.key == pre.sessions@[p].entity@.key,
        post.sessions@ == pre.sessions@.update(p, rec),
        post.registry == pre.registry,
        post.rev == pre.rev,
        post.next_id == pre.next_id,
    ensures
        post.wf(),
{
    assert forall|i: int| 0 <= i < post.rev@.len() implies #[trigger] pair_matched(
        post.rev@[i],
        post.sessions@,
    ) by {
        assert(pair_matched(pre.rev@[i], pre.sessions@));
        let j = choose|j: int|
            0 <= j < pre.sessions@.len() && pre.sessions@[j].id == pre.rev@[i].id
                && pre.sessions@[j].entity@.key == pre.rev@[i].key@;
        assert(post.sessions@[j].id == post.rev@[i].id && post.sessions@[j].entity@.key
            == post.rev@[i].key@);
    }
    assert forall|j: int| 0 <= j < post.sessions@.len() implies #[trigger] session_indexed(
        post.sessions@[j],
        post.rev@,
    ) by {
        assert(session_indexed(pre.sessions@[j], pre.rev@));
        let i = choose|i: int|
            0 <= i < pre.rev@.len() && pre.rev@[i].id == pre.sessions@[j].id && pre.rev@[i].key@
                == pre.sessions@[j].entity@.key;
        assert(post.rev@[i].id == post.sessions@[j].id && post.rev@[i].key@
            == post.sessions@[j].entity@.key);
    }
}

} // verus!
