//! Live-session records and the reverse index from public key to session
//! ids. A record exists from the moment a connection authenticates; its
//! rendering surface opens (and the join announcement is made) when the
//! channel opens. The reverse index lists, under each key, exactly the ids
//! of the records authenticated through that key, and is what a reload
//! walks to find the sessions a vanished key leaves stranded.

use vstd::prelude::*;

use crate::entity::Entity;

verus! {

/// One authenticated connection's live state: the entity it is bound to
/// (held by value: identity is the record, not a location), whether its
/// channel and rendering surface are open, the viewport size, and the
/// input buffer the session is composing.
pub struct SessionRec {
    pub id: usize,
    pub entity: Entity,
    pub open: bool,
    pub width: u16,
    pub height: u16,
    pub input: String,
}

/// One edge of the reverse index: session `id` was authenticated under
/// `key`.
pub struct RevPair {
    pub key: Vec<u8>,
    pub id: usize,
}

/// No two records carry the same session id.
pub open spec fn session_ids_distinct(s: Seq<SessionRec>) -> bool {
    forall|i: int, j: int| 0 <= i < j < s.len() ==> s[i].id != s[j].id
}

/// No session id is listed twice in the reverse index.
pub open spec fn rev_ids_distinct(r: Seq<RevPair>) -> bool {
    forall|i: int, j: int| 0 <= i < j < r.len() ==> r[i].id != r[j].id
}

/// Whether some record in `s` carries the session id `id`.
pub open spec fn spec_has_session(s: Seq<SessionRec>, id: usize) -> bool {
    exists|i: int| #![auto] 0 <= i < s.len() && s[i].id == id
}

/// The reverse-index edge `p` points at a live record: a session with that
/// id exists and was authenticated under that key.
pub open spec fn pair_matched(p: RevPair, s: Seq<SessionRec>) -> bool {
    exists|j: int| #![auto] 0 <= j < s.len() && s[j].id == p.id && s[j].entity@.key == p.key@
}

/// The record `rec` is listed in the reverse index under the key it was
/// authenticated with.
pub open spec fn session_indexed(rec: SessionRec, r: Seq<RevPair>) -> bool {
    exists|i: int| #![auto] 0 <= i < r.len() && r[i].id == rec.id && r[i].key@ == rec.entity@.key
}

} // verus!
