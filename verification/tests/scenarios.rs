use sshchat::entity::{Entity, Role};
use sshchat::reload::ChatError;
use sshchat::state::ServerState;

fn ent(name: &str, role: Role, key: &[u8]) -> Entity {
    Entity::new(String::from(name), role, key.to_vec())
}

fn two_user_state() -> (ServerState, usize, usize) {
    let mut st = ServerState::new(vec![
        ent("alice", Role::Standard, b"keyA"),
        ent("bob", Role::Elevated, b"keyB"),
    ]);
    let s1 = st.fresh_id();
    assert!(st.authenticate(s1, &b"keyA".to_vec()));
    assert!(st.open_session(s1));
    let s2 = st.fresh_id();
    assert!(st.authenticate(s2, &b"keyB".to_vec()));
    assert!(st.open_session(s2));
    (st, s1, s2)
}

#[test]
fn reload_revokes_stray_session() {
    let (mut st, s1, s2) = two_user_state();
    // The backing store is edited so that alice's key disappears; bob,
    // an elevated session, triggers the reload.
    assert!(st.reload_allowed(s2));
    let new_entities = vec![ent("bob", Role::Elevated, b"keyB")];
    let victims = st.reload_plan(&new_entities);
    assert_eq!(victims, vec![s1]);
    let failed: Vec<usize> = Vec::new();
    assert!(st.reload_apply(new_entities, &failed).is_ok());
    // Post-reload pool is exactly {keyB}; s1 is gone, s2 lives.
    assert!(st.registry.lookup(&b"keyA".to_vec()).is_none());
    assert!(st.registry.lookup(&b"keyB".to_vec()).is_some());
    assert!(st.session_entity(s1).is_none());
    assert!(st.session_entity(s2).is_some());
    assert_eq!(st.sessions.len(), 1);
    assert_eq!(st.rev.len(), 1);
}

#[test]
fn submission_reaches_every_view() {
    let (mut st, s1, _s2) = two_user_state();
    assert!(st.submit_message(s1, "hello"));
    assert_eq!(st.history[st.history.len() - 1], "[alice]: hello");
    let view = st.visible_history();
    assert!(view.len() <= 20);
    assert_eq!(view[view.len() - 1], "[alice]: hello");
}

#[test]
fn standard_session_cannot_reload() {
    let (st, s1, _s2) = two_user_state();
    // The reload gesture from a standard-tier session is a no-op: the
    // caller asks first and never touches the registry.
    assert!(!st.reload_allowed(s1));
    assert!(st.registry.lookup(&b"keyA".to_vec()).is_some());
    assert!(st.registry.lookup(&b"keyB".to_vec()).is_some());
    assert_eq!(st.sessions.len(), 2);
}

#[test]
fn failed_revocation_keeps_old_snapshot() {
    let (mut st, s1, s2) = two_user_state();
    let new_entities = vec![ent("bob", Role::Elevated, b"keyB")];
    let victims = st.reload_plan(&new_entities);
    assert_eq!(victims, vec![s1]);
    // The forced disconnect of s1 fails: the reload must not commit, the
    // failing id must be reported, and no other session is affected.
    let failed = vec![s1];
    match st.reload_apply(new_entities, &failed) {
        Err(ChatError::RevocationFailed(ids)) => assert_eq!(ids, vec![s1]),
        _ => panic!("a failed revocation must be reported"),
    }
    assert!(st.registry.lookup(&b"keyA".to_vec()).is_some());
    assert!(st.session_entity(s1).is_some());
    assert!(st.session_entity(s2).is_some());
    assert_eq!(st.sessions.len(), 2);
}

#[test]
fn attribution_follows_the_binding_even_with_a_shared_key() {
    let mut st = ServerState::new(vec![ent("carol", Role::Standard, b"keyC")]);
    let s1 = st.fresh_id();
    assert!(st.authenticate(s1, &b"keyC".to_vec()));
    assert!(st.open_session(s1));
    let s2 = st.fresh_id();
    assert!(st.authenticate(s2, &b"keyC".to_vec()));
    assert!(st.open_session(s2));
    assert!(st.submit_message(s2, "from the second"));
    assert_eq!(st.history[st.history.len() - 1], "[carol]: from the second");
    assert!(st.submit_message(s1, "from the first"));
    assert_eq!(st.history[st.history.len() - 1], "[carol]: from the first");
    // Revoking the shared key tears both sessions down, each exactly once.
    let victims = st.reload_plan(&Vec::new());
    assert_eq!(victims.len(), 2);
    assert!(victims.contains(&s1) && victims.contains(&s2));
    assert!(st.reload_apply(Vec::new(), &Vec::new()).is_ok());
    assert_eq!(st.sessions.len(), 0);
    assert_eq!(st.rev.len(), 0);
}
