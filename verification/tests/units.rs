use sshchat::entity::{Entity, Role};
use sshchat::state::ServerState;
use sshchat::registry::Registry;
use sshchat::text::{join_line, message_line, session_title};

fn ent(name: &str, role: Role, key: &[u8]) -> Entity {
    Entity::new(String::from(name), role, key.to_vec())
}

#[test]
fn lookup_hit_and_miss() {
    let reg = Registry::new(vec![ent("alice", Role::Standard, b"keyA")]);
    let hit = reg.lookup(&b"keyA".to_vec()).expect("known key resolves");
    assert_eq!(hit.name, "alice");
    assert_eq!(hit.role, Role::Standard);
    assert!(reg.lookup(&b"keyX".to_vec()).is_none());
}

#[test]
fn a_repeated_key_maps_to_one_entity() {
    let reg = Registry::new(vec![
        ent("old", Role::Standard, b"keyA"),
        ent("new", Role::Elevated, b"keyA"),
    ]);
    assert_eq!(reg.entities.len(), 1);
    assert!(reg.lookup(&b"keyA".to_vec()).is_some());
}

#[test]
fn rejected_key_creates_no_state() {
    let mut st = ServerState::new(vec![ent("alice", Role::Standard, b"keyA")]);
    let id = st.fresh_id();
    assert!(!st.authenticate(id, &b"unknown".to_vec()));
    assert_eq!(st.sessions.len(), 0);
    assert_eq!(st.rev.len(), 0);
    assert_eq!(st.history.len(), 0);
}

#[test]
fn ids_are_never_reused() {
    let mut st = ServerState::new(Vec::new());
    assert_eq!(st.fresh_id(), 0);
    assert_eq!(st.fresh_id(), 1);
    assert_eq!(st.fresh_id(), 2);
}

#[test]
fn join_announcement_wording() {
    let mut st = ServerState::new(vec![ent("bob", Role::Elevated, b"keyB")]);
    let id = st.fresh_id();
    assert!(st.authenticate(id, &b"keyB".to_vec()));
    assert!(st.open_session(id));
    assert_eq!(st.history[0], "bob with Elevated privileges has joined");
    assert_eq!(
        join_line("alice", Role::Standard),
        "alice with Standard privileges has joined"
    );
}

#[test]
fn message_and_title_wording() {
    assert_eq!(message_line("alice", "hello"), "[alice]: hello");
    assert_eq!(message_line("", ""), "[]: ");
    assert_eq!(session_title("alice", Role::Standard), "[alice]");
    assert_eq!(session_title("bob", Role::Elevated), "[bob]-[elevated]");
}

#[test]
fn resize_touches_only_its_session() {
    let mut st = ServerState::new(vec![ent("carol", Role::Standard, b"keyC")]);
    let s1 = st.fresh_id();
    assert!(st.authenticate(s1, &b"keyC".to_vec()));
    assert!(st.open_session(s1));
    let s2 = st.fresh_id();
    assert!(st.authenticate(s2, &b"keyC".to_vec()));
    assert!(st.open_session(s2));
    assert_eq!(st.sessions[0].width, 0);
    st.resize(s1, 80, 24);
    assert_eq!(st.sessions[0].width, 80);
    assert_eq!(st.sessions[0].height, 24);
    assert_eq!(st.sessions[1].width, 0);
    // An unknown id is ignored.
    st.resize(999, 1, 1);
    assert_eq!(st.sessions[0].width, 80);
}

#[test]
fn close_removes_record_binding_and_index_once() {
    let mut st = ServerState::new(vec![ent("carol", Role::Standard, b"keyC")]);
    let s1 = st.fresh_id();
    assert!(st.authenticate(s1, &b"keyC".to_vec()));
    assert!(st.open_session(s1));
    assert_eq!(st.sessions.len(), 1);
    assert_eq!(st.rev.len(), 1);
    st.close(s1);
    assert_eq!(st.sessions.len(), 0);
    assert_eq!(st.rev.len(), 0);
    assert!(st.session_entity(s1).is_none());
    // A second teardown of the same id changes nothing.
    st.close(s1);
    assert_eq!(st.sessions.len(), 0);
}

#[test]
fn submission_clears_the_input_buffer() {
    let mut st = ServerState::new(vec![ent("carol", Role::Standard, b"keyC")]);
    let s1 = st.fresh_id();
    assert!(st.authenticate(s1, &b"keyC".to_vec()));
    assert!(st.open_session(s1));
    st.set_input(s1, String::from("draft"));
    assert_eq!(st.sessions[0].input, "draft");
    assert!(st.submit_message(s1, "draft"));
    assert_eq!(st.sessions[0].input, "");
    assert!(!st.submit_message(999, "nobody"));
}

#[test]
fn view_shows_at_most_twenty_recent_lines() {
    let mut st = ServerState::new(Vec::new());
    for i in 0..25 {
        st.append_line(format!("line {i}"));
    }
    let view = st.visible_history();
    assert_eq!(view.len(), 20);
    assert_eq!(view[0], "line 5");
    assert_eq!(view[19], "line 24");
    let empty = ServerState::new(Vec::new()).visible_history();
    assert_eq!(empty.len(), 0);
}
