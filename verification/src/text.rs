//! Building the chat lines the service shows: the attribution line for a
//! submitted message, the join announcement, and a session's title.

use vstd::prelude::*;

use crate::entity::Role;

verus! {

/// Relies on `String::push_str` of std: appends the slice's characters to
/// the end of the string.
#[verifier::external_body]
pub(crate) fn push_str(s: &mut String, t: &str)
    ensures
        final(s)@ == old(s)@ + t@,
{
    s.push_str(t);
}

/// The word a role is shown as.
pub open spec fn spec_role_label(role: Role) -> Seq<char> {
    match role {
        Role::Standard => "Standard"@,
        Role::Elevated => "Elevated"@,
    }
}

pub fn role_label(role: Role) -> (r: &'static str)
    ensures
        r@ == spec_role_label(role),
{
    match role {
        Role::Standard => "Standard",
        Role::Elevated => "Elevated",
    }
}

/// The history line a submitted message becomes: the speaker's name in
/// brackets, then the body.
pub open spec fn spec_message_line(name: Seq<char>, text: Seq<char>) -> Seq<char> {
    "["@ + name + "]: "@ + text
}

pub fn message_line(name: &str, text: &str) -> (r: String)
    ensures
        r@ == spec_message_line(name@, text@),
{
    let mut r = String::new();
    push_str(&mut r, "[");
    push_str(&mut r, name);
    push_str(&mut r, "]: ");
    push_str(&mut r, text);
    proof {
        assert(r@ =~= spec_message_line(name@, text@));
    }
    r
}

/// The join announcement credited to an entity when its session's channel
/// opens.
pub open spec fn spec_join_line(name: Seq<char>, role: Role) -> Seq<char> {
    name + " with "@ + spec_role_label(role) + " privileges has joined"@
}

pub fn join_line(name: &str, role: Role) -> (r: String)
    ensures
        r@ == spec_join_line(name@, role),
{
    let mut r = String::new();
    push_str(&mut r, name);
    push_str(&mut r, " with ");
    push_str(&mut r, role_label(role));
    push_str(&mut r, " privileges has joined");
    proof {
        assert(r@ =~= spec_join_line(name@, role));
    }
    r
}

/// The title shown over a session's input area: the entity's name in
/// brackets, marked when the session is elevated.
pub open spec fn spec_session_title(name: Seq<char>, role: Role) -> Seq<char> {
    if role is Elevated {
        "["@ + name + "]-[elevated]"@
    } else {
        "["@ + name + "]"@
    }
}

pub fn session_title(name: &str, role: Role) -> (r: String)
    ensures
        r@ == spec_session_title(name@, role),
{
    let mut r = String::new();
    push_str(&mut r, "[");
    push_str(&mut r, name);
    match role {
        Role::Elevated => {
            push_str(&mut r, "]-[elevated]");
        }
        Role::Standard => {
            push_str(&mut r, "]");
        }
    }
    proof {
        assert(r@ =~= spec_session_title(name@, role));
    }
    r
}

} // verus!
