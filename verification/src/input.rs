//! Classifying raw input from a session's terminal. A chunk of bytes is
//! one of the control-surface gestures — interrupt (disconnect), line
//! submission, registry reload — or an ordinary editing event for the
//! input surface, or malformed (logged and ignored). Decoding the byte
//! stream into terminal events is termion's job and is done at the I/O
//! edge, outside this crate, because the decoder can die on truncated
//! escape sequences; the caller hands the decoding outcome in as a plain
//! value, and every decision about what it means is made — and verified —
//! here.

use vstd::prelude::*;

verus! {

/// What the terminal-event decoder made of a chunk: a control-key press,
/// some other well-formed event, or a sequence it could not decode
/// (including one that made the decoder give up mid-way).
#[derive(Clone, Copy, PartialEq, Eq, Structural, Debug)]
pub enum InputClass {
    CtrlKey(char),
    OtherEvent,
    Malformed,
}

#[verifier::external_type_specification]
#[verifier::external_body]
pub struct ExTermionEvent(ratatui::termion::event::Event);

/// What a session's input chunk asks the service to do.
pub enum Directive {
    /// The interrupt gesture: disconnect this session.
    Disconnect,
    /// The line-submission gesture: send the input buffer as a message.
    Submit,
    /// The reload gesture: reload the registry, if the session may.
    Reload,
    /// An ordinary editing event for the session's input surface.
    Edit(ratatui::termion::event::Event),
    /// Nothing to do: an empty or undecodable chunk.
    Ignore,
}

/// Decides what a decoded event means: the control-r press is the reload
/// gesture, every other well-formed event is line editing, and a malformed
/// chunk is ignored — the session continues unaffected.
pub fn directive_for_event(
    class: InputClass,
    ev: Option<ratatui::termion::event::Event>,
) -> (r: Directive)
    requires
        (ev is Some) <==> !(class is Malformed),
    ensures
        (r is Reload) <==> class == InputClass::CtrlKey('r'),
        (r is Edit) <==> (class != InputClass::CtrlKey('r') && !(class is Malformed)),
        (r is Ignore) <==> class is Malformed,
        !(r is Disconnect) && !(r is Submit),
{
    match class {
        InputClass::CtrlKey(c) => {
            if c == 'r' {
                Directive::Reload
            } else {
                match ev {
                    Some(e) => Directive::Edit(e),
                    None => {
                        proof {
                            assert(false);
                        }
                        Directive::Ignore
                    }
                }
            }
        }
        InputClass::OtherEvent => {
            match ev {
                Some(e) => Directive::Edit(e),
                None => {
                    proof {
                        assert(false);
                    }
                    Directive::Ignore
                }
            }
        }
        InputClass::Malformed => Directive::Ignore,
    }
}

/// Classifies one raw chunk of session input. The interrupt gesture is the
/// single byte 3; the line-submission gesture is the two bytes 27, 13;
/// those two are judged on the bytes alone. Anything else goes by the
/// decoder's outcome for the chunk, handed in as `class` and `ev`, and is
/// judged by [`directive_for_event`]. An empty chunk asks for nothing.
pub fn classify_input(
    data: &Vec<u8>,
    class: InputClass,
    ev: Option<ratatui::termion::event::Event>,
) -> (r: Directive)
    requires
        (ev is Some) <==> !(class is Malformed),
    ensures
        (r is Disconnect) <==> data@ == seq![3u8],
        (r is Submit) <==> data@ == seq![27u8, 13u8],
        data@.len() == 0 ==> r is Ignore,
        (data@.len() > 0 && data@ != seq![3u8] && data@ != seq![27u8, 13u8]) ==> {
            &&& (r is Reload) <==> class == InputClass::CtrlKey('r')
            &&& (r is Edit) <==> (class != InputClass::CtrlKey('r') && !(class is Malformed))
            &&& (r is Ignore) <==> class is Malformed
        },
{
    if data.len() == 0 {
        proof {
            assert(data@ != seq![3u8] && data@ != seq![27u8, 13u8]);
        }
        return Directive::Ignore;
    }
    if data.len() == 1 && data[0] == 3 {
        proof {
            assert(data@ =~= seq![3u8]);
        }
        return Directive::Disconnect;
    }
    if data.len() == 2 && data[0] == 27 && data[1] == 13 {
        proof {
            assert(data@ =~= seq![27u8, 13u8]);
        }
        return Directive::Submit;
    }
    proof {
        if data@ == seq![3u8] {
            assert(data@.len() == 1 && data@[0] == 3u8);
        }
        if data@ == seq![27u8, 13u8] {
            assert(data@.len() == 2 && data@[0] == 27u8 && data@[1] == 13u8);
        }
    }
    directive_for_event(class, ev)
}

} // verus!
