use ratatui::termion::event::{Event, Key};
use sshchat::input::{classify_input, directive_for_event, Directive, InputClass};

// Decodes a chunk the way the surrounding shell does, so the classification
// is exercised against termion's real parser.
fn decode(data: &[u8]) -> (InputClass, Option<Event>) {
    if data.is_empty() {
        return (InputClass::Malformed, None);
    }
    let mut rest = data[1..].iter().map(|d| Ok(*d));
    match ratatui::termion::event::parse_event(data[0], &mut rest) {
        Ok(ev) => {
            let class = match &ev {
                Event::Key(Key::Ctrl(c)) => InputClass::CtrlKey(*c),
                _ => InputClass::OtherEvent,
            };
            (class, Some(ev))
        }
        Err(_) => (InputClass::Malformed, None),
    }
}

fn classify(data: &[u8]) -> Directive {
    let (class, ev) = decode(data);
    classify_input(&data.to_vec(), class, ev)
}

#[test]
fn interrupt_gesture_disconnects() {
    assert!(matches!(classify(&[3u8]), Directive::Disconnect));
    // The gesture is judged on the bytes alone, whatever the decoder said.
    let d = classify_input(&vec![3u8], InputClass::OtherEvent, Some(Event::Key(Key::Esc)));
    assert!(matches!(d, Directive::Disconnect));
}

#[test]
fn alt_return_submits() {
    assert!(matches!(classify(&[27u8, 13u8]), Directive::Submit));
}

#[test]
fn ctrl_r_asks_for_a_reload() {
    // Ctrl-r arrives as the single control byte 0x12.
    assert!(matches!(classify(&[18u8]), Directive::Reload));
    let d = directive_for_event(
        InputClass::CtrlKey('r'),
        Some(Event::Key(Key::Ctrl('r'))),
    );
    assert!(matches!(d, Directive::Reload));
}

#[test]
fn ordinary_keys_edit_the_buffer() {
    assert!(matches!(classify(&[b'a']), Directive::Edit(_)));
    // A control key other than Ctrl-r is still an editing event.
    assert!(matches!(classify(&[17u8]), Directive::Edit(_)));
}

#[test]
fn empty_and_undecodable_chunks_are_ignored() {
    assert!(matches!(classify(&[]), Directive::Ignore));
    assert!(matches!(
        classify_input(&Vec::new(), InputClass::Malformed, None),
        Directive::Ignore
    ));
    // A chunk the decoder could not make sense of leaves the session
    // untouched.
    assert!(matches!(
        classify_input(&vec![27u8, 91u8], InputClass::Malformed, None),
        Directive::Ignore
    ));
}
