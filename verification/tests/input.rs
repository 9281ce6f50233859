use livepager::input::{after_send, relay, Polled, Relay};
use livepager::messaging::{
    InputThreadMessage, Key, KeyPress, ReaderThreadMessage, TerminalThreadMessage,
};

fn press(key: Key) -> KeyPress {
    KeyPress { key, shift: false, pressed: true }
}

#[test]
fn keys_are_passed_on() {
    assert_eq!(
        relay(None, Polled::Key(press(Key::Char('q')))),
        Relay::Forward(TerminalThreadMessage::KeyEvent(press(Key::Char('q'))))
    );
    let release = KeyPress { key: Key::Up, shift: true, pressed: false };
    assert_eq!(
        relay(None, Polled::Key(release)),
        Relay::Forward(TerminalThreadMessage::KeyEvent(release))
    );
}

#[test]
fn changes_of_size_are_passed_on() {
    assert_eq!(
        relay(None, Polled::Resize(120, 40)),
        Relay::Forward(TerminalThreadMessage::Resize(120, 40))
    );
}

#[test]
fn other_events_are_dropped() {
    assert_eq!(relay(None, Polled::Other), Relay::Continue);
    assert_eq!(relay(None, Polled::Nothing), Relay::Continue);
}

#[test]
fn a_request_to_stop_comes_first() {
    assert_eq!(relay(Some(InputThreadMessage::Exit), Polled::Nothing), Relay::Stop);
    assert_eq!(
        relay(Some(InputThreadMessage::Exit), Polled::Key(press(Key::Enter))),
        Relay::Stop
    );
    assert_eq!(relay(Some(InputThreadMessage::Exit), Polled::Resize(1, 1)), Relay::Stop);
}

#[test]
fn the_relay_ends_when_the_controller_is_gone() {
    assert_eq!(after_send(true), Relay::Continue);
    assert_eq!(after_send(false), Relay::Stop);
}

#[test]
fn messages_compare_by_what_they_hold() {
    assert_eq!(ReaderThreadMessage::Exit, ReaderThreadMessage::Exit);
    assert_eq!(InputThreadMessage::Exit, InputThreadMessage::Exit);
    assert_ne!(TerminalThreadMessage::Read(0), TerminalThreadMessage::Read(1));
    assert_ne!(TerminalThreadMessage::Resize(80, 24), TerminalThreadMessage::Resize(24, 80));
    assert_ne!(press(Key::Char('g')), press(Key::Char('G')));
}
