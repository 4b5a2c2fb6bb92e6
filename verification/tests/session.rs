use sim_core::protocol::{ServerMessage, INVALID_MESSAGE, RECORDING_ID};
use sim_core::session::{Directive, Request, Session};

fn ack(frame: usize, parameter_changed: bool) -> ServerMessage {
    ServerMessage::Acknowledge { recording_id: "0".to_string(), frame, parameter_changed }
}

#[test]
fn recording_is_known_as_zero() {
    assert_eq!(RECORDING_ID, "0");
    assert_eq!(
        ServerMessage::started(),
        ServerMessage::StartedRecording { recording_id: "0".to_string() }
    );
    assert_eq!(
        ServerMessage::stopped(),
        ServerMessage::StoppedRecording { recording_id: "0".to_string() }
    );
    assert_eq!(ServerMessage::acknowledge(12, true), ack(12, true));
    assert_eq!(ServerMessage::acknowledge(0, false), ack(0, false));
}

#[test]
fn invalid_message_quotes_the_detail() {
    assert_eq!(INVALID_MESSAGE, "Invalid message: ");
    assert_eq!(
        ServerMessage::invalid("missing field `type`"),
        ServerMessage::Error { message: "Invalid message: missing field `type`".to_string() }
    );
}

#[test]
fn new_session_is_at_frame_zero_without_simulation() {
    let session = Session::new();
    assert_eq!(session.frame(), 0);
    assert!(!session.is_recording());
}

#[test]
fn start_creates_and_stop_drops() {
    let mut session = Session::new();
    assert_eq!(
        session.handle(Request::StartRecording),
        Directive::Start { reply: ServerMessage::started() }
    );
    assert!(session.is_recording());
    assert_eq!(
        session.handle(Request::StopRecording),
        Directive::Stop { reply: ServerMessage::stopped() }
    );
    assert!(!session.is_recording());
    assert_eq!(session.frame(), 0);
}

#[test]
fn step_that_is_due_advances_and_moves_on() {
    let mut session = Session::new();
    session.handle(Request::StartRecording);
    assert_eq!(
        session.handle(Request::Step { frame: 0 }),
        Directive::Advance { reply: ack(0, false) }
    );
    assert_eq!(session.frame(), 1);
    assert_eq!(
        session.handle(Request::Step { frame: 1 }),
        Directive::Advance { reply: ack(1, false) }
    );
    assert_eq!(session.frame(), 2);
}

#[test]
fn step_is_not_repeated() {
    let mut session = Session::new();
    session.handle(Request::StartRecording);
    session.handle(Request::Step { frame: 0 });
    assert_eq!(session.handle(Request::Step { frame: 0 }), Directive::Ignore);
    assert_eq!(session.frame(), 1);
}

#[test]
fn step_ahead_of_the_session_is_ignored() {
    let mut session = Session::new();
    session.handle(Request::StartRecording);
    assert_eq!(session.handle(Request::Step { frame: 3 }), Directive::Ignore);
    assert_eq!(session.frame(), 0);
}

#[test]
fn step_without_simulation_still_moves_on() {
    let mut session = Session::new();
    assert_eq!(session.handle(Request::Step { frame: 0 }), Directive::Ignore);
    assert_eq!(session.frame(), 1);
}

#[test]
fn change_that_is_due_is_acknowledged() {
    let mut session = Session::new();
    session.handle(Request::StartRecording);
    assert_eq!(
        session.handle(Request::Change { frame: 0 }),
        Directive::Change { apply: true, reply: ack(0, true) }
    );
    assert_eq!(session.frame(), 0);
}

#[test]
fn change_without_simulation_is_acknowledged_and_not_applied() {
    let mut session = Session::new();
    assert_eq!(
        session.handle(Request::Change { frame: 0 }),
        Directive::Change { apply: false, reply: ack(0, true) }
    );
}

#[test]
fn change_for_another_frame_is_ignored() {
    let mut session = Session::new();
    session.handle(Request::StartRecording);
    session.handle(Request::Step { frame: 0 });
    assert_eq!(session.handle(Request::Change { frame: 0 }), Directive::Ignore);
    assert_eq!(session.handle(Request::Change { frame: 2 }), Directive::Ignore);
    assert_eq!(
        session.handle(Request::Change { frame: 1 }),
        Directive::Change { apply: true, reply: ack(1, true) }
    );
}

#[test]
fn close_drops_the_simulation() {
    let mut session = Session::new();
    session.handle(Request::StartRecording);
    assert_eq!(session.handle(Request::Close), Directive::Discard);
    assert!(!session.is_recording());
}

#[test]
fn frame_is_kept_across_recordings() {
    let mut session = Session::new();
    session.handle(Request::StartRecording);
    session.handle(Request::Step { frame: 0 });
    session.handle(Request::StopRecording);
    session.handle(Request::StartRecording);
    assert_eq!(session.frame(), 1);
    assert_eq!(session.handle(Request::Step { frame: 0 }), Directive::Ignore);
}

#[test]
fn every_request_is_accepted_below_the_last_frame() {
    let session = Session::new();
    assert!(session.accepts(Request::StartRecording));
    assert!(session.accepts(Request::StopRecording));
    assert!(session.accepts(Request::Close));
    assert!(session.accepts(Request::Step { frame: 0 }));
    assert!(session.accepts(Request::Step { frame: usize::MAX }));
    assert!(session.accepts(Request::Change { frame: usize::MAX }));
}
