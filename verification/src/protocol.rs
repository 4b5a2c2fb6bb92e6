//! The messages that a recording session sends to its client.

use vstd::prelude::*;
use vstd::string::StringExecFns;

verus! {

/// The one recording that a session holds is known by this identifier.
pub const RECORDING_ID: &'static str = "0";

/// What opens the text of an `Error` message about a message that could not
/// be read.
pub const INVALID_MESSAGE: &'static str = "Invalid message: ";

/// A message from the server to the client.
#[derive(Debug, PartialEq, Eq)]
pub enum ServerMessage {
    /// The connection is open.
    Ready,
    /// A simulation was created and is being recorded.
    StartedRecording { recording_id: String },
    /// The simulation was dropped.
    StoppedRecording { recording_id: String },
    /// The message for `frame` was acted upon. `parameter_changed` tells a
    /// change of the simulation from a step of it.
    Acknowledge { recording_id: String, frame: usize, parameter_changed: bool },
    /// The client's message was not understood.
    Error { message: String },
}

/// A `ServerMessage` with its texts as sequences of characters.
pub enum ServerMessageView {
    Ready,
    StartedRecording { recording_id: Seq<char> },
    StoppedRecording { recording_id: Seq<char> },
    Acknowledge { recording_id: Seq<char>, frame: usize, parameter_changed: bool },
    Error { message: Seq<char> },
}

impl View for ServerMessage {
    type V = ServerMessageView;

    open spec fn view(&self) -> ServerMessageView {
        match self {
            ServerMessage::Ready => ServerMessageView::Ready,
            ServerMessage::StartedRecording { recording_id } => ServerMessageView::StartedRecording {
                recording_id: recording_id@,
            },
            ServerMessage::StoppedRecording { recording_id } => ServerMessageView::StoppedRecording {
                recording_id: recording_id@,
            },
            ServerMessage::Acknowledge {
                recording_id,
                frame,
                parameter_changed,
            } => ServerMessageView::Acknowledge {
                recording_id: recording_id@,
                frame: *frame,
                parameter_changed: *parameter_changed,
            },
            ServerMessage::Error { message } => ServerMessageView::Error { message: message@ },
        }
    }
}

/// The message that a recording has started.
pub open spec fn started_recording() -> ServerMessageView {
    ServerMessageView::StartedRecording { recording_id: RECORDING_ID@ }
}

/// The message that the recording has stopped.
pub open spec fn stopped_recording() -> ServerMessageView {
    ServerMessageView::StoppedRecording { recording_id: RECORDING_ID@ }
}

/// The acknowledgement of the message for `frame`.
pub open spec fn acknowledgement(frame: usize, parameter_changed: bool) -> ServerMessageView {
    ServerMessageView::Acknowledge { recording_id: RECORDING_ID@, frame, parameter_changed }
}

/// The message about a client message that could not be read, with the
/// reader's account of what is wrong with it.
pub open spec fn invalid_message(detail: Seq<char>) -> ServerMessageView {
    ServerMessageView::Error { message: INVALID_MESSAGE@ + detail }
}

impl ServerMessage {
    /// Builds the message that a recording has started.
    pub fn started() -> (message: ServerMessage)
        ensures
            message@ == started_recording(),
    {
        ServerMessage::StartedRecording { recording_id: RECORDING_ID.to_owned() }
    }

    /// Builds the message that the recording has stopped.
    pub fn stopped() -> (message: ServerMessage)
        ensures
            message@ == stopped_recording(),
    {
        ServerMessage::StoppedRecording { recording_id: RECORDING_ID.to_owned() }
    }

    /// Builds the acknowledgement of the message for `frame`.
    pub fn acknowledge(frame: usize, parameter_changed: bool) -> (message: ServerMessage)
        ensures
            message@ == acknowledgement(frame, parameter_changed),
    {
        ServerMessage::Acknowledge { recording_id: RECORDING_ID.to_owned(), frame, parameter_changed }
    }

    /// Builds the message about a client message that could not be read.
    pub fn invalid(detail: &str) -> (message: ServerMessage)
        ensures
            message@ == invalid_message(detail@),
    {
        ServerMessage::Error { message: String::from_str(INVALID_MESSAGE).concat(detail) }
    }
}

} // verus!
