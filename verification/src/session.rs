//! The decisions of a recording session.
//!
//! A client drives one simulation over a connection, frame by frame. Each of
//! its requests but the ones that start and end a recording names the frame
//! it is meant for, and is acted upon only where that frame is the one the
//! session has reached. A step moves the session on to the next frame, so no
//! frame is stepped twice. The session decides; carrying out what it decided
//! (the simulation, the queue, the connection) is left to its owner.

use crate::protocol::{
    acknowledgement, started_recording, stopped_recording, ServerMessage, ServerMessageView,
};
use vstd::prelude::*;

verus! {

/// What a session reads of a client's message.
#[derive(Debug, Clone, Copy, PartialEq, Eq)]
pub enum Request {
    /// Create a simulation and record it.
    StartRecording,
    /// Drop the simulation.
    StopRecording,
    /// Advance the simulation by one step, as frame `frame`.
    Step { frame: usize },
    /// Change a parameter of the simulation, or its interaction, before
    /// frame `frame` is stepped.
    Change { frame: usize },
    /// The client closes the connection.
    Close,
}

/// What the owner of a session is to do about a request.
#[derive(Debug, PartialEq, Eq)]
pub enum Directive {
    /// Nothing.
    Ignore,
    /// Create the simulation, replacing the one there is, then send `reply`.
    Start { reply: ServerMessage },
    /// Send `reply`, then drop the simulation.
    Stop { reply: ServerMessage },
    /// Drop the simulation.
    Discard,
    /// Step the simulation and queue the frame. Send `reply` where the
    /// queue took the frame.
    Advance { reply: ServerMessage },
    /// Apply the change to the simulation where `apply` is set, then send
    /// `reply`.
    Change { apply: bool, reply: ServerMessage },
}

/// A `Directive` with the view of its reply.
pub enum DirectiveView {
    Ignore,
    Start { reply: ServerMessageView },
    Stop { reply: ServerMessageView },
    Discard,
    Advance { reply: ServerMessageView },
    Change { apply: bool, reply: ServerMessageView },
}

impl View for Directive {
    type V = DirectiveView;

    open spec fn view(&self) -> DirectiveView {
        match self {
            Directive::Ignore => DirectiveView::Ignore,
            Directive::Start { reply } => DirectiveView::Start { reply: reply@ },
            Directive::Stop { reply } => DirectiveView::Stop { reply: reply@ },
            Directive::Discard => DirectiveView::Discard,
            Directive::Advance { reply } => DirectiveView::Advance { reply: reply@ },
            Directive::Change { apply, reply } => DirectiveView::Change {
                apply: *apply,
                reply: reply@,
            },
        }
    }
}

/// The state of a session: the frame it has reached, which is the next to be
/// stepped, and whether it holds a simulation.
pub struct SessionView {
    pub current_frame: nat,
    pub recording: bool,
}

impl SessionView {
    /// Whether `request` is one that the session acts upon: it names no
    /// frame, or the frame that the session has reached.
    pub open spec fn due(self, request: Request) -> bool {
        match request {
            Request::Step { frame } => frame == self.current_frame,
            Request::Change { frame } => frame == self.current_frame,
            _ => true,
        }
    }

    /// What is to be done about `request`.
    pub open spec fn directive(self, request: Request) -> DirectiveView {
        match request {
            Request::StartRecording => DirectiveView::Start { reply: started_recording() },
            Request::StopRecording => DirectiveView::Stop { reply: stopped_recording() },
            Request::Close => DirectiveView::Discard,
            Request::Step { frame } => if self.due(request) && self.recording {
                DirectiveView::Advance { reply: acknowledgement(frame, false) }
            } else {
                DirectiveView::Ignore
            },
            Request::Change { frame } => if self.due(request) {
                DirectiveView::Change { apply: self.recording, reply: acknowledgement(frame, true) }
            } else {
                DirectiveView::Ignore
            },
        }
    }

    /// The state once `request` is handled. A step that is due moves the
    /// session on by one frame, with or without a simulation. A recording
    /// that starts leaves the frame where it is.
    pub open spec fn after(self, request: Request) -> SessionView {
        match request {
            Request::StartRecording => SessionView { recording: true, ..self },
            Request::StopRecording => SessionView { recording: false, ..self },
            Request::Close => SessionView { recording: false, ..self },
            Request::Step { frame } => if self.due(request) {
                SessionView { current_frame: self.current_frame + 1, ..self }
            } else {
                self
            },
            Request::Change { frame } => self,
        }
    }

    /// No frame is stepped twice: once a step for a frame was due, a second
    /// step for that frame is ignored and changes nothing.
    pub proof fn lemma_step_not_repeated(self, frame: usize)
        requires
            self.due(Request::Step { frame }),
        ensures
            self.after(Request::Step { frame }).directive(Request::Step { frame })
                == DirectiveView::Ignore,
            self.after(Request::Step { frame }).after(Request::Step { frame }) == self.after(
                Request::Step { frame },
            ),
    {
    }

    /// The session never goes back to an earlier frame.
    pub proof fn lemma_frames_ascend(self, request: Request)
        ensures
            self.after(request).current_frame >= self.current_frame,
    {
    }

    /// A request that is not due is ignored and changes nothing.
    pub proof fn lemma_stale_request_ignored(self, request: Request)
        requires
            !self.due(request),
        ensures
            self.directive(request) == DirectiveView::Ignore,
            self.after(request) == self,
    {
    }
}

/// A recording session.
#[derive(Debug, Clone, Copy, PartialEq, Eq)]
pub struct Session {
    current_frame: usize,
    recording: bool,
}

impl View for Session {
    type V = SessionView;

    closed spec fn view(&self) -> SessionView {
        SessionView { current_frame: self.current_frame as nat, recording: self.recording }
    }
}

impl Session {
    /// Whether `request` can be handled: a step that is due needs a frame
    /// to move on to.
    pub open spec fn can_handle(&self, request: Request) -> bool {
        self@.after(request).current_frame <= usize::MAX
    }

    /// A session at frame zero, without a simulation.
    pub fn new() -> (session: Session)
        ensures
            session@ == (SessionView { current_frame: 0, recording: false }),
    {
        Session { current_frame: 0, recording: false }
    }

    /// The frame that the session has reached.
    pub fn frame(&self) -> (frame: usize)
        ensures
            frame == self@.current_frame,
    {
        self.current_frame
    }

    /// Whether the session holds a simulation.
    pub fn is_recording(&self) -> (recording: bool)
        ensures
            recording == self@.recording,
    {
        self.recording
    }

    /// Tests whether `request` can be handled.
    pub fn accepts(&self, request: Request) -> (accepted: bool)
        ensures
            accepted == self.can_handle(request),
    {
        match request {
            Request::Step { frame } => frame != self.current_frame || frame < usize::MAX,
            _ => true,
        }
    }

    /// Decides what is to be done about `request`, and moves the session on.
    pub fn handle(&mut self, request: Request) -> (directive: Directive)
        requires
            old(self).can_handle(request),
        ensures
            directive@ == old(self)@.directive(request),
            final(self)@ == old(self)@.after(request),
    {
        match request {
            Request::StartRecording => {
                self.recording = true;
                Directive::Start { reply: ServerMessage::started() }
            },
            Request::StopRecording => {
                self.recording = false;
                Directive::Stop { reply: ServerMessage::stopped() }
            },
            Request::Close => {
                self.recording = false;
                Directive::Discard
            },
            Request::Step { frame } => {
                if self.current_frame == frame {
                    self.current_frame += 1;
                    if self.recording {
                        Directive::Advance { reply: ServerMessage::acknowledge(frame, false) }
                    } else {
                        Directive::Ignore
                    }
                } else {
                    Directive::Ignore
                }
            },
            Request::Change { frame } => {
                if self.current_frame == frame {
                    Directive::Change {
                        apply: self.recording,
                        reply: ServerMessage::acknowledge(frame, true),
                    }
                } else {
                    Directive::Ignore
                }
            },
        }
    }
}

} // verus!
