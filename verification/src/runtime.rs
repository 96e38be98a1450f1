//! Decision logic of the connection's concurrent units.  Each loop's
//! per-event choice is a pure function here; the surrounding program
//! performs the socket and timer work and feeds the events in.
use vstd::prelude::*;
use crate::error::Error;
use crate::protocol::responses::{
    Handshake, MessageModel, Messsage, msg_wf, parse_handshake_response, spec_decode,
    spec_encode_text, spec_handshake_response,
};

verus! {

/// Seconds of outbound silence after which the heartbeat must prove
/// liveness with a ping.
pub const HEARTBEAT_IDLE_SECS: u64 = 2;

/// One occurrence on the receive half of the socket.
pub enum FrameEvent {
    /// A text frame and its payload.
    Text(String),
    /// A frame of another kind (binary, control, ...).
    NonText,
    /// The transport reported an error.
    TransportError,
    /// The socket is closed; no further frames will come.
    Closed,
}

/// What the reader loop does after one socket event.
#[derive(Debug)]
pub enum ReaderAction {
    /// Forward the decoded message to the inbound queue.
    Forward(Messsage),
    /// Note a diagnostic and keep reading: one bad frame is not fatal.
    Diagnostic,
    /// Stop reading; closing the inbound queue is the shutdown signal.
    Exit,
}

/// Decides one step of the reader loop.  A frame that decodes is
/// forwarded; a frame that does not, or a non-text frame, costs only a
/// diagnostic; closure and transport errors end the loop.
pub fn reader_step(event: FrameEvent) -> (r: ReaderAction)
    ensures
        match event {
            FrameEvent::Text(t) => match spec_decode(t@) {
                Ok(m) => r matches ReaderAction::Forward(out) && out@ == m,
                Err(_) => r is Diagnostic,
            },
            FrameEvent::NonText => r is Diagnostic,
            FrameEvent::TransportError => r is Exit,
            FrameEvent::Closed => r is Exit,
        },
{
    match event {
        FrameEvent::Text(t) => match Messsage::decode(t.as_str()) {
            Ok(m) => ReaderAction::Forward(m),
            Err(_) => ReaderAction::Diagnostic,
        },
        FrameEvent::NonText => ReaderAction::Diagnostic,
        FrameEvent::TransportError => ReaderAction::Exit,
        FrameEvent::Closed => ReaderAction::Exit,
    }
}

/// What the writer loop does after taking one item off the outbound queue.
#[derive(Debug)]
pub enum WriterAction {
    /// Send this frame on the socket.
    Write(String),
    /// Note a diagnostic and take the next item.
    Diagnostic,
    /// The queue is closed: the ordinary shutdown path.
    Exit,
}

/// Decides one step of the writer loop: encode and send, skip a message
/// that cannot be encoded, stop when the queue has closed.
pub fn writer_step(item: Option<Messsage>) -> (r: WriterAction)
    ensures
        match item {
            None => r is Exit,
            Some(m) => if msg_wf(m@) {
                r matches WriterAction::Write(t) && t@ == spec_encode_text(m@)
            } else {
                r is Diagnostic
            },
        },
{
    match item {
        None => WriterAction::Exit,
        Some(m) => match m.encode() {
            Ok(t) => WriterAction::Write(t),
            Err(_) => WriterAction::Diagnostic,
        },
    }
}

/// One outcome of the heartbeat's race between the idle timer and the
/// activity notification.
pub enum HeartbeatEvent {
    /// The idle window elapsed with no outbound traffic.
    IdleTimeout,
    /// Other outbound traffic already proved liveness.
    Activity,
}

/// Decides one heartbeat cycle: a ping exactly when the idle window
/// elapsed first.
pub fn heartbeat_step(event: HeartbeatEvent) -> (r: Option<Messsage>)
    ensures
        match event {
            HeartbeatEvent::IdleTimeout => r matches Some(m) && m@ == MessageModel::Ping,
            HeartbeatEvent::Activity => r is None,
        },
{
    match event {
        HeartbeatEvent::IdleTimeout => Some(Messsage::Ping),
        HeartbeatEvent::Activity => None,
    }
}

/// Decides the handshake from the single frame read after sending the
/// request: success exactly on a response object without an error member;
/// everything else fails, with the peer's reason when it gave one.
pub fn process_handshake_frame(event: FrameEvent) -> (r: Result<(), Error>)
    ensures
        match event {
            FrameEvent::Text(t) => match spec_handshake_response(t@) {
                Some(Some(reason)) => r matches Err(e) && e.message@
                    == "Handshake failed, inner "@ + reason,
                Some(None) => r is Ok,
                None => r matches Err(e) && e.message@ == "Handshake failed, inner "@,
            },
            _ => r matches Err(e) && e.message@ == "Handshake failed, inner "@,
        },
{
    proof {
        reveal_strlit("");
        assert(""@ =~= Seq::<char>::empty());
        assert(("Handshake failed, inner "@ + ""@) =~= "Handshake failed, inner "@);
    }
    match event {
        FrameEvent::Text(t) => match parse_handshake_response(t.as_str()) {
            Some(Handshake::Response { error }) => match error {
                Some(reason) => Err(Error::handshake_error(reason.as_str())),
                None => Ok(()),
            },
            _ => Err(Error::handshake_error("")),
        },
        _ => Err(Error::handshake_error("")),
    }
}

} // verus!
