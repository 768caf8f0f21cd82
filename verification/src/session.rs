//! The relay's single WebSocket session as an explicit state machine:
//! disconnected or connected, one slot. A second connect silently
//! replaces the first; send and close are refused while disconnected.
//! The socket I/O itself happens outside the library, which is told the
//! outcome and keeps the state.

use vstd::prelude::*;

verus! {

/// The one shared WebSocket slot.
#[derive(Debug)]
pub struct WebSocketState {
    pub connected: bool,
}

impl WebSocketState {
    /// A fresh slot: disconnected.
    pub fn new() -> (r: WebSocketState)
        ensures
            !r.connected,
    {
        WebSocketState { connected: false }
    }

    /// Records a successfully opened connection. Whatever was in the
    /// slot before is replaced; the result says whether something was.
    pub fn on_open(&mut self) -> (replaced: bool)
        ensures
            final(self).connected,
            replaced == old(self).connected,
    {
        let was = self.connected;
        self.connected = true;
        was
    }

    /// Whether a message may be sent: only while connected.
    pub fn may_send(&self) -> (r: bool)
        ensures
            r == self.connected,
    {
        self.connected
    }

    /// Records a close. The result says whether a connection was
    /// actually open; afterwards the slot is free either way.
    pub fn on_close(&mut self) -> (was_connected: bool)
        ensures
            !final(self).connected,
            was_connected == old(self).connected,
    {
        let was = self.connected;
        self.connected = false;
        was
    }

    /// The text reported when the slot holds a live connection.
    pub fn established_text(&self) -> (r: String)
        ensures
            r@ == "WebSocket connection established."@,
    {
        "WebSocket connection established.".to_string()
    }

    /// The text reported after a successful send.
    pub fn sent_text(&self) -> (r: String)
        ensures
            r@ == "Message sent."@,
    {
        "Message sent.".to_string()
    }

    /// The text reported after a successful close.
    pub fn closed_text(&self) -> (r: String)
        ensures
            r@ == "WebSocket connection closed."@,
    {
        "WebSocket connection closed.".to_string()
    }

    /// The text refusing send or close while disconnected.
    pub fn not_connected_text(&self) -> (r: String)
        ensures
            r@ == "WebSocket is not connected."@,
    {
        "WebSocket is not connected.".to_string()
    }

    /// The send decision: `Ok` with the success text while connected,
    /// the refusal text otherwise, leaving the state as it is.
    pub fn send_decision(&self) -> (r: Result<String, String>)
        ensures
            self.connected ==> r is Ok && r->Ok_0@ == "Message sent."@,
            !self.connected ==> r is Err && r->Err_0@ == "WebSocket is not connected."@,
    {
        if self.connected {
            Ok(self.sent_text())
        } else {
            Err(self.not_connected_text())
        }
    }

    /// The close decision: frees the slot and reports whether there was
    /// anything to close.
    pub fn close_decision(&mut self) -> (r: Result<String, String>)
        ensures
            !final(self).connected,
            old(self).connected ==> r is Ok && r->Ok_0@ == "WebSocket connection closed."@,
            !old(self).connected ==> r is Err && r->Err_0@ == "WebSocket is not connected."@,
    {
        let was = self.on_close();
        if was {
            Ok(self.closed_text())
        } else {
            Err(self.not_connected_text())
        }
    }
}

} // verus!
