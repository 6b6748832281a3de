//! The status stage: one status request, one ping, then the
//! connection closes. A repeat of either is a protocol violation and
//! closes the connection at once.

use vstd::prelude::*;

verus! {

/// Which of the two status-stage packets have been answered.
pub struct ConnStateStatus {
    sent_status: bool,
    sent_pong: bool,
}

/// A status-stage packet, as far as this library reads it.
pub enum StatusPacketKind {
    /// The list-ping metadata request.
    StatusRequest,
    /// The latency probe, echoed back verbatim.
    PingRequest { timestamp: u64 },
}

/// The reply a status-stage packet earns.
pub enum StatusReply {
    /// Send the status response (version, MOTD, favicon).
    StatusResponse,
    /// Echo the ping timestamp.
    Pong { timestamp: u64 },
    /// No reply: the request was a repeat.
    Nothing,
}

/// One status-stage step: each of the two requests is answered once;
/// a repeat closes the connection, and so does having answered both.
pub open spec fn spec_status_step(state: ConnStateStatus, event: StatusPacketKind) -> (
    ConnStateStatus,
    StatusReply,
    bool,
) {
    let (next, reply, close) = match event {
        StatusPacketKind::StatusRequest => {
            if state.spec_sent_status() {
                (state, StatusReply::Nothing, true)
            } else {
                (
                    ConnStateStatus::spec_with(true, state.spec_sent_pong()),
                    StatusReply::StatusResponse,
                    false,
                )
            }
        },
        StatusPacketKind::PingRequest { timestamp } => {
            if state.spec_sent_pong() {
                (state, StatusReply::Nothing, true)
            } else {
                (
                    ConnStateStatus::spec_with(state.spec_sent_status(), true),
                    StatusReply::Pong { timestamp },
                    false,
                )
            }
        },
    };
    (next, reply, close || (next.spec_sent_status() && next.spec_sent_pong()))
}

impl ConnStateStatus {
    /// Whether the status response has been sent.
    pub closed spec fn spec_sent_status(&self) -> bool {
        self.sent_status
    }

    /// Whether the pong has been sent.
    pub closed spec fn spec_sent_pong(&self) -> bool {
        self.sent_pong
    }

    /// A status state with the given flags.
    pub closed spec fn spec_with(sent_status: bool, sent_pong: bool) -> ConnStateStatus {
        ConnStateStatus { sent_status, sent_pong }
    }

    /// A fresh status state: nothing answered yet.
    pub fn new() -> (r: Self)
        ensures
            !r.spec_sent_status(),
            !r.spec_sent_pong(),
    {
        ConnStateStatus { sent_status: false, sent_pong: false }
    }

    /// Handle one status-stage packet: the reply to send, and whether
    /// the connection closes now.
    pub fn step(&mut self, event: &StatusPacketKind) -> (r: (StatusReply, bool))
        ensures
            (*final(self), r.0, r.1) == spec_status_step(*old(self), *event),
    {
        match event {
            StatusPacketKind::StatusRequest => {
                if self.sent_status {
                    (StatusReply::Nothing, true)
                } else {
                    self.sent_status = true;
                    (StatusReply::StatusResponse, self.sent_status && self.sent_pong)
                }
            },
            StatusPacketKind::PingRequest { timestamp } => {
                if self.sent_pong {
                    (StatusReply::Nothing, true)
                } else {
                    self.sent_pong = true;
                    (StatusReply::Pong { timestamp: *timestamp }, self.sent_status
                        && self.sent_pong)
                }
            },
        }
    }
}

} // verus!
