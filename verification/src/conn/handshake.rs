//! The handshake stage: the client's first packet announces which
//! stage it intends to enter.

use vstd::prelude::*;
use super::RealStage;

verus! {

/// Marker state of a connection still awaiting its intention packet.
pub struct ConnStateHandshake;

/// The stage the intention packet asks for.
pub enum IntendedStage {
    /// A status query.
    Status,
    /// A normal login.
    Login,
    /// A transfer from another server, handled like a login.
    Transfer,
}

/// Where the handshake sends the connection next.
pub enum HandshakeOutcome {
    /// Enter the status stage.
    ToStatus,
    /// Enter the login stage, waiting for the hello packet.
    ToLogin,
}

/// Where an intention leads: status queries to the status stage,
/// logins and transfers to the login stage.
pub open spec fn spec_handle_intention(intent: IntendedStage) -> (HandshakeOutcome, RealStage) {
    match intent {
        IntendedStage::Status => (HandshakeOutcome::ToStatus, RealStage::Status),
        IntendedStage::Login => (HandshakeOutcome::ToLogin, RealStage::Login),
        IntendedStage::Transfer => (HandshakeOutcome::ToLogin, RealStage::Login),
    }
}

/// Handle the intention packet: the outcome says which stage state to
/// attach, and the connection's real stage advances accordingly.
pub fn handle_intention(conn: &mut super::Connection, intent: &IntendedStage) -> (r:
    HandshakeOutcome)
    requires
        old(conn).real_stage_view() is Handshake,
    ensures
        (r, final(conn).real_stage_view()) == spec_handle_intention(*intent),
        final(conn).data_queue_view() == old(conn).data_queue_view(),
        final(conn).packet_index_view() == old(conn).packet_index_view(),
        final(conn).spec_closing() == old(conn).spec_closing(),
        final(conn).outbound_view() == old(conn).outbound_view(),
        final(conn).announcements_view() == old(conn).announcements_view(),
        final(conn).compression_view() == old(conn).compression_view(),
        final(conn).spec_cipher_installed() == old(conn).spec_cipher_installed(),
        final(conn).peer_addr_view() == old(conn).peer_addr_view(),
{
    match intent {
        IntendedStage::Status => {
            conn.set_real_stage(RealStage::Status);
            HandshakeOutcome::ToStatus
        },
        IntendedStage::Login => {
            conn.set_real_stage(RealStage::Login);
            HandshakeOutcome::ToLogin
        },
        IntendedStage::Transfer => {
            conn.set_real_stage(RealStage::Login);
            HandshakeOutcome::ToLogin
        },
    }
}

} // verus!
