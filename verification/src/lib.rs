//! Connection- and world-edge of a Minecraft-compatible game server.
//!
//! The crate verifies the three subsystems at the heart of the player
//! plugin: the per-connection protocol engine (stage state machine,
//! framed byte stream, keepalive), the login pipeline, and the voxel
//! world paging engine (run-length chunk sections, batched edits,
//! spiral chunk loading). Network and scheduler plumbing around these
//! lives outside the library and drives it through plain values.

pub mod conn;
pub mod player;
pub mod world;

use vstd::prelude::*;

verus! {

/// The plugin's process-wide configuration, fixed at construction.
pub struct FlywheelMcPlayersPlugin {
    /// Connection limit, if any.
    pub max_conns: Option<usize>,
    /// Addresses the listener binds.
    pub listen_addrs: Vec<String>,
    /// Status-response message of the day.
    pub motd: String,
    /// Version name shown in the status response.
    pub version: String,
    /// Favicon, PNG as base64.
    pub favicon: String,
    /// Compression threshold to negotiate at login.
    pub compress_threshold: usize,
    /// Whether to verify sessions with the authentication server.
    pub mojauth_enabled: bool,
    /// Server id fed into the cipher context.
    pub server_id: String,
    /// Brand sent during configuration.
    pub server_brand: String,
    /// Footer under every kick message.
    pub kick_footer: String,
    /// Identifier of the default dimension.
    pub default_dim_id: String,
    /// Height of the default dimension, in cells.
    pub default_dim_height: u32,
    /// Largest view distance a client may request.
    pub max_view_distance: u8,
}

impl FlywheelMcPlayersPlugin {
    /// The admission and negotiation settings one login tick reads:
    /// over capacity exactly when a limit is configured and the live
    /// connection count exceeds it.
    pub fn login_settings(&self, active_conns: usize, reject_new_conns: bool) -> (r:
        conn::login::LoginSettings)
        ensures
            r.reject_new_conns == reject_new_conns,
            r.over_capacity == (self.max_conns matches Some(m) && active_conns > m),
            r.compress_threshold == self.compress_threshold,
            r.mojauth_enabled == self.mojauth_enabled,
    {
        let over_capacity = match self.max_conns {
            Option::Some(m) => active_conns > m,
            Option::None => false,
        };
        conn::login::LoginSettings {
            reject_new_conns,
            over_capacity,
            compress_threshold: self.compress_threshold,
            mojauth_enabled: self.mojauth_enabled,
        }
    }
}

/// When set, new connections are kicked at hello with this reason.
pub struct RejectNewConns(pub String);

/// The status-response message of the day.
pub struct ServerMotd(pub String);

} // verus!
