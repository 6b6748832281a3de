//! Player records and the lifecycle events upstream logic consumes.

pub mod comms;

use vstd::prelude::*;
use crate::conn::login::ProfileProperty;

verus! {

/// A logged-in player: identity and signed profile properties.
pub struct Player {
    uuid: u128,
    username: String,
    props: Vec<ProfileProperty>,
}

impl Player {
    /// The player's unique id.
    pub closed spec fn uuid_view(&self) -> u128 {
        self.uuid
    }

    /// The player's name.
    pub closed spec fn username_view(&self) -> Seq<char> {
        self.username@
    }

    /// The player's signed profile properties.
    pub closed spec fn props_view(&self) -> Seq<ProfileProperty> {
        self.props@
    }

    /// Build a player record at login completion.
    pub fn new(uuid: u128, username: String, props: Vec<ProfileProperty>) -> (r: Player)
        ensures
            r.uuid_view() == uuid,
            r.username_view() == username@,
            r.props_view() == props@,
    {
        Player { uuid, username, props }
    }

    /// The player's unique id.
    pub fn uuid(&self) -> (r: u128)
        ensures
            r == self.uuid_view(),
    {
        self.uuid
    }

    /// The player's name.
    pub fn username(&self) -> (r: &String)
        ensures
            r@ == self.username_view(),
    {
        &self.username
    }
}

/// A player completed login and entered play.
pub struct PlayerJoined {
    /// The entity owning the connection.
    pub entity: u64,
}

/// A player's connection was torn down.
pub struct PlayerLeft {
    /// The player's unique id.
    pub uuid: u128,
    /// The player's name.
    pub username: String,
}

/// An upstream request to kick a player with a message.
pub struct KickPlayer {
    /// The entity owning the connection.
    pub entity: u64,
    /// The kick reason shown to the player.
    pub message: String,
}

} // verus!
