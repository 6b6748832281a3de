//! Play-stage packet routing, including the configuration
//! re-negotiation round trips.

use vstd::prelude::*;
use super::packet::{Packet, ConfigPacketKind, PlayPacketKind, NextStage};

verus! {

/// The stage the play-state machine believes the client is in: play,
/// or back in configuration for re-negotiation.
pub struct ConnStatePlay {
    /// The current sub-stage.
    pub stage: NextStage,
}

/// What routing one inbound packet decides.
pub enum PlayRoute {
    /// The client finished re-configuration: announce the switch to
    /// play on the stage channel.
    SwitchedToPlay,
    /// The client acknowledged a switch back to configuration:
    /// announce it on the stage channel.
    SwitchedToConfig,
    /// Anything else: forward upstream as a packet-read event with a
    /// fresh index.
    Forward,
}

/// One routing step: in the configuration sub-stage the finish packet
/// flips to play, in the play sub-stage the acknowledgement flips back
/// to configuration; every other packet is forwarded upstream.
pub open spec fn spec_play_step(stage: NextStage, event: Packet) -> (NextStage, PlayRoute) {
    match event {
        Packet::Config(kind) => {
            if kind is FinishConfiguration {
                (NextStage::Play, PlayRoute::SwitchedToPlay)
            } else {
                (stage, PlayRoute::Forward)
            }
        },
        Packet::Play(kind) => {
            if kind is ConfigurationAcknowledged {
                (NextStage::Config, PlayRoute::SwitchedToConfig)
            } else {
                (stage, PlayRoute::Forward)
            }
        },
    }
}

impl ConnStatePlay {
    /// Route one inbound packet. The packet must belong to the
    /// sub-stage the machine is in: the caller decodes against the
    /// current sub-stage's prefix namespace.
    pub fn step(&mut self, event: &Packet) -> (r: PlayRoute)
        requires
            (old(self).stage is Config) <==> (event is Config),
        ensures
            (final(self).stage, r) == spec_play_step(old(self).stage, *event),
    {
        match event {
            Packet::Config(kind) => {
                match kind {
                    ConfigPacketKind::FinishConfiguration => {
                        self.stage = NextStage::Play;
                        PlayRoute::SwitchedToPlay
                    },
                    _ => PlayRoute::Forward,
                }
            },
            Packet::Play(kind) => {
                match kind {
                    PlayPacketKind::ConfigurationAcknowledged => {
                        self.stage = NextStage::Config;
                        PlayRoute::SwitchedToConfig
                    },
                    _ => PlayRoute::Forward,
                }
            },
        }
    }
}

} // verus!
