//! Inbound packet events and the writer task's stage discipline.

use vstd::prelude::*;

verus! {

/// The codec stage a queued outbound frame asks the writer to adopt.
#[derive(Clone, Copy, PartialEq, Eq, Structural, Debug)]
pub enum SetStage {
    /// The frame belongs to the writer's current stage.
    NoSet,
    /// The frame is a configuration-stage packet.
    Config,
    /// The frame is a play-stage packet.
    Play,
}

/// The stage the writer task believes the codec is in.
#[derive(Clone, Copy, PartialEq, Eq, Structural, Debug)]
pub enum CurrentStage {
    /// Nothing stage-tagged written yet.
    Startup,
    /// Configuration stage.
    Config,
    /// Play stage.
    Play,
}

/// A pre-announced stage switch, sent to the writer before any packet
/// of the new stage is queued.
#[derive(Clone, Copy, PartialEq, Eq, Structural, Debug)]
pub enum NextStage {
    /// Switch to the configuration stage.
    Config,
    /// Switch to the play stage.
    Play,
}

/// A configuration-stage packet, as far as this library reads it.
pub enum ConfigPacketKind {
    /// The client confirmed the end of configuration.
    FinishConfiguration,
    /// A keepalive echo.
    KeepAlive { id: u64 },
    /// Client settings carrying a requested view distance.
    ClientInformation { view_distance: u8 },
    /// Any other configuration-stage packet, forwarded upstream.
    Other,
}

/// A play-stage packet, as far as this library reads it.
pub enum PlayPacketKind {
    /// The client acknowledged a switch back to configuration.
    ConfigurationAcknowledged,
    /// A keepalive echo.
    KeepAlive { id: u64 },
    /// Client settings carrying a requested view distance.
    ClientInformation { view_distance: u8 },
    /// End-of-tick marker.
    ClientTickEnd,
    /// Any other play-stage packet, forwarded upstream.
    Other,
}

/// An inbound packet from either post-login stage.
pub enum Packet {
    /// A configuration-stage packet.
    Config(ConfigPacketKind),
    /// A play-stage packet.
    Play(PlayPacketKind),
}

impl From<ConfigPacketKind> for Packet {
    fn from(value: ConfigPacketKind) -> (r: Self) {
        Packet::Config(value)
    }
}

impl vstd::std_specs::convert::FromSpecImpl<ConfigPacketKind> for Packet {
    open spec fn obeys_from_spec() -> bool {
        true
    }

    open spec fn from_spec(value: ConfigPacketKind) -> Self {
        Packet::Config(value)
    }
}

impl From<PlayPacketKind> for Packet {
    fn from(value: PlayPacketKind) -> (r: Self) {
        Packet::Play(value)
    }
}

impl vstd::std_specs::convert::FromSpecImpl<PlayPacketKind> for Packet {
    open spec fn obeys_from_spec() -> bool {
        true
    }

    open spec fn from_spec(value: PlayPacketKind) -> Self {
        Packet::Play(value)
    }
}

/// A decoded inbound packet handed to upstream consumers, stamped
/// with its connection-local total order.
pub struct PacketReadEvent {
    /// The entity owning the connection.
    pub entity: u64,
    /// The packet itself.
    pub packet: Packet,
    /// Strictly increasing per connection.
    pub index: u128,
}

/// What the stage-specific typed decoder reported for one frame
/// body. The decoding itself belongs to the external packet
/// catalogue; its report comes back as one of these.
pub enum DecoderOutcome {
    /// One packet decoded in full.
    Decoded,
    /// The body ran out mid-packet.
    EndOfBuffer,
    /// The body is not a well-formed packet.
    InvalidData,
    /// Bytes were left over after the packet.
    UnconsumedBuffer,
    /// The packet prefix names no known packet.
    UnknownPacketPrefix { prefix: u32 },
}

/// What a decoder report obliges the connection to do.
pub enum DecoderPolicy {
    /// Hand the packet to the current stage's state machine.
    Handle,
    /// Keep the bytes and try again next tick.
    RetryNextTick,
    /// A protocol violation: kick the peer with a bad-packet reason.
    KickBadPacket,
    /// Unknown packets are forward-compatible: log a warning and drop
    /// the frame, without kicking.
    WarnAndDrop,
}

/// The policy for each decoder report: a decoded packet is handled, a
/// short body is retried next tick, malformed or oversized data is a
/// protocol violation, and an unknown prefix is dropped with a warning
/// only.
pub open spec fn spec_decoder_policy(outcome: DecoderOutcome) -> DecoderPolicy {
    match outcome {
        DecoderOutcome::Decoded => DecoderPolicy::Handle,
        DecoderOutcome::EndOfBuffer => DecoderPolicy::RetryNextTick,
        DecoderOutcome::InvalidData => DecoderPolicy::KickBadPacket,
        DecoderOutcome::UnconsumedBuffer => DecoderPolicy::KickBadPacket,
        DecoderOutcome::UnknownPacketPrefix { .. } => DecoderPolicy::WarnAndDrop,
    }
}

/// Decide what one decoder report obliges the connection to do.
pub fn decoder_policy(outcome: &DecoderOutcome) -> (r: DecoderPolicy)
    ensures
        r == spec_decoder_policy(*outcome),
{
    match outcome {
        DecoderOutcome::Decoded => DecoderPolicy::Handle,
        DecoderOutcome::EndOfBuffer => DecoderPolicy::RetryNextTick,
        DecoderOutcome::InvalidData => DecoderPolicy::KickBadPacket,
        DecoderOutcome::UnconsumedBuffer => DecoderPolicy::KickBadPacket,
        DecoderOutcome::UnknownPacketPrefix { .. } => DecoderPolicy::WarnAndDrop,
    }
}

/// Whether the writer may see a frame with this stage tag in this
/// stage: a mismatch must have been pre-announced, except the direct
/// login-to-play switch.
pub open spec fn spec_writer_tag_ok(current: CurrentStage, tag: SetStage) -> bool {
    match tag {
        SetStage::NoSet => true,
        SetStage::Config => current is Config,
        SetStage::Play => !(current is Config),
    }
}

/// The stage the writer is in after writing a frame with this tag.
pub open spec fn spec_writer_observe(current: CurrentStage, tag: SetStage) -> CurrentStage {
    match tag {
        SetStage::NoSet => current,
        SetStage::Config => CurrentStage::Config,
        SetStage::Play => CurrentStage::Play,
    }
}

/// Let the writer observe one outbound frame's stage tag: a play tag
/// in startup is the direct login-to-play switch; any other mismatch
/// must have been pre-announced on the stage channel.
pub fn writer_observe_frame(current: CurrentStage, tag: SetStage) -> (r: CurrentStage)
    requires
        spec_writer_tag_ok(current, tag),
    ensures
        r == spec_writer_observe(current, tag),
{
    match tag {
        SetStage::NoSet => current,
        SetStage::Config => CurrentStage::Config,
        SetStage::Play => CurrentStage::Play,
    }
}

/// Apply a pre-announced stage switch to the writer's stage.
pub fn writer_apply_announcement(next: NextStage) -> (r: CurrentStage)
    ensures
        next is Config ==> r is Config,
        next is Play ==> r is Play,
{
    match next {
        NextStage::Config => CurrentStage::Config,
        NextStage::Play => CurrentStage::Play,
    }
}

/// An announced switch makes the following frames of that stage
/// acceptable to the writer: announcing before queueing is exactly
/// what keeps the codec and the packet stream in step.
pub proof fn lemma_announcement_makes_tag_ok(next: NextStage, r: CurrentStage)
    requires
        next is Config ==> r is Config,
        next is Play ==> r is Play,
    ensures
        next is Config ==> spec_writer_tag_ok(r, SetStage::Config),
        next is Play ==> spec_writer_tag_ok(r, SetStage::Play),
{
}

} // verus!
